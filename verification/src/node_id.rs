//! Ids of the tree's containers. A container's id says how to find its children:
//! `kind|worktree|path`.

use crate::decimal::{
    digits, is_digit, parse_u64, parsed_u64, parsing_undoes_printing, print_u64,
    printing_gives_digits,
};
use crate::text::{
    cut, find_first, join, lemma_first_index, lemma_split_once_at, push_text, split_once, to_chars,
    to_text,
};
use vstd::prelude::*;

verus! {

/// The kind of a container node, written into its id.
#[derive(Debug, Clone, Copy, PartialEq, Eq)]
pub enum NodeKind {
    /// A `.sln` file; children are its projects. The path is that of the `.sln`.
    Solution,
    /// A `.csproj` project; children are its `Dependencies` node plus its source root. The path
    /// is that of the `.csproj`.
    Project,
    /// The virtual "Dependencies" node of a project; children are package and project references.
    /// The path is that of the `.csproj`.
    Dependencies,
    /// A directory in an SDK-style project's source tree; children are its entries. The path is
    /// that of the directory.
    Directory,
    /// A virtual directory of a legacy project's explicit compile-item tree. The path is
    /// `csproj|subdir`: the owning project plus the directory relative to it.
    ItemDirectory,
}

impl NodeKind {
    /// How the kind is written in an id.
    pub open spec fn tag_text(self) -> Seq<char> {
        match self {
            NodeKind::Solution => "sln"@,
            NodeKind::Project => "proj"@,
            NodeKind::Dependencies => "deps"@,
            NodeKind::Directory => "dir"@,
            NodeKind::ItemDirectory => "itemdir"@,
        }
    }

    /// How the kind is written in an id.
    pub fn tag(&self) -> (tag: &'static str)
        ensures
            tag@ == self.tag_text(),
    {
        match self {
            NodeKind::Solution => "sln",
            NodeKind::Project => "proj",
            NodeKind::Dependencies => "deps",
            NodeKind::Directory => "dir",
            NodeKind::ItemDirectory => "itemdir",
        }
    }
}

/// The id of a container: its kind, its worktree and its path, with `|` between them.
pub open spec fn encoded(kind: NodeKind, worktree_id: u64, rel: Seq<char>) -> Seq<char> {
    kind.tag_text().push('|') + (digits(worktree_id as nat).push('|') + rel)
}

/// The tag, worktree and path that an id is made of; `None` when it does not have three parts or
/// the second is not a number. The path is everything after the second `|`.
pub open spec fn decoded(id: Seq<char>) -> Option<(Seq<char>, u64, Seq<char>)> {
    match split_once(id, '|') {
        None => None,
        Some((tag, rest)) => match split_once(rest, '|') {
            None => None,
            Some((number, rel)) => match parsed_u64(number) {
                None => None,
                Some(worktree_id) => Some((tag, worktree_id, rel)),
            },
        },
    }
}

proof fn lemma_tag(kind: NodeKind)
    ensures
        !kind.tag_text().contains('|'),
{
    reveal_strlit("sln");
    reveal_strlit("proj");
    reveal_strlit("deps");
    reveal_strlit("dir");
    reveal_strlit("itemdir");
}

/// Different kinds have different tags.
pub proof fn tags_are_distinct(a: NodeKind, b: NodeKind)
    requires
        a.tag_text() == b.tag_text(),
    ensures
        a == b,
{
    reveal_strlit("sln");
    reveal_strlit("proj");
    reveal_strlit("deps");
    reveal_strlit("dir");
    reveal_strlit("itemdir");
    assert("sln"@[0] == 's' && "proj"@[0] == 'p' && "itemdir"@[0] == 'i');
    assert("deps"@[1] == 'e' && "dir"@[1] == 'i' && "deps"@[0] == 'd' && "dir"@[0] == 'd');
}

/// Decoding an id gives back what it was encoded from, whatever the path holds.
pub proof fn decoding_undoes_encoding(kind: NodeKind, worktree_id: u64, rel: Seq<char>)
    ensures
        decoded(encoded(kind, worktree_id, rel)) == Some((kind.tag_text(), worktree_id, rel)),
{
    let number = digits(worktree_id as nat);
    lemma_tag(kind);
    printing_gives_digits(worktree_id);
    assert(!number.contains('|')) by {
        if number.contains('|') {
            let i = choose|i: int| 0 <= i < number.len() && number[i] == '|';
            assert(is_digit(number[i]));
        }
    }
    lemma_split_once_at(kind.tag_text(), '|', number.push('|') + rel);
    lemma_split_once_at(number, '|', rel);
    parsing_undoes_printing(worktree_id);
}

/// No two containers that differ in kind, worktree or path have the same id.
pub proof fn encoding_is_injective(
    a: NodeKind,
    a_worktree: u64,
    a_rel: Seq<char>,
    b: NodeKind,
    b_worktree: u64,
    b_rel: Seq<char>,
)
    requires
        encoded(a, a_worktree, a_rel) == encoded(b, b_worktree, b_rel),
    ensures
        a == b,
        a_worktree == b_worktree,
        a_rel == b_rel,
{
    decoding_undoes_encoding(a, a_worktree, a_rel);
    decoding_undoes_encoding(b, b_worktree, b_rel);
    tags_are_distinct(a, b);
}

/// The id of a container.
pub fn encode_id(kind: NodeKind, worktree_id: u64, rel: &str) -> (id: String)
    ensures
        id@ == encoded(kind, worktree_id, rel@),
{
    let mut id = String::new();
    push_text(&mut id, kind.tag());
    id.push('|');
    push_text(&mut id, to_text(print_u64(worktree_id).as_slice()).as_str());
    id.push('|');
    push_text(&mut id, rel);
    assert(id@ == encoded(kind, worktree_id, rel@));
    id
}

/// The tag, worktree and path that a container's id is made of. The ids of leaves may decode
/// too, under a tag that no [`NodeKind`] has.
pub fn decode_id(id: &str) -> (parts: Option<(String, u64, String)>)
    ensures
        match decoded(id@) {
            None => parts is None,
            Some((tag, worktree_id, rel)) => parts matches Some(found) && found.0@ == tag
                && found.1 == worktree_id && found.2@ == rel,
        },
{
    let chars = to_chars(id);
    let end = chars.len();
    let first = find_first(chars.as_slice(), '|');
    if first == end {
        return None;
    }
    let rest = cut(chars.as_slice(), first + 1, end);
    assert(rest@ == id@.skip(first + 1));
    let rest_end = rest.len();
    let second = find_first(rest.as_slice(), '|');
    if second == rest_end {
        return None;
    }
    let number = cut(rest.as_slice(), 0, second);
    assert(number@ == rest@.take(second as int));
    match parse_u64(number.as_slice()) {
        None => None,
        Some(worktree_id) => {
            let tag = cut(chars.as_slice(), 0, first);
            let rel = cut(rest.as_slice(), second + 1, rest_end);
            assert(tag@ == id@.take(first as int));
            assert(rel@ == rest@.skip(second + 1));
            Some((to_text(tag.as_slice()), worktree_id, to_text(rel.as_slice())))
        },
    }
}

/// An id of three parts decodes to them when the second is a number, whatever the first is; the
/// third may hold any number of `|`.
pub proof fn three_parts_decode(tag: Seq<char>, number: Seq<char>, rel: Seq<char>)
    requires
        !tag.contains('|'),
        !number.contains('|'),
    ensures
        decoded(tag.push('|') + (number.push('|') + rel)) == match parsed_u64(number) {
            Some(worktree_id) => Some((tag, worktree_id, rel)),
            None => None,
        },
{
    lemma_split_once_at(tag, '|', number.push('|') + rel);
    lemma_split_once_at(number, '|', rel);
}

/// An id of fewer than three parts does not decode.
pub proof fn fewer_parts_do_not_decode(tag: Seq<char>, rest: Seq<char>)
    requires
        !tag.contains('|'),
        !rest.contains('|'),
    ensures
        decoded(tag) is None,
        decoded(tag.push('|') + rest) is None,
{
    lemma_first_index(tag, '|');
    lemma_first_index(rest, '|');
    lemma_split_once_at(tag, '|', rest);
}

/// An id is written as its tag, its worktree in decimal and its path, with `|` between them.
pub proof fn ids_are_written_with_bars(kind: NodeKind, worktree_id: u64, rel: Seq<char>)
    ensures
        encoded(kind, worktree_id, rel) == join(
            seq![kind.tag_text(), digits(worktree_id as nat), rel],
            '|',
        ),
{
    let number = digits(worktree_id as nat);
    let parts = seq![kind.tag_text(), number, rel];
    assert(parts.drop_last() == seq![kind.tag_text(), number]);
    assert(parts.drop_last().drop_last() == seq![kind.tag_text()]);
    assert(join(parts.drop_last().drop_last(), '|') == kind.tag_text());
    assert(join(parts.drop_last(), '|') == kind.tag_text().push('|') + number);
    assert(join(parts, '|') == (kind.tag_text().push('|') + number).push('|') + rel);
    assert(encoded(kind, worktree_id, rel) =~= join(parts, '|'));
}

}
