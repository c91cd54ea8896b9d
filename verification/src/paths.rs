//! Worktree-relative paths, written with `/` between their directories.

use crate::text::{
    ascii_lower, ascii_lowercase, cut, find_last, first_index, join, join_chars, last_index,
    lemma_first_index, lemma_last_index_is, lemma_split_add, lemma_split_pieces, lemma_split_whole,
    lower_ascii_chars, pieces, same_chars, same_text, split, split_chars, to_chars, to_text,
};
use vstd::prelude::*;
use vstd::slice::slice_subrange;

verus! {

/// The directory that contains the file at `path`: empty for a file at the root.
pub open spec fn parent_of(path: Seq<char>) -> Seq<char> {
    let i = last_index(path, '/');
    if i >= 0 {
        path.take(i)
    } else {
        Seq::empty()
    }
}

/// The last component of `path`.
pub open spec fn file_name_of(path: Seq<char>) -> Seq<char> {
    path.skip(last_index(path, '/') + 1)
}

/// `child` beneath `dir`, where the root is written as the empty path.
pub open spec fn joined(dir: Seq<char>, child: Seq<char>) -> Seq<char> {
    if dir.len() == 0 {
        child
    } else {
        dir.push('/') + child
    }
}

/// Whether what follows the last `.` of `name` is `extension`, in capitals or small letters.
pub open spec fn extension_is(name: Seq<char>, extension: Seq<char>) -> bool {
    let i = last_index(name, '.');
    i >= 0 && ascii_lowercase(name.skip(i + 1)) == ascii_lowercase(extension)
}

/// Directories that hold build output or belong to a tool.
pub open spec fn is_noise(name: Seq<char>) -> bool {
    ||| name == "bin"@
    ||| name == "obj"@
    ||| name == ".vs"@
    ||| name == ".idea"@
    ||| name == "Library"@
    ||| name == "Temp"@
    ||| name == "Logs"@
    ||| name == "node_modules"@
}

/// Directories that are not searched for solution files.
pub open spec fn is_unsearched(name: Seq<char>) -> bool {
    ||| is_noise(name)
    ||| name.len() > 0 && name[0] == '.'
    ||| name == "Assets"@
    ||| name == "Packages"@
    ||| name == "PackageCache"@
    ||| name == "docs"@
}

/// Where one arrives from the directory with the given components by following `parts`: empty
/// parts and `.` stay, `..` goes up, and anything else goes down. `None` when `..` leaves the root.
pub open spec fn followed(components: Seq<Seq<char>>, parts: Seq<Seq<char>>) -> Option<
    Seq<Seq<char>>,
>
    decreases parts.len(),
{
    if parts.len() == 0 {
        Some(components)
    } else {
        let part = parts[0];
        let rest = parts.drop_first();
        if part.len() == 0 || part == "."@ {
            followed(components, rest)
        } else if part == ".."@ {
            if components.len() == 0 {
                None
            } else {
                followed(components.drop_last(), rest)
            }
        } else {
            followed(components.push(part), rest)
        }
    }
}

/// The components of a directory: none for the root.
pub open spec fn components_of(dir: Seq<char>) -> Seq<Seq<char>> {
    if dir.len() == 0 {
        Seq::empty()
    } else {
        split(dir, '/')
    }
}

/// The way from the root to what `reference` means in the directory `base`.
pub open spec fn reference_parts(base: Seq<char>, reference: Seq<char>) -> Seq<Seq<char>> {
    components_of(base) + split(reference, '/')
}

/// The path that `reference`, taken from the directory `base`, leads to; `reference` itself when
/// the way there leads out of the root. A `..` goes up wherever it stands, in the base too.
pub open spec fn reference_target(base: Seq<char>, reference: Seq<char>) -> Seq<char> {
    match followed(Seq::empty(), reference_parts(base, reference)) {
        Some(components) => join(components, '/'),
        None => reference,
    }
}

/// A component that names something: neither empty nor `.` nor `..`.
pub open spec fn is_plain(component: Seq<char>) -> bool {
    component.len() > 0 && component != "."@ && component != ".."@
}

/// Whether all components are plain.
pub open spec fn all_plain(components: Seq<Seq<char>>) -> bool {
    forall|i: int| 0 <= i < components.len() ==> is_plain(#[trigger] components[i])
}

/// The directory containing `file_rel`, as a `/`-separated string (empty string for the root).
pub fn parent_dir(file_rel: &str) -> (dir: String)
    ensures
        dir@ == parent_of(file_rel@),
{
    let chars = to_chars(file_rel);
    match find_last(chars.as_slice(), '/') {
        Some(i) => to_text(slice_subrange(chars.as_slice(), 0, i)),
        None => String::new(),
    }
}

/// The last component of a path.
pub fn file_name(path: &str) -> (name: String)
    ensures
        name@ == file_name_of(path@),
{
    let chars = to_chars(path);
    let end = chars.len();
    match find_last(chars.as_slice(), '/') {
        Some(i) => to_text(slice_subrange(chars.as_slice(), i + 1, end)),
        None => {
            assert(path@.skip(0) == path@);
            to_text(chars.as_slice())
        },
    }
}

/// Joins a `/`-separated directory with a project-relative child path.
pub fn join_rel(dir: &str, child: &str) -> (path: String)
    ensures
        path@ == joined(dir@, child@),
{
    let mut chars = to_chars(dir);
    if chars.len() == 0 {
        return child.to_owned();
    }
    chars.push('/');
    let mut rest = to_chars(child);
    chars.append(&mut rest);
    to_text(chars.as_slice())
}

/// Whether `name` has the given extension, in capitals or small letters.
pub fn has_extension(name: &str, extension: &str) -> (yes: bool)
    ensures
        yes == extension_is(name@, extension@),
{
    let chars = to_chars(name);
    let end = chars.len();
    match find_last(chars.as_slice(), '.') {
        Some(i) => same_chars(
            lower_ascii_chars(slice_subrange(chars.as_slice(), i + 1, end)).as_slice(),
            lower_ascii_chars(to_chars(extension).as_slice()).as_slice(),
        ),
        None => false,
    }
}

/// Build output and tooling directories hidden from a project's source tree.
pub fn is_noise_dir(name: &str) -> (yes: bool)
    ensures
        yes == is_noise(name@),
{
    same_text(name, "bin") || same_text(name, "obj") || same_text(name, ".vs") || same_text(
        name,
        ".idea",
    ) || same_text(name, "Library") || same_text(name, "Temp") || same_text(name, "Logs")
        || same_text(name, "node_modules")
}

/// Directories not worth descending into when searching for solution files (build/tooling noise,
/// large asset/package trees that never hold the main `.sln`, and dotfiles like `.git`).
pub fn is_solution_search_skip_dir(name: &str) -> (yes: bool)
    ensures
        yes == is_unsearched(name@),
{
    let chars = to_chars(name);
    is_noise_dir(name) || (chars.len() > 0 && chars[0] == '.') || same_text(name, "Assets")
        || same_text(name, "Packages") || same_text(name, "PackageCache") || same_text(
        name,
        "docs",
    )
}

/// Follows `parts` from the directory with the given components. Says whether the way stays below
/// the root; only then are the components those of where it leads.
fn follow(components: &mut Vec<Vec<char>>, parts: &Vec<Vec<char>>) -> (stays: bool)
    ensures
        match followed(pieces(old(components)@), pieces(parts@)) {
            Some(end) => stays && pieces(final(components)@) == end,
            None => !stays,
        },
{
    let dot = to_chars(".");
    let dots = to_chars("..");
    let ghost all = pieces(parts@);
    let ghost start = pieces(components@);
    proof {
        assert(all.skip(0) == all);
    }
    for i in 0..parts.len()
        invariant
            all == pieces(parts@),
            dot@ == "."@,
            dots@ == ".."@,
            followed(pieces(components@), all.skip(i as int)) == followed(start, all),
            start == pieces(old(components)@),
    {
        let part = &parts[i];
        let ghost before = components@;
        proof {
            assert(all.skip(i as int)[0] == part@);
            assert(all.skip(i as int).drop_first() == all.skip(i + 1));
        }
        if part.len() == 0 || same_chars(part.as_slice(), dot.as_slice()) {
        } else if same_chars(part.as_slice(), dots.as_slice()) {
            if components.pop().is_none() {
                return false;
            }
            assert(pieces(components@) == pieces(before).drop_last());
        } else {
            components.push(cut(part.as_slice(), 0, part.len()));
            assert(part@.subrange(0, part@.len() as int) == part@);
            assert(pieces(components@) == pieces(before).push(part@));
        }
    }
    true
}

/// Resolves a `..`-relative `ProjectReference` path against the referencing project's directory,
/// producing a worktree-relative path. Falls back to the raw reference if it escapes the root.
/// The directory may hold `..` itself, as that of a project beside its solution does.
pub fn normalize_project_reference(base_dir: &str, reference: &str) -> (target: String)
    ensures
        target@ == reference_target(base_dir@, reference@),
{
    let base = to_chars(base_dir);
    let base_parts: Vec<Vec<char>> = if base.len() == 0 {
        Vec::new()
    } else {
        split_chars(base.as_slice(), '/')
    };
    let parts = split_chars(to_chars(reference).as_slice(), '/');
    let mut components: Vec<Vec<char>> = Vec::new();
    proof {
        assert(pieces(base_parts@) == components_of(base_dir@));
        assert(pieces(components@) == Seq::<Seq<char>>::empty());
        lemma_followed_on(Seq::empty(), components_of(base_dir@), split(reference@, '/'));
    }
    if !follow(&mut components, &base_parts) || !follow(&mut components, &parts) {
        return reference.to_owned();
    }
    to_text(join_chars(&components, '/').as_slice())
}

// ---------------------------------------------------------------------------------------------
// Laws
// ---------------------------------------------------------------------------------------------

/// A file joined to a directory has that directory as its parent, and its own name as file name.
pub proof fn joining_gives_the_parent(dir: Seq<char>, name: Seq<char>)
    requires
        !name.contains('/'),
    ensures
        parent_of(joined(dir, name)) == dir,
        file_name_of(joined(dir, name)) == name,
{
    let path = joined(dir, name);
    if dir.len() == 0 {
        lemma_last_index_is(path, '/', -1);
        assert(path.skip(0) == name);
    } else {
        let i = dir.len() as int;
        assert forall|j: int| i < j < path.len() implies path[j] != '/' by {
            assert(path[j] == name[j - i - 1]);
        }
        lemma_last_index_is(path, '/', i);
        assert(path.take(i) == dir);
        assert(path.skip(i + 1) == name);
    }
}

/// Pieces strung together come apart again.
pub proof fn lemma_split_join(components: Seq<Seq<char>>, c: char)
    requires
        components.len() > 0,
        forall|i: int| 0 <= i < components.len() ==> !(#[trigger] components[i]).contains(c),
    ensures
        split(join(components, c), c) == components,
    decreases components.len(),
{
    let last = components.last();
    assert(last == components[components.len() - 1]);
    lemma_split_whole(last, c);
    if components.len() == 1 {
        assert(seq![last] == components);
    } else {
        let rest = components.drop_last();
        assert forall|i: int| 0 <= i < rest.len() implies !(#[trigger] rest[i]).contains(c) by {
            assert(rest[i] == components[i]);
        }
        lemma_split_join(rest, c);
        lemma_split_add(join(rest, c), c, last);
        assert(rest + seq![last] == components);
    }
}

/// Whether no component holds a `/`.
spec fn all_single(components: Seq<Seq<char>>) -> bool {
    forall|i: int| 0 <= i < components.len() ==> !(#[trigger] components[i]).contains('/')
}

/// Two runs of parts are followed one after the other.
pub proof fn lemma_followed_on(
    components: Seq<Seq<char>>,
    first: Seq<Seq<char>>,
    second: Seq<Seq<char>>,
)
    ensures
        followed(components, first + second) == match followed(components, first) {
            Some(middle) => followed(middle, second),
            None => None,
        },
    decreases first.len(),
{
    if first.len() == 0 {
        assert(first + second == second);
    } else {
        let part = first[0];
        let rest = first.drop_first();
        assert((first + second)[0] == part);
        assert((first + second).drop_first() == rest + second);
        if part.len() == 0 || part == "."@ {
            lemma_followed_on(components, rest, second);
        } else if part == ".."@ {
            if components.len() > 0 {
                lemma_followed_on(components.drop_last(), rest, second);
            }
        } else {
            lemma_followed_on(components.push(part), rest, second);
        }
    }
}

/// Following parts from plain components leads to plain components.
proof fn lemma_followed_is_plain(components: Seq<Seq<char>>, parts: Seq<Seq<char>>)
    requires
        all_plain(components),
        all_single(components),
        all_single(parts),
    ensures
        followed(components, parts) matches Some(end) ==> all_plain(end) && all_single(end),
    decreases parts.len(),
{
    if parts.len() > 0 {
        let part = parts[0];
        let rest = parts.drop_first();
        assert(all_single(rest)) by {
            assert forall|i: int| 0 <= i < rest.len() implies !(#[trigger] rest[i]).contains(
                '/',
            ) by {
                assert(rest[i] == parts[i + 1]);
            }
        }
        if part.len() == 0 || part == "."@ {
            lemma_followed_is_plain(components, rest);
        } else if part == ".."@ {
            if components.len() > 0 {
                lemma_followed_is_plain(components.drop_last(), rest);
            }
        } else {
            lemma_followed_is_plain(components.push(part), rest);
        }
    }
}

/// No part of the way to a reference holds a `/`.
proof fn lemma_reference_parts(base: Seq<char>, reference: Seq<char>)
    ensures
        all_single(reference_parts(base, reference)),
{
    lemma_split_pieces(base, '/');
    lemma_split_pieces(reference, '/');
}

/// A reference that stays inside the root resolves to a plain path: none of its components is
/// empty, `.` or `..`, whatever the base holds. (The root itself is the empty path.)
pub proof fn resolved_references_are_plain(base: Seq<char>, reference: Seq<char>)
    requires
        !climbs_out(0, reference_parts(base, reference)),
    ensures
        all_plain(components_of(reference_target(base, reference))),
{
    let parts = reference_parts(base, reference);
    lemma_reference_parts(base, reference);
    lemma_climbs_out(Seq::empty(), parts);
    lemma_followed_is_plain(Seq::empty(), parts);
    let end = followed(Seq::empty(), parts)->0;
    if end.len() > 0 {
        lemma_split_join(end, '/');
    }
}

/// Plain parts are followed downwards, one after the other.
proof fn lemma_followed_down(components: Seq<Seq<char>>, parts: Seq<Seq<char>>)
    requires
        all_plain(parts),
    ensures
        followed(components, parts) == Some(components + parts),
    decreases parts.len(),
{
    if parts.len() > 0 {
        let rest = parts.drop_first();
        assert(is_plain(parts[0]));
        assert forall|i: int| 0 <= i < rest.len() implies is_plain(#[trigger] rest[i]) by {
            assert(rest[i] == parts[i + 1]);
        }
        lemma_followed_down(components.push(parts[0]), rest);
        assert(components.push(parts[0]) + rest == components + parts);
    } else {
        assert(components + parts == components);
    }
}

/// Stringing the pieces of a text together gives the text.
pub proof fn lemma_join_split(s: Seq<char>, c: char)
    ensures
        join(split(s, c), c) == s,
    decreases s.len(),
{
    lemma_first_index(s, c);
    let i = first_index(s, c) as int;
    if i < s.len() {
        let rest = s.skip(i + 1);
        lemma_join_split(rest, c);
        lemma_split_pieces(rest, c);
        lemma_join_add(seq![s.take(i)], split(rest, c), c);
        assert(s == s.take(i).push(c) + rest);
    }
}

/// Two runs of pieces strung together are joined by one more separator.
pub proof fn lemma_join_add(front: Seq<Seq<char>>, back: Seq<Seq<char>>, c: char)
    requires
        front.len() > 0,
        back.len() > 0,
    ensures
        join(front + back, c) == join(front, c).push(c) + join(back, c),
    decreases back.len(),
{
    assert((front + back).drop_last() == front + back.drop_last());
    if back.len() == 1 {
        assert(front + back.drop_last() == front);
    } else {
        lemma_join_add(front, back.drop_last(), c);
        assert(join(front + back, c) == join(front, c).push(c) + join(back, c));
    }
}

/// A reference of plain components leads straight down from a plain directory that it is taken
/// from.
pub proof fn plain_references_go_down(base: Seq<char>, reference: Seq<char>)
    requires
        all_plain(components_of(base)),
        all_plain(split(reference, '/')),
    ensures
        reference_target(base, reference) == joined(base, reference),
{
    let parts = reference_parts(base, reference);
    lemma_split_pieces(base, '/');
    lemma_split_pieces(reference, '/');
    lemma_followed_down(Seq::empty(), parts);
    assert(Seq::<Seq<char>>::empty() + parts == parts);
    lemma_join_split(base, '/');
    lemma_join_split(reference, '/');
    if base.len() > 0 {
        lemma_join_add(split(base, '/'), split(reference, '/'), '/');
    } else {
        assert(parts == split(reference, '/'));
    }
}

/// The directory that `base` stands for, with every `.` and `..` followed.
pub open spec fn plain_base(base: Seq<char>) -> Seq<char> {
    match followed(Seq::empty(), components_of(base)) {
        Some(components) => join(components, '/'),
        None => base,
    }
}

/// A base that stays inside the root may be written with or without `.` and `..`: references lead
/// to the same place from it as from the plain directory that it stands for.
pub proof fn bases_may_be_written_with_dots(base: Seq<char>, reference: Seq<char>)
    requires
        !climbs_out(0, components_of(base)),
    ensures
        all_plain(components_of(plain_base(base))),
        reference_target(base, reference) == reference_target(plain_base(base), reference),
{
    let parts = split(reference, '/');
    lemma_split_pieces(base, '/');
    lemma_climbs_out(Seq::empty(), components_of(base));
    lemma_followed_is_plain(Seq::empty(), components_of(base));
    let end = followed(Seq::empty(), components_of(base))->0;
    if end.len() > 0 {
        lemma_split_join(end, '/');
        lemma_joined_is_not_empty(end);
    }
    assert(components_of(plain_base(base)) == end);
    lemma_followed_down(Seq::empty(), end);
    assert(Seq::<Seq<char>>::empty() + end == end);
    lemma_followed_on(Seq::empty(), components_of(base), parts);
    lemma_followed_on(Seq::empty(), end, parts);
}

/// Plain components strung together are not nothing.
proof fn lemma_joined_is_not_empty(components: Seq<Seq<char>>)
    requires
        components.len() > 0,
        all_plain(components),
    ensures
        join(components, '/').len() > 0,
{
    assert(is_plain(components[0]));
}

/// How many levels down following `parts` leads, counting those up as negative.
pub open spec fn descent(parts: Seq<Seq<char>>) -> int
    decreases parts.len(),
{
    if parts.len() == 0 {
        0
    } else {
        descent(parts.drop_first()) + (if parts[0].len() == 0 || parts[0] == "."@ {
            0int
        } else if parts[0] == ".."@ {
            -1
        } else {
            1
        })
    }
}

/// Whether following `parts` from a directory `depth` levels below the root leads above the root
/// on the way.
pub open spec fn climbs_out(depth: nat, parts: Seq<Seq<char>>) -> bool {
    exists|k: int| 0 <= k <= parts.len() && depth + descent(#[trigger] parts.take(k)) < 0
}

proof fn lemma_climbs_out(components: Seq<Seq<char>>, parts: Seq<Seq<char>>)
    ensures
        followed(components, parts) is None <==> climbs_out(components.len(), parts),
    decreases parts.len(),
{
    if parts.len() == 0 {
        assert forall|k: int| 0 <= k <= parts.len() implies descent(#[trigger] parts.take(k))
            == 0 by {}
    } else {
        let part = parts[0];
        let rest = parts.drop_first();
        let step: int = descent(parts) - descent(rest);
        assert forall|k: int| 0 < k <= parts.len() implies descent(#[trigger] parts.take(k)) == step
            + descent(rest.take(k - 1)) by {
            assert(parts.take(k).drop_first() == rest.take(k - 1));
        }
        assert(parts.take(0).len() == 0);
        if part != ".."@ || part.len() == 0 || part == "."@ || components.len() > 0 {
            let next = if part.len() == 0 || part == "."@ {
                components
            } else if part == ".."@ {
                components.drop_last()
            } else {
                components.push(part)
            };
            lemma_climbs_out(next, rest);
            assert(next.len() == components.len() + step);
            if climbs_out(next.len(), rest) {
                let k = choose|k: int|
                    0 <= k <= rest.len() && next.len() + descent(#[trigger] rest.take(k)) < 0;
                assert(components.len() + descent(parts.take(k + 1)) < 0);
            }
            if climbs_out(components.len(), parts) {
                let k = choose|k: int|
                    0 <= k <= parts.len() && components.len() + descent(#[trigger] parts.take(k))
                        < 0;
                assert(next.len() + descent(rest.take(k - 1)) < 0);
            }
        } else {
            assert(rest.take(0).len() == 0);
            assert(components.len() + descent(parts.take(1)) < 0);
        }
    }
}

/// A reference is left as it is when the way to it climbs above the root, be it in the base or in
/// the reference, and even if it comes down again.
pub proof fn escaping_references_stay(base: Seq<char>, reference: Seq<char>)
    requires
        climbs_out(0, reference_parts(base, reference)),
    ensures
        reference_target(base, reference) == reference,
{
    lemma_climbs_out(Seq::empty(), reference_parts(base, reference));
}

/// Every directory hidden from a source tree is also passed over in the search for solutions.
pub proof fn noise_is_never_searched(name: Seq<char>)
    requires
        is_noise(name),
    ensures
        is_unsearched(name),
{
}

/// A `..` takes back the last step, and there is nothing above the root; an empty part and `.` stay
/// where they are; any other part goes one step down.
pub proof fn each_part_is_one_step(components: Seq<Seq<char>>, name: Seq<char>)
    requires
        name.len() > 0,
        name != "."@,
        name != ".."@,
    ensures
        followed(components, Seq::empty()) == Some(components),
        followed(components, seq![name]) == Some(components.push(name)),
        followed(components.push(name), seq![".."@]) == Some(components),
        followed(Seq::empty(), seq![".."@]) is None,
        followed(components, seq!["."@]) == Some(components),
        followed(components, seq![Seq::empty()]) == Some(components),
{
    reveal_strlit(".");
    reveal_strlit("..");
    let none = Seq::<Seq<char>>::empty();
    assert(".."@.len() == 2 && "."@.len() == 1);
    assert(seq![name][0] == name);
    assert(seq![name].drop_first() == none);
    assert(followed(components.push(name), none) == Some(components.push(name)));
    assert(seq![".."@].drop_first() == none);
    assert(seq!["."@].drop_first() == none);
    assert(seq![Seq::<char>::empty()].drop_first() == none);
    assert(components.push(name).drop_last() == components);
}

/// The components of a joined path are those of the directory followed by those of the child.
pub proof fn joining_strings_the_components_together(dir: Seq<char>, child: Seq<char>)
    ensures
        split(joined(dir, child), '/') == components_of(dir) + split(child, '/'),
        dir.len() == 0 ==> joined(dir, child) == child,
{
    if dir.len() == 0 {
        assert(components_of(dir) + split(child, '/') == split(child, '/'));
    } else {
        lemma_split_add(dir, '/', child);
    }
}

/// Whether a part of a path names something.
spec fn is_name(name: Seq<char>) -> bool {
    name.len() > 0 && name != "."@ && name != ".."@ && !name.contains('/')
}

proof fn lemma_components_of_joined(dir: Seq<char>, name: Seq<char>)
    requires
        is_name(name),
    ensures
        joined(dir, name).len() > 0,
        components_of(joined(dir, name)) == components_of(dir).push(name),
{
    joining_strings_the_components_together(dir, name);
    lemma_split_whole(name, '/');
    assert(components_of(dir) + seq![name] == components_of(dir).push(name));
}

proof fn lemma_split_first(part: Seq<char>, rest: Seq<char>)
    requires
        !part.contains('/'),
    ensures
        split(part.push('/') + rest, '/') == seq![part] + split(rest, '/'),
{
    lemma_split_add(part, '/', rest);
    lemma_split_whole(part, '/');
}

/// A `..` at the start of a reference takes back the last directory of the base: the reference
/// leads where the rest of it leads from the directory above. One that leaves the root is left as
/// it is.
pub proof fn going_up_takes_back_the_last_directory(
    dir: Seq<char>,
    name: Seq<char>,
    rest: Seq<char>,
)
    requires
        name.len() > 0,
        name != "."@,
        name != ".."@,
        !name.contains('/'),
    ensures
        ({
            let up = ".."@.push('/') + rest;
            reference_target(joined(dir, name), up) == (if climbs_out(
                0,
                reference_parts(dir, rest),
            ) {
                up
            } else {
                reference_target(dir, rest)
            })
        }),
{
    reveal_strlit("..");
    let up = ".."@.push('/') + rest;
    let none = Seq::<Seq<char>>::empty();
    let base = components_of(dir);
    let parts = split(rest, '/');
    lemma_components_of_joined(dir, name);
    lemma_split_first(".."@, rest);
    let detour = seq![name, ".."@];
    assert(reference_parts(joined(dir, name), up) == base + (detour + parts));
    lemma_followed_on(none, base, detour + parts);
    lemma_followed_on(none, base, parts);
    assert(reference_parts(dir, rest) == base + parts);
    lemma_climbs_out(none, base + parts);
    if let Some(middle) = followed(none, base) {
        each_part_is_one_step(middle, name);
        assert(detour == seq![name] + seq![".."@]);
        lemma_followed_on(middle, seq![name], seq![".."@]);
        lemma_followed_on(middle, detour, parts);
    }
}

/// A name at the start of a reference goes down into that directory: the reference leads where the
/// rest of it leads from there. One that leaves the root is left as it is.
pub proof fn going_down_enters_the_directory(dir: Seq<char>, name: Seq<char>, rest: Seq<char>)
    requires
        name.len() > 0,
        name != "."@,
        name != ".."@,
        !name.contains('/'),
    ensures
        ({
            let down = name.push('/') + rest;
            reference_target(dir, down) == (if climbs_out(
                0,
                reference_parts(joined(dir, name), rest),
            ) {
                down
            } else {
                reference_target(joined(dir, name), rest)
            })
        }),
{
    let down = name.push('/') + rest;
    lemma_components_of_joined(dir, name);
    lemma_split_first(name, rest);
    assert(reference_parts(dir, down) == reference_parts(joined(dir, name), rest));
    lemma_climbs_out(Seq::empty(), reference_parts(dir, down));
}

/// A `.` or an empty part at the start of a reference makes no difference to where it leads.
pub proof fn dots_make_no_difference(dir: Seq<char>, rest: Seq<char>)
    requires
        !climbs_out(0, reference_parts(dir, rest)),
    ensures
        reference_target(dir, "."@.push('/') + rest) == reference_target(dir, rest),
        reference_target(dir, seq!['/'] + rest) == reference_target(dir, rest),
{
    reveal_strlit(".");
    let none = Seq::<Seq<char>>::empty();
    let nothing = Seq::<char>::empty();
    let base = components_of(dir);
    let parts = split(rest, '/');
    lemma_split_first("."@, rest);
    lemma_split_first(nothing, rest);
    assert(nothing.push('/') + rest == seq!['/'] + rest);
    lemma_climbs_out(none, base + parts);
    lemma_followed_on(none, base, parts);
    lemma_followed_on(none, base, seq!["."@] + parts);
    lemma_followed_on(none, base, seq![nothing] + parts);
    let middle = followed(none, base)->0;
    reveal_strlit("..");
    assert(seq!['x'].len() == 1 && ".."@.len() == 2 && seq!['x'][0] != "."@[0]);
    each_part_is_one_step(middle, seq!['x']);
    lemma_followed_on(middle, seq!["."@], parts);
    lemma_followed_on(middle, seq![nothing], parts);
}

/// A reference of the form `../neighbour` leads to what lies beside the base's last directory.
pub proof fn references_reach_neighbours(dir: Seq<char>, name: Seq<char>, neighbour: Seq<char>)
    requires
        all_plain(components_of(dir)),
        all_plain(split(neighbour, '/')),
        name.len() > 0,
        name != "."@,
        name != ".."@,
        !name.contains('/'),
    ensures
        reference_target(joined(dir, name), ".."@.push('/') + neighbour) == joined(dir, neighbour),
{
    let none = Seq::<Seq<char>>::empty();
    let parts = reference_parts(dir, neighbour);
    going_up_takes_back_the_last_directory(dir, name, neighbour);
    plain_references_go_down(dir, neighbour);
    assert(all_plain(parts));
    lemma_followed_down(none, parts);
    lemma_climbs_out(none, parts);
}

/// A name's extension is what follows its last `.`, compared without regard to ASCII case; a name
/// without a `.` has none.
pub proof fn extensions_follow_the_last_dot(
    stem: Seq<char>,
    written: Seq<char>,
    extension: Seq<char>,
)
    requires
        !written.contains('.'),
    ensures
        extension_is(stem.push('.') + written, extension) <==> written.len() == extension.len()
            && forall|i: int|
            0 <= i < written.len() ==> ascii_lower(#[trigger] written[i]) == ascii_lower(
                extension[i],
            ),
        !extension_is(written, extension),
{
    let name = stem.push('.') + written;
    let i = stem.len() as int;
    assert forall|j: int| i < j < name.len() implies name[j] != '.' by {
        assert(name[j] == written[j - i - 1]);
    }
    lemma_last_index_is(name, '.', i);
    lemma_last_index_is(written, '.', -1);
    assert(name.skip(i + 1) == written);
    let a = ascii_lowercase(written);
    let b = ascii_lowercase(extension);
    assert(a.len() == written.len() && b.len() == extension.len());
    assert forall|k: int| 0 <= k < written.len() implies a[k] == ascii_lower(
        #[trigger] written[k],
    ) by {}
    assert forall|k: int| 0 <= k < extension.len() implies b[k] == ascii_lower(
        #[trigger] extension[k],
    ) by {}
    if a == b {
        assert forall|k: int| 0 <= k < written.len() implies ascii_lower(#[trigger] written[k])
            == ascii_lower(extension[k]) by {
            assert(a[k] == b[k]);
        }
    }
    if written.len() == extension.len() && (forall|k: int|
        0 <= k < written.len() ==> ascii_lower(#[trigger] written[k]) == ascii_lower(
            extension[k],
        )) {
        assert(a =~= b);
    }
}

/// The directories that are hidden are these eight, and the search passes over four more and over
/// every dotfile; each by its exact name.
pub proof fn directories_are_passed_over_by_name(name: Seq<char>)
    ensures
        is_noise(name) <==> seq![
            "bin"@,
            "obj"@,
            ".vs"@,
            ".idea"@,
            "Library"@,
            "Temp"@,
            "Logs"@,
            "node_modules"@,
        ].contains(name),
        is_unsearched(name) <==> is_noise(name) || seq![
            "Assets"@,
            "Packages"@,
            "PackageCache"@,
            "docs"@,
        ].contains(name) || exists|rest: Seq<char>| name == #[trigger] (seq!['.'] + rest),
{
    let noise = seq![
        "bin"@,
        "obj"@,
        ".vs"@,
        ".idea"@,
        "Library"@,
        "Temp"@,
        "Logs"@,
        "node_modules"@,
    ];
    assert(noise[0] == "bin"@ && noise[1] == "obj"@ && noise[2] == ".vs"@ && noise[3] == ".idea"@);
    assert(noise[4] == "Library"@ && noise[5] == "Temp"@ && noise[6] == "Logs"@ && noise[7]
        == "node_modules"@);
    let trees = seq!["Assets"@, "Packages"@, "PackageCache"@, "docs"@];
    assert(trees[0] == "Assets"@ && trees[1] == "Packages"@ && trees[2] == "PackageCache"@
        && trees[3] == "docs"@);
    if name.len() > 0 && name[0] == '.' {
        assert(name == seq!['.'] + name.skip(1));
    }
}

/// A path that ends in a `/` and a name has what stands before as its directory, even if that is
/// nothing; a path without a `/` lies at the root.
pub proof fn the_last_slash_parts_directory_and_name(dir: Seq<char>, name: Seq<char>)
    requires
        !name.contains('/'),
    ensures
        parent_of(dir.push('/') + name) == dir,
        file_name_of(dir.push('/') + name) == name,
        parent_of(name).len() == 0,
        file_name_of(name) == name,
{
    let path = dir.push('/') + name;
    let i = dir.len() as int;
    assert forall|j: int| i < j < path.len() implies path[j] != '/' by {
        assert(path[j] == name[j - i - 1]);
    }
    lemma_last_index_is(path, '/', i);
    assert(path.take(i) == dir);
    assert(path.skip(i + 1) == name);
    lemma_last_index_is(name, '/', -1);
    assert(name.skip(0) == name);
}

/// The empty reference leads to the base itself, and `..` to the directory above it.
pub proof fn short_references_lead_to_directories(dir: Seq<char>, name: Seq<char>)
    requires
        all_plain(components_of(dir)),
        name.len() > 0,
        name != "."@,
        name != ".."@,
        !name.contains('/'),
    ensures
        reference_target(dir, Seq::empty()) == dir,
        reference_target(joined(dir, name), ".."@) == dir,
{
    let none = Seq::<Seq<char>>::empty();
    let nothing = Seq::<char>::empty();
    let base = components_of(dir);
    reveal_strlit("..");
    lemma_split_whole(nothing, '/');
    lemma_split_whole(".."@, '/');
    lemma_components_of_joined(dir, name);
    lemma_followed_down(none, base);
    assert(none + base == base);
    each_part_is_one_step(base, name);
    lemma_followed_on(none, base, seq![nothing]);
    lemma_followed_on(none, base, seq![name]);
    assert(base + seq![name] == base.push(name));
    lemma_followed_on(none, base.push(name), seq![".."@]);
    lemma_join_split(dir, '/');
    if dir.len() == 0 {
        assert(join(base, '/') == dir);
    }
}

}
