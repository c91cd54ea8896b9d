//! The virtual tree of a legacy project. Such a project lists every file it compiles, and its tree
//! is built from those paths rather than from a directory.

use crate::node_id::{encode_id, encoded, NodeKind};
use crate::nodes::{container, encode_owned_id, leaf, located, owned_id};
use crate::order::{
    insertion_point, keyed_views, lemma_insertion_point, lemma_sorted_contains, precedes,
    sort_by_key, sorted_by_key, sorting_is_stable, sorting_keeps_the_values, sorting_sorts, values,
    with_key, Keyed,
};
use crate::paths::{
    join_rel, joined, normalize_project_reference, parent_dir, parent_of, reference_target,
};
use crate::provider::{node_views, NodeView, ProjectPanelViewNode, ProjectPath, ProjectPathView};
use crate::text::{
    after_prefix, find_first, lemma_first_index, lemma_present_add, lemma_present_contains,
    lemma_present_push, lemma_split_once_at, lowercase, prefixes_are_followed_by_the_rest, present,
    push_text, same_text, split_once, strip_prefix, texts, to_chars, to_lowercase, to_text,
};
use crate::worktree::pair_views;
use vstd::prelude::*;
use vstd::slice::slice_subrange;

verus! {

// ---------------------------------------------------------------------------------------------
// Specifications
// ---------------------------------------------------------------------------------------------

/// The rest of an item's path below the directory `prefix`; `None` when it is not below it. Every
/// item is below the project's own directory, the empty prefix.
pub open spec fn remainder(item: Seq<char>, prefix: Seq<char>) -> Option<Seq<char>> {
    if prefix.len() == 0 {
        Some(item)
    } else {
        match strip_prefix(item, prefix) {
            Some(rest) => strip_prefix(rest, seq!['/']),
            None => None,
        }
    }
}

/// The directory directly below `prefix` that an item is in, if it is in one.
pub open spec fn item_directory(item: Seq<char>, prefix: Seq<char>) -> Option<Seq<char>> {
    match remainder(item, prefix) {
        Some(rest) => match split_once(rest, '/') {
            Some((head, _)) => Some(head),
            None => None,
        },
        None => None,
    }
}

/// The name and path of an item that is a file directly below `prefix`.
pub open spec fn item_file(item: Seq<char>, prefix: Seq<char>) -> Option<(Seq<char>, Seq<char>)> {
    match remainder(item, prefix) {
        Some(rest) => if rest.len() > 0 && split_once(rest, '/') is None {
            Some((rest, item))
        } else {
            None
        },
        None => None,
    }
}

/// The directories of the items, item by item.
pub open spec fn each_item_directory(items: Seq<Seq<char>>, prefix: Seq<char>) -> Seq<
    Option<Seq<char>>,
> {
    Seq::new(items.len(), |i: int| item_directory(items[i], prefix))
}

/// The files among the items, item by item.
pub open spec fn each_item_file(items: Seq<Seq<char>>, prefix: Seq<char>) -> Seq<
    Option<(Seq<char>, Seq<char>)>,
> {
    Seq::new(items.len(), |i: int| item_file(items[i], prefix))
}

/// The elements of `s` without those that occurred before.
pub open spec fn first_occurrences<A>(s: Seq<A>) -> Seq<A>
    decreases s.len(),
{
    if s.len() == 0 {
        s
    } else {
        let before = first_occurrences(s.drop_last());
        if before.contains(s.last()) {
            before
        } else {
            before.push(s.last())
        }
    }
}

/// The names of the directories directly below `prefix`, each once.
pub open spec fn directories_below(items: Seq<Seq<char>>, prefix: Seq<char>) -> Seq<Seq<char>> {
    first_occurrences(present(each_item_directory(items, prefix)))
}

/// The names and paths of the files directly below `prefix`.
pub open spec fn files_below(items: Seq<Seq<char>>, prefix: Seq<char>) -> Seq<
    (Seq<char>, Seq<char>),
> {
    present(each_item_file(items, prefix))
}

/// Names with their lower-case forms as keys.
pub open spec fn keyed_names(names: Seq<Seq<char>>) -> Seq<(Seq<char>, Seq<char>)> {
    Seq::new(names.len(), |i: int| (lowercase(names[i]), names[i]))
}

/// Names in case-insensitive order.
pub open spec fn ordered_names(names: Seq<Seq<char>>) -> Seq<Seq<char>> {
    values(sorted_by_key(keyed_names(names)))
}

/// Files with the lower-case forms of their names as keys.
pub open spec fn keyed_files(files: Seq<(Seq<char>, Seq<char>)>) -> Seq<
    (Seq<char>, (Seq<char>, Seq<char>)),
> {
    Seq::new(files.len(), |i: int| (lowercase(files[i].0), files[i]))
}

/// Files in the case-insensitive order of their names.
pub open spec fn ordered_files(files: Seq<(Seq<char>, Seq<char>)>) -> Seq<
    (Seq<char>, Seq<char>),
> {
    values(sorted_by_key(keyed_files(files)))
}

/// What the id of a virtual directory holds beside its kind and worktree.
pub open spec fn item_directory_rel(csproj_rel: Seq<char>, subdir: Seq<char>) -> Seq<char> {
    csproj_rel.push('|') + subdir
}

/// The node of a virtual directory.
pub open spec fn item_directory_node(
    worktree_id: u64,
    csproj_rel: Seq<char>,
    prefix: Seq<char>,
    name: Seq<char>,
) -> NodeView {
    NodeView {
        id: encoded(
            NodeKind::ItemDirectory,
            worktree_id,
            item_directory_rel(csproj_rel, joined(prefix, name)),
        ),
        title: name,
        icon: None,
        is_container: true,
        project_path: None,
    }
}

/// The node of a file that a project lists.
pub open spec fn item_file_node(
    worktree_id: u64,
    csproj_rel: Seq<char>,
    file: (Seq<char>, Seq<char>),
) -> NodeView {
    NodeView {
        id: owned_id("item"@, csproj_rel, file.1),
        title: file.0,
        icon: None,
        is_container: false,
        project_path: located(worktree_id, reference_target(parent_of(csproj_rel), file.1)),
    }
}

/// The nodes of the given directories.
pub open spec fn item_directory_nodes(
    worktree_id: u64,
    csproj_rel: Seq<char>,
    prefix: Seq<char>,
    names: Seq<Seq<char>>,
) -> Seq<NodeView> {
    Seq::new(
        names.len(),
        |i: int| item_directory_node(worktree_id, csproj_rel, prefix, names[i]),
    )
}

/// The nodes of the given files.
pub open spec fn item_file_nodes(
    worktree_id: u64,
    csproj_rel: Seq<char>,
    files: Seq<(Seq<char>, Seq<char>)>,
) -> Seq<NodeView> {
    Seq::new(files.len(), |i: int| item_file_node(worktree_id, csproj_rel, files[i]))
}

/// One level of a legacy project's virtual tree: the directories directly below `prefix`, then
/// the files, each in case-insensitive order.
pub open spec fn item_level(
    worktree_id: u64,
    csproj_rel: Seq<char>,
    items: Seq<Seq<char>>,
    prefix: Seq<char>,
) -> Seq<NodeView> {
    item_directory_nodes(
        worktree_id,
        csproj_rel,
        prefix,
        ordered_names(directories_below(items, prefix)),
    ) + item_file_nodes(worktree_id, csproj_rel, ordered_files(files_below(items, prefix)))
}

// ---------------------------------------------------------------------------------------------
// Sorting items into directories and files
// ---------------------------------------------------------------------------------------------

/// The rest of an item's path below the directory `prefix`.
fn below_prefix<'a>(item: &'a [char], prefix: &[char]) -> (rest: Option<&'a [char]>)
    ensures
        match remainder(item@, prefix@) {
            Some(view) => rest matches Some(rest) && rest@ == view,
            None => rest is None,
        },
{
    if prefix.len() == 0 {
        return Some(item);
    }
    match after_prefix(item, prefix) {
        Some(rest) => {
            let slash: Vec<char> = vec!['/'];
            assert(slash@ == seq!['/']);
            after_prefix(rest, slash.as_slice())
        },
        None => None,
    }
}

/// Whether `name` is among `names`.
fn is_among(names: &Vec<String>, name: &str) -> (yes: bool)
    ensures
        yes == texts(names@).contains(name@),
{
    for i in 0..names.len()
        invariant
            forall|j: int| 0 <= j < i ==> (#[trigger] texts(names@)[j]) != name@,
    {
        if same_text(names[i].as_str(), name) {
            assert(texts(names@)[i as int] == name@);
            return true;
        }
    }
    false
}

/// Sorts the items below `prefix` into the directories they are in and the files they are. A
/// file comes as its name and the path it is listed under.
pub fn collect_items(items: &Vec<String>, prefix: &str) -> (level: (
    Vec<String>,
    Vec<(String, String)>,
))
    ensures
        texts(level.0@) == directories_below(texts(items@), prefix@),
        pair_views(level.1@) == files_below(texts(items@), prefix@),
{
    let mut directories: Vec<String> = Vec::new();
    let mut files: Vec<(String, String)> = Vec::new();
    let prefix_chars = to_chars(prefix);
    let ghost paths = texts(items@);
    let ghost dirs_each = each_item_directory(paths, prefix@);
    let ghost files_each = each_item_file(paths, prefix@);
    proof {
        assert(texts(directories@) == first_occurrences(present(dirs_each.take(0))));
        assert(pair_views(files@) == present(files_each.take(0)));
    }
    for i in 0..items.len()
        invariant
            paths == texts(items@),
            dirs_each == each_item_directory(paths, prefix@),
            files_each == each_item_file(paths, prefix@),
            prefix_chars@ == prefix@,
            texts(directories@) == first_occurrences(present(dirs_each.take(i as int))),
            pair_views(files@) == present(files_each.take(i as int)),
    {
        let item = &items[i];
        let chars = to_chars(item.as_str());
        let ghost names = texts(directories@);
        let ghost pairs = pair_views(files@);
        let ghost seen = present(dirs_each.take(i as int));
        proof {
            assert(paths[i as int] == item@);
            assert(dirs_each.take(i + 1) == dirs_each.take(i as int).push(dirs_each[i as int]));
            assert(files_each.take(i + 1) == files_each.take(i as int).push(files_each[i as int]));
            lemma_present_push(dirs_each.take(i as int), dirs_each[i as int]);
            lemma_present_push(files_each.take(i as int), files_each[i as int]);
        }
        if let Some(rest) = below_prefix(chars.as_slice(), prefix_chars.as_slice()) {
            let slash = find_first(rest, '/');
            if slash < rest.len() {
                let head = to_text(slice_subrange(rest, 0, slash));
                proof {
                    assert(head@ == rest@.take(slash as int));
                    assert(seen.push(head@).drop_last() == seen);
                }
                if !is_among(&directories, head.as_str()) {
                    let ghost view = head@;
                    directories.push(head);
                    assert(texts(directories@) == names.push(view));
                }
            } else if rest.len() > 0 {
                let name = to_text(rest);
                let ghost view = (name@, item@);
                files.push((name, item.clone()));
                assert(pair_views(files@) == pairs.push(view));
            }
        }
    }
    proof {
        assert(dirs_each.take(items@.len() as int) == dirs_each);
        assert(files_each.take(items@.len() as int) == files_each);
    }
    (directories, files)
}

/// Sorts names case-insensitively.
fn sort_names(names: Vec<String>) -> (ordered: Vec<String>)
    ensures
        texts(ordered@) == ordered_names(texts(names@)),
{
    let ghost views = texts(names@);
    let mut keyed: Vec<Keyed<String>> = Vec::new();
    for i in 0..names.len()
        invariant
            views == texts(names@),
            keyed_views(keyed@) == keyed_names(views).take(i as int),
    {
        let ghost before = keyed_views(keyed@);
        assert(views[i as int] == names@[i as int]@);
        keyed.push(
            Keyed {
                key: to_chars(to_lowercase(names[i].as_str()).as_str()),
                value: names[i].clone(),
            },
        );
        assert(keyed_views(keyed@) == before.push(keyed_names(views)[i as int]));
    }
    assert(keyed_names(views).take(views.len() as int) == keyed_names(views));
    let sorted = sort_by_key(keyed);
    let mut ordered: Vec<String> = Vec::new();
    for i in 0..sorted.len()
        invariant
            keyed_views(sorted@) == sorted_by_key(keyed_names(views)),
            texts(ordered@) == ordered_names(views).take(i as int),
    {
        let ghost before = texts(ordered@);
        assert(keyed_views(sorted@)[i as int] == sorted@[i as int]@);
        ordered.push(sorted[i].value.clone());
        assert(texts(ordered@) == before.push(ordered_names(views)[i as int]));
    }
    ordered
}

/// Sorts files by their names, case-insensitively.
fn sort_files(files: Vec<(String, String)>) -> (ordered: Vec<(String, String)>)
    ensures
        pair_views(ordered@) == ordered_files(pair_views(files@)),
{
    let ghost views = pair_views(files@);
    let mut keyed: Vec<Keyed<(String, String)>> = Vec::new();
    for i in 0..files.len()
        invariant
            views == pair_views(files@),
            keyed_views(keyed@) == keyed_files(views).take(i as int),
    {
        let ghost before = keyed_views(keyed@);
        assert(views[i as int] == (files@[i as int].0@, files@[i as int].1@));
        keyed.push(
            Keyed {
                key: to_chars(to_lowercase(files[i].0.as_str()).as_str()),
                value: (files[i].0.clone(), files[i].1.clone()),
            },
        );
        assert(keyed_views(keyed@) == before.push(keyed_files(views)[i as int]));
    }
    assert(keyed_files(views).take(views.len() as int) == keyed_files(views));
    let sorted = sort_by_key(keyed);
    let mut ordered: Vec<(String, String)> = Vec::new();
    for i in 0..sorted.len()
        invariant
            keyed_views(sorted@) == sorted_by_key(keyed_files(views)),
            pair_views(ordered@) == ordered_files(views).take(i as int),
    {
        let ghost before = pair_views(ordered@);
        assert(keyed_views(sorted@)[i as int] == sorted@[i as int]@);
        ordered.push((sorted[i].value.0.clone(), sorted[i].value.1.clone()));
        assert(pair_views(ordered@) == before.push(ordered_files(views)[i as int]));
    }
    ordered
}

// ---------------------------------------------------------------------------------------------
// Nodes
// ---------------------------------------------------------------------------------------------

/// The nodes of one level, from its directories and files in the order in which they are shown.
pub fn level_nodes(
    worktree_id: u64,
    csproj_rel: &str,
    prefix: &str,
    directories: &Vec<String>,
    files: &Vec<(String, String)>,
) -> (nodes: Vec<ProjectPanelViewNode>)
    ensures
        node_views(nodes@) == item_directory_nodes(
            worktree_id,
            csproj_rel@,
            prefix@,
            texts(directories@),
        ) + item_file_nodes(worktree_id, csproj_rel@, pair_views(files@)),
{
    let base = parent_dir(csproj_rel);
    let mut nodes: Vec<ProjectPanelViewNode> = Vec::new();
    let ghost dirs = item_directory_nodes(
        worktree_id,
        csproj_rel@,
        prefix@,
        texts(directories@),
    );
    let ghost leaves = item_file_nodes(worktree_id, csproj_rel@, pair_views(files@));
    for i in 0..directories.len()
        invariant
            dirs == item_directory_nodes(
                worktree_id,
                csproj_rel@,
                prefix@,
                texts(directories@),
            ),
            node_views(nodes@) == dirs.take(i as int),
    {
        let ghost before = node_views(nodes@);
        let name = &directories[i];
        let mut rel = csproj_rel.to_owned();
        rel.push('|');
        push_text(&mut rel, join_rel(prefix, name.as_str()).as_str());
        assert(texts(directories@)[i as int] == name@);
        nodes.push(
            container(
                encode_id(NodeKind::ItemDirectory, worktree_id, rel.as_str()),
                name.clone(),
                None,
                None,
            ),
        );
        assert(node_views(nodes@) == before.push(dirs[i as int]));
    }
    assert(dirs.take(dirs.len() as int) == dirs);
    assert(dirs + leaves.take(0) == dirs);
    for i in 0..files.len()
        invariant
            base@ == parent_of(csproj_rel@),
            leaves == item_file_nodes(worktree_id, csproj_rel@, pair_views(files@)),
            node_views(nodes@) == dirs + leaves.take(i as int),
    {
        let ghost before = node_views(nodes@);
        let item = files[i].1.as_str();
        let target = normalize_project_reference(base.as_str(), item);
        assert(pair_views(files@)[i as int] == (files@[i as int].0@, files@[i as int].1@));
        nodes.push(
            leaf(
                encode_owned_id("item", csproj_rel, item),
                files[i].0.clone(),
                Some(ProjectPath { worktree_id, path: target }),
                None,
            ),
        );
        assert(node_views(nodes@) == before.push(leaves[i as int]));
        assert(dirs + leaves.take(i + 1) == before.push(leaves[i as int]));
    }
    assert(leaves.take(leaves.len() as int) == leaves);
    nodes
}

/// One level of a legacy project's virtual tree, derived from its explicit compile-item paths.
/// `prefix` is the csproj-relative directory being expanded (empty for the project root).
/// Directories come first, each group sorted case-insensitively.
pub fn item_nodes(
    worktree_id: u64,
    csproj_rel: &str,
    items: &Vec<String>,
    prefix: &str,
) -> (nodes: Vec<ProjectPanelViewNode>)
    ensures
        node_views(nodes@) == item_level(worktree_id, csproj_rel@, texts(items@), prefix@),
{
    let (directories, files) = collect_items(items, prefix);
    let directories = sort_names(directories);
    let files = sort_files(files);
    level_nodes(worktree_id, csproj_rel, prefix, &directories, &files)
}

// ---------------------------------------------------------------------------------------------
// Laws
// ---------------------------------------------------------------------------------------------

/// In one level of the tree, directories come before files.
pub proof fn directories_come_before_files(
    worktree_id: u64,
    csproj_rel: Seq<char>,
    items: Seq<Seq<char>>,
    prefix: Seq<char>,
    i: int,
    j: int,
)
    requires
        0 <= i < j < item_level(worktree_id, csproj_rel, items, prefix).len(),
        item_level(worktree_id, csproj_rel, items, prefix)[j].is_container,
    ensures
        item_level(worktree_id, csproj_rel, items, prefix)[i].is_container,
{
}

proof fn lemma_keys_are_names(names: Seq<Seq<char>>, k: int)
    requires
        0 <= k < ordered_names(names).len(),
    ensures
        sorted_by_key(keyed_names(names))[k].0 == lowercase(ordered_names(names)[k]),
{
    let keyed = keyed_names(names);
    let sorted = sorted_by_key(keyed);
    assert(sorted.contains(sorted[k]));
    lemma_sorted_contains(keyed, sorted[k]);
    let l = choose|l: int| 0 <= l < keyed.len() && keyed[l] == sorted[k];
    assert(keyed[l].0 == lowercase(keyed[l].1));
}

proof fn lemma_keys_are_file_names(files: Seq<(Seq<char>, Seq<char>)>, k: int)
    requires
        0 <= k < ordered_files(files).len(),
    ensures
        sorted_by_key(keyed_files(files))[k].0 == lowercase(ordered_files(files)[k].0),
{
    let keyed = keyed_files(files);
    let sorted = sorted_by_key(keyed);
    assert(sorted.contains(sorted[k]));
    lemma_sorted_contains(keyed, sorted[k]);
    let l = choose|l: int| 0 <= l < keyed.len() && keyed[l] == sorted[k];
    assert(keyed[l].0 == lowercase(keyed[l].1.0));
}

/// In one level of the tree, directories come in case-insensitive order, and so do files.
pub proof fn each_group_is_in_case_insensitive_order(
    worktree_id: u64,
    csproj_rel: Seq<char>,
    items: Seq<Seq<char>>,
    prefix: Seq<char>,
    i: int,
    j: int,
)
    requires
        0 <= i <= j < item_level(worktree_id, csproj_rel, items, prefix).len(),
        item_level(worktree_id, csproj_rel, items, prefix)[i].is_container == item_level(
            worktree_id,
            csproj_rel,
            items,
            prefix,
        )[j].is_container,
    ensures
        precedes(
            lowercase(item_level(worktree_id, csproj_rel, items, prefix)[i].title),
            lowercase(item_level(worktree_id, csproj_rel, items, prefix)[j].title),
        ),
{
    let names = directories_below(items, prefix);
    let files = files_below(items, prefix);
    let n = ordered_names(names).len() as int;
    if j < n {
        sorting_sorts(keyed_names(names));
        lemma_keys_are_names(names, i);
        lemma_keys_are_names(names, j);
    } else {
        sorting_sorts(keyed_files(files));
        lemma_keys_are_file_names(files, i - n);
        lemma_keys_are_file_names(files, j - n);
    }
}

proof fn lemma_first_occurrences<A>(s: Seq<A>)
    ensures
        first_occurrences(s).no_duplicates(),
        forall|a: A| #[trigger] first_occurrences(s).contains(a) <==> s.contains(a),
    decreases s.len(),
{
    if s.len() > 0 {
        let rest = s.drop_last();
        let before = first_occurrences(rest);
        lemma_first_occurrences(rest);
        assert(s == rest.push(s.last()));
        assert forall|a: A| #[trigger] first_occurrences(s).contains(a) <==> s.contains(a) by {
            lemma_push_contains(rest, s.last(), a);
            lemma_push_contains(before, s.last(), a);
            assert(before.contains(a) <==> rest.contains(a));
        }
    }
}

proof fn lemma_push_contains<A>(s: Seq<A>, last: A, a: A)
    ensures
        s.push(last).contains(a) <==> s.contains(a) || a == last,
{
    if s.contains(a) {
        let i = choose|i: int| 0 <= i < s.len() && s[i] == a;
        assert(s.push(last)[i] == a);
    }
    assert(s.push(last)[s.len() as int] == last);
}

/// Putting names in order neither adds nor drops one.
pub proof fn ordering_keeps_the_names(names: Seq<Seq<char>>)
    ensures
        ordered_names(names).to_multiset() == names.to_multiset(),
{
    sorting_keeps_the_values(keyed_names(names));
    assert(values(keyed_names(names)) == names);
}

/// Putting files in order neither adds nor drops one, so that a file listed twice is shown twice.
pub proof fn ordering_keeps_the_files(files: Seq<(Seq<char>, Seq<char>)>)
    ensures
        ordered_files(files).to_multiset() == files.to_multiset(),
{
    sorting_keeps_the_values(keyed_files(files));
    assert(values(keyed_files(files)) == files);
}

/// In one level of the tree, no directory is shown twice.
pub proof fn no_directory_is_shown_twice(
    worktree_id: u64,
    csproj_rel: Seq<char>,
    items: Seq<Seq<char>>,
    prefix: Seq<char>,
    i: int,
    j: int,
)
    requires
        0 <= i < j < item_level(worktree_id, csproj_rel, items, prefix).len(),
        item_level(worktree_id, csproj_rel, items, prefix)[i].is_container,
        item_level(worktree_id, csproj_rel, items, prefix)[j].is_container,
    ensures
        item_level(worktree_id, csproj_rel, items, prefix)[i].title != item_level(
            worktree_id,
            csproj_rel,
            items,
            prefix,
        )[j].title,
{
    let names = directories_below(items, prefix);
    lemma_first_occurrences(present(each_item_directory(items, prefix)));
    names.lemma_multiset_has_no_duplicates();
    ordering_keeps_the_names(names);
    ordered_names(names).lemma_multiset_has_no_duplicates_conv();
    assert(ordered_names(names)[i] != ordered_names(names)[j]);
}

proof fn lemma_same_multiset<A>(s: Seq<A>, t: Seq<A>, a: A)
    requires
        s.to_multiset() == t.to_multiset(),
    ensures
        s.contains(a) <==> t.contains(a),
{
    broadcast use vstd::seq_lib::group_to_multiset_ensures;

    assert(s.contains(a) <==> s.to_multiset().count(a) > 0);
    assert(t.contains(a) <==> t.to_multiset().count(a) > 0);
}

/// A level of the tree shows exactly the directories that items below it are in.
pub proof fn a_level_shows_the_directories_of_its_items(
    worktree_id: u64,
    csproj_rel: Seq<char>,
    items: Seq<Seq<char>>,
    prefix: Seq<char>,
    name: Seq<char>,
)
    ensures
        item_level(worktree_id, csproj_rel, items, prefix).contains(
            item_directory_node(worktree_id, csproj_rel, prefix, name),
        ) <==> exists|i: int|
            0 <= i < items.len() && item_directory(#[trigger] items[i], prefix) == Some(name),
{
    let each = each_item_directory(items, prefix);
    let names = directories_below(items, prefix);
    let ordered = ordered_names(names);
    let level = item_level(worktree_id, csproj_rel, items, prefix);
    let node = item_directory_node(worktree_id, csproj_rel, prefix, name);
    lemma_present_contains(each, name);
    lemma_first_occurrences(present(each));
    ordering_keeps_the_names(names);
    lemma_same_multiset(ordered, names, name);
    assert(names.contains(name) <==> present(each).contains(name));
    if level.contains(node) {
        let i = choose|i: int| 0 <= i < level.len() && level[i] == node;
        assert(i < ordered.len());
        assert(ordered[i] == name);
        assert(ordered.contains(name));
    }
    if ordered.contains(name) {
        let k = choose|k: int| 0 <= k < ordered.len() && ordered[k] == name;
        assert(level[k] == node);
    }
    if each.contains(Some(name)) {
        let i = choose|i: int| 0 <= i < each.len() && each[i] == Some(name);
        assert(item_directory(items[i], prefix) == Some(name));
    }
    if exists|i: int|
        0 <= i < items.len() && item_directory(#[trigger] items[i], prefix) == Some(name) {
        let i = choose|i: int|
            0 <= i < items.len() && item_directory(#[trigger] items[i], prefix) == Some(name);
        assert(each[i] == Some(name));
    }
}

/// A level of the tree shows exactly the files that lie directly in it.
pub proof fn a_level_shows_its_files(
    worktree_id: u64,
    csproj_rel: Seq<char>,
    items: Seq<Seq<char>>,
    prefix: Seq<char>,
    item: Seq<char>,
    name: Seq<char>,
)
    ensures
        item_level(worktree_id, csproj_rel, items, prefix).contains(
            item_file_node(worktree_id, csproj_rel, (name, item)),
        ) <==> items.contains(item) && item_file(item, prefix) == Some((name, item)),
{
    let each = each_item_file(items, prefix);
    let files = files_below(items, prefix);
    let ordered = ordered_files(files);
    let dirs = ordered_names(directories_below(items, prefix)).len() as int;
    let level = item_level(worktree_id, csproj_rel, items, prefix);
    let file = (name, item);
    let node = item_file_node(worktree_id, csproj_rel, file);
    lemma_present_contains(each, file);
    ordering_keeps_the_files(files);
    lemma_same_multiset(ordered, files, file);
    if level.contains(node) {
        let i = choose|i: int| 0 <= i < level.len() && level[i] == node;
        assert(i >= dirs);
        let shown = ordered[i - dirs];
        assert(shown.0 == name);
        lemma_same_tail(csproj_rel, shown.1, item);
        assert(shown == file);
        assert(ordered.contains(file));
    }
    if ordered.contains(file) {
        let k = choose|k: int| 0 <= k < ordered.len() && ordered[k] == file;
        assert(level[dirs + k] == node);
    }
    if each.contains(Some(file)) {
        let i = choose|i: int| 0 <= i < each.len() && each[i] == Some(file);
        assert(item_file(items[i], prefix) == Some(file));
        assert(items[i] == item);
    }
    if items.contains(item) && item_file(item, prefix) == Some(file) {
        let i = choose|i: int| 0 <= i < items.len() && items[i] == item;
        assert(each[i] == Some(file));
    }
}

proof fn lemma_same_tail(csproj_rel: Seq<char>, a: Seq<char>, b: Seq<char>)
    requires
        owned_id("item"@, csproj_rel, a) == owned_id("item"@, csproj_rel, b),
    ensures
        a == b,
{
    let n = "item"@.len() + 1 + csproj_rel.len() + 1;
    assert(owned_id("item"@, csproj_rel, a).skip(n as int) == a);
    assert(owned_id("item"@, csproj_rel, b).skip(n as int) == b);
}

proof fn lemma_strip_prefix(s: Seq<char>, prefix: Seq<char>, rest: Seq<char>)
    ensures
        strip_prefix(s, prefix) == Some(rest) <==> s == prefix + rest,
{
    prefixes_are_followed_by_the_rest(s, prefix, rest);
}

proof fn lemma_remainder(item: Seq<char>, prefix: Seq<char>, rest: Seq<char>)
    requires
        prefix.len() > 0,
    ensures
        remainder(item, prefix) == Some(rest) <==> item == prefix.push('/') + rest,
{
    let tail = seq!['/'] + rest;
    assert(prefix.push('/') + rest == prefix + tail);
    lemma_strip_prefix(item, prefix, tail);
    lemma_strip_prefix(tail, seq!['/'], rest);
    if remainder(item, prefix) == Some(rest) {
        let after = strip_prefix(item, prefix)->0;
        lemma_strip_prefix(item, prefix, after);
        lemma_strip_prefix(after, seq!['/'], rest);
    }
}

/// Opening a directory leads on to exactly the items in it: what lies below the directory `name`
/// of `prefix` are the items whose first directory below `prefix` is `name`, each with what
/// remains of its path. (A path that starts with `/` has a nameless directory at the root, which
/// leads back to the root itself.)
pub proof fn opening_a_directory_leads_to_its_items(
    item: Seq<char>,
    prefix: Seq<char>,
    name: Seq<char>,
    rest: Seq<char>,
)
    requires
        !name.contains('/'),
        prefix.len() > 0 || name.len() > 0,
    ensures
        remainder(item, joined(prefix, name)) == Some(rest) <==> exists|below: Seq<char>| #[trigger]
            remainder(item, prefix) == Some(below) && split_once(below, '/') == Some((name, rest)),
{
    let inner = joined(prefix, name);
    let tail = name.push('/') + rest;
    lemma_remainder(item, inner, rest);
    lemma_split_once_at(name, '/', rest);
    if prefix.len() > 0 {
        assert(inner.push('/') + rest == prefix.push('/') + tail);
        lemma_remainder(item, prefix, tail);
    }
    if remainder(item, inner) == Some(rest) {
        assert(remainder(item, prefix) == Some(tail));
    }
    if exists|below: Seq<char>| #[trigger]
        remainder(item, prefix) == Some(below) && split_once(below, '/') == Some((name, rest)) {
        let below = choose|below: Seq<char>| #[trigger]
            remainder(item, prefix) == Some(below) && split_once(below, '/') == Some((name, rest));
        lemma_first_index(below, '/');
        assert(below == tail);
    }
}

/// An item lies below a directory when its path is that of the directory, a `/` and the rest; every
/// item lies below the project's own directory, with the whole of its path.
pub proof fn items_lie_below_their_directories(
    item: Seq<char>,
    prefix: Seq<char>,
    rest: Seq<char>,
)
    ensures
        prefix.len() > 0 ==> (remainder(item, prefix) == Some(rest) <==> item == prefix.push('/')
            + rest),
        remainder(item, Seq::empty()) == Some(item),
{
    if prefix.len() > 0 {
        lemma_remainder(item, prefix, rest);
    }
}

/// An item is a file of a level when what remains of its path is a name: not empty, and without a
/// `/`. What kind of file it is makes no difference.
pub proof fn files_are_what_no_slash_remains_of(
    item: Seq<char>,
    prefix: Seq<char>,
    rest: Seq<char>,
)
    ensures
        item_file(item, prefix) == Some((rest, item)) <==> remainder(item, prefix) == Some(rest)
            && rest.len() > 0 && !rest.contains('/'),
        item_file(item, prefix) matches Some(file) ==> file.1 == item,
{
    lemma_first_index(rest, '/');
    if let Some(below) = remainder(item, prefix) {
        lemma_first_index(below, '/');
        if below.contains('/') {
            let i = choose|i: int| 0 <= i < below.len() && below[i] == '/';
            assert(split_once(below, '/') is Some);
        }
    }
}

/// An item is in a directory of a level when what remains of its path is the directory's name, a
/// `/` and more.
pub proof fn directories_are_what_stands_before_a_slash(
    item: Seq<char>,
    prefix: Seq<char>,
    name: Seq<char>,
    tail: Seq<char>,
)
    requires
        !name.contains('/'),
    ensures
        remainder(item, prefix) == Some(name.push('/') + tail) ==> item_directory(item, prefix)
            == Some(name),
        remainder(item, prefix) == Some(name) ==> item_directory(item, prefix) is None,
        remainder(item, prefix) is None ==> item_directory(item, prefix) is None,
{
    lemma_split_once_at(name, '/', tail);
    lemma_first_index(name, '/');
}

/// Every file of a level is shown, whatever its kind: as a leaf under the rest of its path, opening
/// the file where the project says that it is.
pub proof fn every_listed_file_is_shown(
    worktree_id: u64,
    csproj_rel: Seq<char>,
    items: Seq<Seq<char>>,
    prefix: Seq<char>,
    k: int,
    rest: Seq<char>,
)
    requires
        0 <= k < items.len(),
        remainder(items[k], prefix) == Some(rest),
        rest.len() > 0,
        !rest.contains('/'),
    ensures
        exists|i: int| #![trigger item_level(worktree_id, csproj_rel, items, prefix)[i]]
            0 <= i < item_level(worktree_id, csproj_rel, items, prefix).len() && ({
                let node = item_level(worktree_id, csproj_rel, items, prefix)[i];
                &&& node.title == rest
                &&& !node.is_container
                &&& node.icon is None
                &&& node.id == owned_id("item"@, csproj_rel, items[k])
                &&& node.project_path matches Some(location) && location.worktree_id == worktree_id
                    && location.path == reference_target(parent_of(csproj_rel), items[k])
            }),
{
    let item = items[k];
    let level = item_level(worktree_id, csproj_rel, items, prefix);
    let node = item_file_node(worktree_id, csproj_rel, (rest, item));
    files_are_what_no_slash_remains_of(item, prefix, rest);
    a_level_shows_its_files(worktree_id, csproj_rel, items, prefix, item, rest);
    let i = choose|i: int| 0 <= i < level.len() && level[i] == node;
    assert(item_level(worktree_id, csproj_rel, items, prefix)[i] == node);
}

/// Every directory of a level is shown: as a container under its name, without a file or an icon.
pub proof fn every_listed_directory_is_shown(
    worktree_id: u64,
    csproj_rel: Seq<char>,
    items: Seq<Seq<char>>,
    prefix: Seq<char>,
    k: int,
    name: Seq<char>,
    tail: Seq<char>,
)
    requires
        0 <= k < items.len(),
        remainder(items[k], prefix) == Some(name.push('/') + tail),
        !name.contains('/'),
    ensures
        exists|i: int| #![trigger item_level(worktree_id, csproj_rel, items, prefix)[i]]
            0 <= i < item_level(worktree_id, csproj_rel, items, prefix).len() && ({
                let node = item_level(worktree_id, csproj_rel, items, prefix)[i];
                &&& node.title == name
                &&& node.is_container
                &&& node.icon is None
                &&& node.project_path is None
                &&& node.id == encoded(
                    NodeKind::ItemDirectory,
                    worktree_id,
                    csproj_rel.push('|') + joined(prefix, name),
                )
            }),
{
    let level = item_level(worktree_id, csproj_rel, items, prefix);
    let node = item_directory_node(worktree_id, csproj_rel, prefix, name);
    directories_are_what_stands_before_a_slash(items[k], prefix, name, tail);
    a_level_shows_the_directories_of_its_items(worktree_id, csproj_rel, items, prefix, name);
    assert(item_directory(items[k], prefix) == Some(name));
    let i = choose|i: int| 0 <= i < level.len() && level[i] == node;
    assert(item_level(worktree_id, csproj_rel, items, prefix)[i] == node);
}

/// Nothing else is shown: every node of a level stands for an item that lies below it, a leaf for a
/// file and a container for a directory.
pub proof fn a_level_shows_nothing_else(
    worktree_id: u64,
    csproj_rel: Seq<char>,
    items: Seq<Seq<char>>,
    prefix: Seq<char>,
    i: int,
)
    requires
        0 <= i < item_level(worktree_id, csproj_rel, items, prefix).len(),
    ensures
        ({
            let node = item_level(worktree_id, csproj_rel, items, prefix)[i];
            exists|k: int|
                0 <= k < items.len() && (if node.is_container {
                    item_directory(#[trigger] items[k], prefix) == Some(node.title)
                } else {
                    remainder(items[k], prefix) == Some(node.title) && node.title.len() > 0
                        && !node.title.contains('/')
                })
        }),
{
    let names = directories_below(items, prefix);
    let files = files_below(items, prefix);
    let ordered = ordered_names(names);
    let shown = ordered_files(files);
    let node = item_level(worktree_id, csproj_rel, items, prefix)[i];
    if i < ordered.len() {
        let name = ordered[i];
        let each = each_item_directory(items, prefix);
        ordering_keeps_the_names(names);
        assert(ordered.contains(name));
        lemma_same_multiset(ordered, names, name);
        lemma_first_occurrences(present(each));
        assert(present(each).contains(name));
        lemma_present_contains(each, name);
        let k = choose|k: int| 0 <= k < each.len() && each[k] == Some(name);
        assert(item_directory(items[k], prefix) == Some(node.title));
    } else {
        let file = shown[i - ordered.len()];
        let each = each_item_file(items, prefix);
        ordering_keeps_the_files(files);
        assert(shown.contains(file));
        lemma_same_multiset(shown, files, file);
        lemma_present_contains(each, file);
        let k = choose|k: int| 0 <= k < each.len() && each[k] == Some(file);
        assert(item_file(items[k], prefix) == Some(file));
        files_are_what_no_slash_remains_of(items[k], prefix, file.0);
    }
}

/// Items are taken in turn: the files of two lists, one after the other, are those of the first
/// followed by those of the second, and a further item adds its directory only if it is new.
pub proof fn items_are_taken_in_turn(
    first: Seq<Seq<char>>,
    second: Seq<Seq<char>>,
    item: Seq<char>,
    prefix: Seq<char>,
)
    ensures
        files_below(first + second, prefix) == files_below(first, prefix) + files_below(
            second,
            prefix,
        ),
        files_below(seq![item], prefix) == (match item_file(item, prefix) {
            Some(file) => seq![file],
            None => Seq::empty(),
        }),
        directories_below(Seq::empty(), prefix).len() == 0,
        directories_below(first.push(item), prefix) == (match item_directory(item, prefix) {
            Some(name) => if directories_below(first, prefix).contains(name) {
                directories_below(first, prefix)
            } else {
                directories_below(first, prefix).push(name)
            },
            None => directories_below(first, prefix),
        }),
{
    assert(each_item_file(first + second, prefix) == each_item_file(first, prefix)
        + each_item_file(second, prefix));
    lemma_present_add(each_item_file(first, prefix), each_item_file(second, prefix));
    let none = Seq::<Option<(Seq<char>, Seq<char>)>>::empty();
    assert(each_item_file(seq![item], prefix) == none.push(item_file(item, prefix)));
    lemma_present_push(none, item_file(item, prefix));
    assert(present(none) == Seq::<(Seq<char>, Seq<char>)>::empty());
    let each = each_item_directory(first, prefix);
    assert(each_item_directory(first.push(item), prefix) == each.push(
        item_directory(item, prefix),
    ));
    lemma_present_push(each, item_directory(item, prefix));
    if let Some(name) = item_directory(item, prefix) {
        assert(present(each).push(name).drop_last() == present(each));
    }
    let nothing = each_item_directory(Seq::empty(), prefix);
    assert(present(nothing).len() == 0);
}

/// A level shows one node for each of its directories and files, and no more.
pub proof fn a_level_is_as_long_as_its_parts(
    worktree_id: u64,
    csproj_rel: Seq<char>,
    items: Seq<Seq<char>>,
    prefix: Seq<char>,
)
    ensures
        item_level(worktree_id, csproj_rel, items, prefix).len() == directories_below(
            items,
            prefix,
        ).len() + files_below(items, prefix).len(),
{
    sorting_sorts(keyed_names(directories_below(items, prefix)));
    sorting_sorts(keyed_files(files_below(items, prefix)));
}

/// The nodes of given directories and files are all there, in the order given, each under its name.
pub proof fn given_directories_and_files_are_shown(
    worktree_id: u64,
    csproj_rel: Seq<char>,
    prefix: Seq<char>,
    names: Seq<Seq<char>>,
    files: Seq<(Seq<char>, Seq<char>)>,
    i: int,
)
    ensures
        ({
            let dirs = item_directory_nodes(worktree_id, csproj_rel, prefix, names);
            let leaves = item_file_nodes(worktree_id, csproj_rel, files);
            &&& dirs.len() == names.len()
            &&& leaves.len() == files.len()
            &&& 0 <= i < names.len() ==> dirs[i].title == names[i] && dirs[i].is_container
                && dirs[i].icon is None && dirs[i].project_path is None
            &&& 0 <= i < files.len() ==> leaves[i].title == files[i].0 && !leaves[i].is_container
                && leaves[i].icon is None && leaves[i].project_path == Some(
                ProjectPathView {
                    worktree_id,
                    path: reference_target(parent_of(csproj_rel), files[i].1),
                },
            )
        }),
{
}

/// The files whose names are the same but for case, in order.
pub open spec fn files_called(files: Seq<(Seq<char>, Seq<char>)>, key: Seq<char>) -> Seq<
    (Seq<char>, Seq<char>),
>
    decreases files.len(),
{
    if files.len() == 0 {
        files
    } else if lowercase(files[0].0) == key {
        seq![files[0]] + files_called(files.drop_first(), key)
    } else {
        files_called(files.drop_first(), key)
    }
}

proof fn lemma_files_called(files: Seq<(Seq<char>, Seq<char>)>, key: Seq<char>)
    ensures
        values(with_key(keyed_files(files), key)) == files_called(files, key),
    decreases files.len(),
{
    if files.len() > 0 {
        let keyed = keyed_files(files);
        assert(keyed.drop_first() == keyed_files(files.drop_first()));
        lemma_files_called(files.drop_first(), key);
        let rest = with_key(keyed.drop_first(), key);
        assert(values(seq![keyed[0]] + rest) == seq![files[0]] + values(rest));
    } else {
        assert(values(with_key(keyed_files(files), key)) == files);
    }
}

/// Files whose names are the same but for case keep the order in which the project lists them.
pub proof fn ordering_keeps_the_order_of_equals(
    files: Seq<(Seq<char>, Seq<char>)>,
    key: Seq<char>,
)
    ensures
        files_called(ordered_files(files), key) == files_called(files, key),
{
    let sorted = sorted_by_key(keyed_files(files));
    let ordered = ordered_files(files);
    assert(keyed_files(ordered) == sorted) by {
        assert forall|k: int| 0 <= k < sorted.len() implies keyed_files(ordered)[k]
            == #[trigger] sorted[k] by {
            lemma_keys_are_file_names(files, k);
        }
    }
    sorting_is_stable(keyed_files(files), key);
    lemma_files_called(files, key);
    lemma_files_called(ordered, key);
}

/// The names that are the same but for case, in order.
pub open spec fn names_called(names: Seq<Seq<char>>, key: Seq<char>) -> Seq<Seq<char>>
    decreases names.len(),
{
    if names.len() == 0 {
        names
    } else if lowercase(names[0]) == key {
        seq![names[0]] + names_called(names.drop_first(), key)
    } else {
        names_called(names.drop_first(), key)
    }
}

proof fn lemma_names_called(names: Seq<Seq<char>>, key: Seq<char>)
    ensures
        values(with_key(keyed_names(names), key)) == names_called(names, key),
    decreases names.len(),
{
    if names.len() > 0 {
        let keyed = keyed_names(names);
        assert(keyed.drop_first() == keyed_names(names.drop_first()));
        lemma_names_called(names.drop_first(), key);
        let rest = with_key(keyed.drop_first(), key);
        assert(values(seq![keyed[0]] + rest) == seq![names[0]] + values(rest));
    } else {
        assert(values(with_key(keyed_names(names), key)) == names);
    }
}

/// Directories whose names are the same but for case keep the order in which they first occur.
pub proof fn ordering_keeps_the_order_of_equal_names(names: Seq<Seq<char>>, key: Seq<char>)
    ensures
        names_called(ordered_names(names), key) == names_called(names, key),
{
    let sorted = sorted_by_key(keyed_names(names));
    let ordered = ordered_names(names);
    assert(keyed_names(ordered) == sorted) by {
        assert forall|k: int| 0 <= k < sorted.len() implies keyed_names(ordered)[k]
            == #[trigger] sorted[k] by {
            lemma_keys_are_names(names, k);
        }
    }
    sorting_is_stable(keyed_names(names), key);
    lemma_names_called(names, key);
    lemma_names_called(ordered, key);
}

/// After its directories, a level shows files only, and each name as often as the project lists a
/// file under it.
pub proof fn files_are_shown_as_often_as_listed(
    worktree_id: u64,
    csproj_rel: Seq<char>,
    items: Seq<Seq<char>>,
    prefix: Seq<char>,
)
    ensures
        ({
            let dirs = directories_below(items, prefix).len() as int;
            let level = item_level(worktree_id, csproj_rel, items, prefix);
            let leaves = level.skip(dirs);
            let titles = Seq::new(leaves.len(), |i: int| leaves[i].title);
            let names = Seq::new(
                files_below(items, prefix).len(),
                |i: int| files_below(items, prefix)[i].0,
            );
            &&& titles.to_multiset() == names.to_multiset()
            &&& forall|i: int| 0 <= i < leaves.len() ==> !(#[trigger] leaves[i]).is_container
        }),
{
    let found = directories_below(items, prefix);
    let files = files_below(items, prefix);
    let level = item_level(worktree_id, csproj_rel, items, prefix);
    let leaves = level.skip(found.len() as int);
    let titles = Seq::new(leaves.len(), |i: int| leaves[i].title);
    let names = Seq::new(files.len(), |i: int| files[i].0);
    let keyed = keyed_files(files);
    let by_name = Seq::new(keyed.len(), |i: int| (keyed[i].0, keyed[i].1.0));
    sorting_sorts(keyed_names(found));
    sorting_sorts(keyed);
    lemma_sorting_names(keyed);
    sorting_keeps_the_values(by_name);
    assert(values(by_name) == names);
    assert(titles == values(sorted_by_key(by_name)));
}

/// Sorting files and keeping their names is sorting the names.
proof fn lemma_sorting_names(files: Seq<(Seq<char>, (Seq<char>, Seq<char>))>)
    ensures
        sorted_by_key(Seq::new(files.len(), |i: int| (files[i].0, files[i].1.0))) == Seq::new(
            sorted_by_key(files).len(),
            |i: int| (sorted_by_key(files)[i].0, sorted_by_key(files)[i].1.0),
        ),
    decreases files.len(),
{
    let names = Seq::new(files.len(), |i: int| (files[i].0, files[i].1.0));
    if files.len() > 0 {
        let rest = sorted_by_key(files.drop_first());
        lemma_sorting_names(files.drop_first());
        assert(names.drop_first() == Seq::new(
            files.drop_first().len(),
            |i: int| (files.drop_first()[i].0, files.drop_first()[i].1.0),
        ));
        let rest_names = Seq::new(rest.len(), |i: int| (rest[i].0, rest[i].1.0));
        lemma_same_insertion_point(rest, rest_names, files[0].0);
        lemma_insertion_point(rest, files[0].0);
        let p = insertion_point(rest, files[0].0) as int;
        let all = rest.insert(p, files[0]);
        assert(rest_names.insert(p, names[0]) == Seq::new(
            all.len(),
            |i: int| (all[i].0, all[i].1.0),
        ));
    }
}

proof fn lemma_same_insertion_point(
    files: Seq<(Seq<char>, (Seq<char>, Seq<char>))>,
    names: Seq<(Seq<char>, Seq<char>)>,
    key: Seq<char>,
)
    requires
        files.len() == names.len(),
        forall|i: int| 0 <= i < files.len() ==> (#[trigger] files[i]).0 == names[i].0,
    ensures
        insertion_point(files, key) == insertion_point(names, key),
    decreases files.len(),
{
    if files.len() > 0 {
        let rest = files.drop_first();
        assert(files[0].0 == names[0].0);
        assert forall|i: int| 0 <= i < rest.len() implies (#[trigger] rest[i]).0
            == names.drop_first()[i].0 by {
            assert(rest[i] == files[i + 1]);
        }
        lemma_same_insertion_point(rest, names.drop_first(), key);
    }
}

}
