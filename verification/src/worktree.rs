//! What a worktree holds, as the host has scanned it: directory listings and the search for
//! solution files.

use crate::order::{
    keyed_views, lemma_sorted_contains, precedes, sort_by_key, sorted_by_key,
    sorting_keeps_the_values, sorting_sorts, values, Keyed,
};
use crate::paths::{
    extension_is, has_extension, is_noise, is_noise_dir, is_solution_search_skip_dir, is_unsearched,
};
use crate::text::{
    lemma_present_add, lemma_present_contains, lemma_present_push, opt_text, present, same_text,
    texts, to_chars,
};
use vstd::prelude::*;

verus! {

/// How many directory levels below the worktree root to search for `.sln` files. Solutions
/// commonly live one level down (e.g. a Unity project folder), not at the very root.
pub const MAX_SOLUTION_SEARCH_DEPTH: usize = 3;

/// A file or directory of a worktree.
#[derive(Debug, Clone, PartialEq, Eq)]
pub struct WorktreeEntry {
    /// The last component of the path; absent for the root, which has none.
    pub file_name: Option<String>,
    pub is_dir: bool,
    /// The path relative to the worktree, with `/` between its directories.
    pub path: String,
}

/// A directory of a worktree with what it directly contains, in the host's order.
#[derive(Debug, Clone, PartialEq, Eq)]
pub struct WorktreeDirectory {
    pub path: String,
    pub entries: Vec<WorktreeEntry>,
}

/// The directories of a worktree at one moment.
#[derive(Debug, Clone, PartialEq, Eq)]
pub struct WorktreeSnapshot {
    pub directories: Vec<WorktreeDirectory>,
}

// ---------------------------------------------------------------------------------------------
// Specifications
// ---------------------------------------------------------------------------------------------

/// A [`WorktreeEntry`] as the contracts see it.
pub struct EntryView {
    pub file_name: Option<Seq<char>>,
    pub is_dir: bool,
    pub path: Seq<char>,
}

impl View for WorktreeEntry {
    type V = EntryView;

    open spec fn view(&self) -> EntryView {
        EntryView { file_name: opt_text(self.file_name), is_dir: self.is_dir, path: self.path@ }
    }
}

/// The entries held by a sequence of entries.
pub open spec fn entry_views(entries: Seq<WorktreeEntry>) -> Seq<EntryView> {
    Seq::new(entries.len(), |i: int| entries[i]@)
}

/// A [`WorktreeDirectory`] as the contracts see it.
pub struct DirectoryView {
    pub path: Seq<char>,
    pub entries: Seq<EntryView>,
}

impl View for WorktreeDirectory {
    type V = DirectoryView;

    open spec fn view(&self) -> DirectoryView {
        DirectoryView { path: self.path@, entries: entry_views(self.entries@) }
    }
}

impl View for WorktreeSnapshot {
    type V = Seq<DirectoryView>;

    open spec fn view(&self) -> Seq<DirectoryView> {
        Seq::new(self.directories@.len(), |i: int| self.directories@[i]@)
    }
}

/// What the directory at `path` directly contains: nothing when there is no such directory.
pub open spec fn entries_of(snapshot: Seq<DirectoryView>, path: Seq<char>) -> Seq<EntryView>
    decreases snapshot.len(),
{
    if snapshot.len() == 0 {
        Seq::empty()
    } else if snapshot[0].path == path {
        snapshot[0].entries
    } else {
        entries_of(snapshot.drop_first(), path)
    }
}

/// An entry as a listing shows it: its name, whether it is a directory, and its path. Entries
/// without a name, and directories that hold build output or belong to a tool, are not shown.
pub open spec fn listed_entry(entry: EntryView) -> Option<(Seq<char>, bool, Seq<char>)> {
    match entry.file_name {
        Some(name) => if entry.is_dir && is_noise(name) {
            None
        } else {
            Some((name, entry.is_dir, entry.path))
        },
        None => None,
    }
}

/// The listing of the directory at `path`.
pub open spec fn listing(snapshot: Seq<DirectoryView>, path: Seq<char>) -> Seq<
    (Seq<char>, bool, Seq<char>),
> {
    present(entries_of(snapshot, path).map_values(|entry: EntryView| listed_entry(entry)))
}

/// The listing held by a vector of tuples.
pub open spec fn listing_views(listed: Seq<(String, bool, String)>) -> Seq<
    (Seq<char>, bool, Seq<char>),
> {
    Seq::new(listed.len(), |i: int| (listed[i].0@, listed[i].1, listed[i].2@))
}

/// The name and path of an entry that is a solution file.
pub open spec fn solution_of(entry: EntryView) -> Option<(Seq<char>, Seq<char>)> {
    match entry.file_name {
        Some(name) => if !entry.is_dir && extension_is(name, "sln"@) {
            Some((name, entry.path))
        } else {
            None
        },
        None => None,
    }
}

/// The path of an entry that is a directory to be searched for solution files.
pub open spec fn searched_dir(entry: EntryView) -> Option<Seq<char>> {
    match entry.file_name {
        Some(name) => if entry.is_dir && !is_unsearched(name) {
            Some(entry.path)
        } else {
            None
        },
        None => None,
    }
}

/// The solution files directly in the directory at `path`.
pub open spec fn solutions_in(snapshot: Seq<DirectoryView>, path: Seq<char>) -> Seq<
    (Seq<char>, Seq<char>),
> {
    present(entries_of(snapshot, path).map_values(|entry: EntryView| solution_of(entry)))
}

/// The directories directly in the directory at `path` that are searched in turn.
pub open spec fn searched_in(snapshot: Seq<DirectoryView>, path: Seq<char>) -> Seq<Seq<char>> {
    present(entries_of(snapshot, path).map_values(|entry: EntryView| searched_dir(entry)))
}

/// The solution files in the directory at `path` and up to `levels` levels below it: its own
/// first, then those below its directories, the last directory first.
pub open spec fn solutions_below(
    snapshot: Seq<DirectoryView>,
    path: Seq<char>,
    levels: nat,
) -> Seq<(Seq<char>, Seq<char>)>
    decreases levels, 0nat,
{
    if levels == 0 {
        solutions_in(snapshot, path)
    } else {
        solutions_in(snapshot, path) + solutions_below_each(
            snapshot,
            searched_in(snapshot, path),
            (levels - 1) as nat,
        )
    }
}

/// The solution files below each of the directories, the last one first.
pub open spec fn solutions_below_each(
    snapshot: Seq<DirectoryView>,
    paths: Seq<Seq<char>>,
    levels: nat,
) -> Seq<(Seq<char>, Seq<char>)>
    decreases levels, 1 + paths.len(),
{
    if paths.len() == 0 {
        Seq::empty()
    } else {
        solutions_below(snapshot, paths.last(), levels) + solutions_below_each(
            snapshot,
            paths.drop_last(),
            levels,
        )
    }
}

/// Solution files with their paths as keys.
pub open spec fn keyed_by_path(solutions: Seq<(Seq<char>, Seq<char>)>) -> Seq<
    (Seq<char>, (Seq<char>, Seq<char>)),
> {
    solutions.map_values(|solution: (Seq<char>, Seq<char>)| (solution.1, solution))
}

/// The solution files of a worktree, in the order of their paths.
pub open spec fn solutions_of(snapshot: Seq<DirectoryView>) -> Seq<(Seq<char>, Seq<char>)> {
    values(
        sorted_by_key(
            keyed_by_path(
                solutions_below(snapshot, Seq::empty(), MAX_SOLUTION_SEARCH_DEPTH as nat),
            ),
        ),
    )
}

/// The names and paths held by a sequence of pairs.
pub open spec fn pair_views(pairs: Seq<(String, String)>) -> Seq<(Seq<char>, Seq<char>)> {
    Seq::new(pairs.len(), |i: int| (pairs[i].0@, pairs[i].1@))
}

// ---------------------------------------------------------------------------------------------
// Listing
// ---------------------------------------------------------------------------------------------

/// The one worktree that the tree is about: `None` when zero or many are open (the tree, like
/// glob views, only applies to a single-worktree project).
pub fn sole_worktree<W>(worktrees: Vec<W>) -> (sole: Option<W>)
    ensures
        sole == (if worktrees@.len() == 1 {
            Some(worktrees@[0])
        } else {
            None
        }),
{
    let mut worktrees = worktrees;
    if worktrees.len() == 1 {
        worktrees.pop()
    } else {
        None
    }
}

impl WorktreeSnapshot {
    /// What the directory at `path` directly contains: `None` when there is no such directory.
    fn directory(&self, path: &str) -> (found: Option<&WorktreeDirectory>)
        ensures
            match found {
                Some(directory) => entry_views(directory.entries@) == entries_of(self@, path@),
                None => entries_of(self@, path@).len() == 0,
            },
    {
        assert(self@.skip(0) == self@);
        for i in 0..self.directories.len()
            invariant
                entries_of(self@, path@) == entries_of(self@.skip(i as int), path@),
        {
            let ghost rest = self@.skip(i as int);
            proof {
                assert(rest[0] == self.directories@[i as int]@);
                assert(rest.drop_first() == self@.skip(i + 1));
            }
            if same_text(self.directories[i].path.as_str(), path) {
                return Some(&self.directories[i]);
            }
        }
        None
    }

    /// Lists the direct children of `parent_rel`, skipping build-output/tooling dirs. Returns
    /// `(file_name, is_dir, rel_path)` tuples.
    pub fn list_dir(&self, parent_rel: &str) -> (listed: Vec<(String, bool, String)>)
        ensures
            listing_views(listed@) == listing(self@, parent_rel@),
    {
        let mut listed: Vec<(String, bool, String)> = Vec::new();
        let directory = match self.directory(parent_rel) {
            Some(directory) => directory,
            None => {
                assert(listing_views(listed@) == listing(self@, parent_rel@));
                return listed;
            },
        };
        let ghost shown = entries_of(self@, parent_rel@).map_values(
            |entry: EntryView| listed_entry(entry),
        );
        assert(listing_views(listed@) == present(shown.take(0)));
        for i in 0..directory.entries.len()
            invariant
                entry_views(directory.entries@) == entries_of(self@, parent_rel@),
                shown == entries_of(self@, parent_rel@).map_values(
                    |entry: EntryView| listed_entry(entry),
                ),
                listing_views(listed@) == present(shown.take(i as int)),
        {
            let entry = &directory.entries[i];
            let ghost before = listed@;
            proof {
                assert(entry_views(directory.entries@)[i as int] == entry@);
                assert(shown.take(i + 1) == shown.take(i as int).push(shown[i as int]));
                lemma_present_push(shown.take(i as int), shown[i as int]);
            }
            if let Some(name) = &entry.file_name {
                if !(entry.is_dir && is_noise_dir(name.as_str())) {
                    listed.push((name.clone(), entry.is_dir, entry.path.clone()));
                    assert(listing_views(listed@) == listing_views(before).push(
                        (name@, entry.is_dir, entry.path@),
                    ));
                }
            }
        }
        assert(shown.take(directory.entries@.len() as int) == shown);
        listed
    }
}

// ---------------------------------------------------------------------------------------------
// Searching
// ---------------------------------------------------------------------------------------------

impl WorktreeSnapshot {
    /// The solution files directly in the directory at `path`, and the directories in it that are
    /// searched in turn.
    fn scan(&self, path: &str) -> (scanned: (Vec<(String, String)>, Vec<String>))
        ensures
            pair_views(scanned.0@) == solutions_in(self@, path@),
            texts(scanned.1@) == searched_in(self@, path@),
    {
        let mut solutions: Vec<(String, String)> = Vec::new();
        let mut searched: Vec<String> = Vec::new();
        let directory = match self.directory(path) {
            Some(directory) => directory,
            None => {
                assert(pair_views(solutions@) == solutions_in(self@, path@));
                assert(texts(searched@) == searched_in(self@, path@));
                return (solutions, searched);
            },
        };
        let ghost files = entries_of(self@, path@).map_values(
            |entry: EntryView| solution_of(entry),
        );
        let ghost dirs = entries_of(self@, path@).map_values(
            |entry: EntryView| searched_dir(entry),
        );
        assert(pair_views(solutions@) == present(files.take(0)));
        assert(texts(searched@) == present(dirs.take(0)));
        for i in 0..directory.entries.len()
            invariant
                entry_views(directory.entries@) == entries_of(self@, path@),
                files == entries_of(self@, path@).map_values(
                    |entry: EntryView| solution_of(entry),
                ),
                dirs == entries_of(self@, path@).map_values(
                    |entry: EntryView| searched_dir(entry),
                ),
                pair_views(solutions@) == present(files.take(i as int)),
                texts(searched@) == present(dirs.take(i as int)),
        {
            let entry = &directory.entries[i];
            let ghost before = solutions@;
            let ghost searched_before = searched@;
            proof {
                assert(entry_views(directory.entries@)[i as int] == entry@);
                assert(files.take(i + 1) == files.take(i as int).push(files[i as int]));
                assert(dirs.take(i + 1) == dirs.take(i as int).push(dirs[i as int]));
                lemma_present_push(files.take(i as int), files[i as int]);
                lemma_present_push(dirs.take(i as int), dirs[i as int]);
            }
            if let Some(name) = &entry.file_name {
                if entry.is_dir {
                    if !is_solution_search_skip_dir(name.as_str()) {
                        searched.push(entry.path.clone());
                        assert(texts(searched@) == texts(searched_before).push(entry.path@));
                    }
                } else if has_extension(name.as_str(), "sln") {
                    solutions.push((name.clone(), entry.path.clone()));
                    assert(pair_views(solutions@) == pair_views(before).push(
                        (name@, entry.path@),
                    ));
                }
            }
        }
        assert(files.take(directory.entries@.len() as int) == files);
        assert(dirs.take(directory.entries@.len() as int) == dirs);
        (solutions, searched)
    }

    /// Adds the solution files in the directory at `path` and up to `levels` levels below it.
    fn search(&self, path: &str, levels: usize, found: &mut Vec<(String, String)>)
        ensures
            pair_views(final(found)@) == pair_views(old(found)@) + solutions_below(
                self@,
                path@,
                levels as nat,
            ),
        decreases levels,
    {
        let ghost before = pair_views(found@);
        let (mut solutions, mut searched) = self.scan(path);
        let ghost own = pair_views(solutions@);
        found.append(&mut solutions);
        assert(pair_views(found@) == before + own);
        if levels == 0 {
            return;
        }
        let ghost all = solutions_below_each(self@, texts(searched@), (levels - 1) as nat);
        while searched.len() > 0
            invariant
                levels > 0,
                own == solutions_in(self@, path@),
                all == solutions_below_each(
                    self@,
                    searched_in(self@, path@),
                    (levels - 1) as nat,
                ),
                pair_views(found@) + solutions_below_each(
                    self@,
                    texts(searched@),
                    (levels - 1) as nat,
                ) == before + own + all,
            decreases searched@.len(),
        {
            let ghost paths = texts(searched@);
            let ghost so_far = pair_views(found@);
            if let Some(next) = searched.pop() {
                proof {
                    assert(texts(searched@) == paths.drop_last());
                    assert(paths.last() == next@);
                }
                self.search(next.as_str(), levels - 1, found);
                proof {
                    let below = solutions_below(self@, next@, (levels - 1) as nat);
                    let rest = solutions_below_each(
                        self@,
                        texts(searched@),
                        (levels - 1) as nat,
                    );
                    assert(so_far + below + rest == so_far + (below + rest));
                }
            }
        }
        proof {
            assert(texts(searched@) == Seq::<Seq<char>>::empty());
            assert(pair_views(found@) + Seq::<(Seq<char>, Seq<char>)>::empty() == pair_views(
                found@,
            ));
            assert(before + own + all == before + (own + all));
        }
    }

    /// Searches the worktree (root plus a bounded depth of subdirectories, skipping build/tooling
    /// dirs) for `.sln` files. Returns `(file_name, rel_path)` sorted by path for stable ordering.
    pub fn find_solutions(&self) -> (solutions: Vec<(String, String)>)
        ensures
            pair_views(solutions@) == solutions_of(self@),
    {
        let mut found: Vec<(String, String)> = Vec::new();
        let ghost none = pair_views(found@);
        self.search("", MAX_SOLUTION_SEARCH_DEPTH, &mut found);
        let ghost all = solutions_below(self@, Seq::empty(), MAX_SOLUTION_SEARCH_DEPTH as nat);
        proof {
            reveal_strlit("");
            assert(""@ == Seq::<char>::empty());
            assert(none + all == all);
        }
        let mut keyed: Vec<Keyed<(String, String)>> = Vec::new();
        for i in 0..found.len()
            invariant
                pair_views(found@) == all,
                keyed_views(keyed@) == keyed_by_path(all).take(i as int),
        {
            let ghost before = keyed_views(keyed@);
            assert(all[i as int] == (found@[i as int].0@, found@[i as int].1@));
            keyed.push(
                Keyed {
                    key: to_chars(found[i].1.as_str()),
                    value: (found[i].0.clone(), found[i].1.clone()),
                },
            );
            assert(keyed_views(keyed@) == before.push(keyed_by_path(all)[i as int]));
        }
        assert(keyed_by_path(all).take(all.len() as int) == keyed_by_path(all));
        let sorted = sort_by_key(keyed);
        let ghost views = keyed_views(sorted@);
        let mut solutions: Vec<(String, String)> = Vec::new();
        for i in 0..sorted.len()
            invariant
                views == keyed_views(sorted@),
                pair_views(solutions@) == values(views).take(i as int),
        {
            let ghost before = pair_views(solutions@);
            assert(views[i as int] == sorted@[i as int]@);
            solutions.push((sorted[i].value.0.clone(), sorted[i].value.1.clone()));
            assert(pair_views(solutions@) == before.push(views[i as int].1));
        }
        solutions
    }
}

// ---------------------------------------------------------------------------------------------
// Laws
// ---------------------------------------------------------------------------------------------

/// A listing shows exactly the entries of the directory that have a name and are not directories
/// of build output or tooling.
pub proof fn listings_hide_only_noise(
    snapshot: Seq<DirectoryView>,
    path: Seq<char>,
    name: Seq<char>,
    is_dir: bool,
    rel: Seq<char>,
)
    ensures
        listing(snapshot, path).contains((name, is_dir, rel)) <==> entries_of(
            snapshot,
            path,
        ).contains(EntryView { file_name: Some(name), is_dir, path: rel }) && !(is_dir && is_noise(
            name,
        )),
{
    let entries = entries_of(snapshot, path);
    let shown = entries.map_values(|entry: EntryView| listed_entry(entry));
    let item = (name, is_dir, rel);
    let entry = EntryView { file_name: Some(name), is_dir, path: rel };
    lemma_present_contains(shown, item);
    if shown.contains(Some(item)) {
        let i = choose|i: int| 0 <= i < shown.len() && shown[i] == Some(item);
        assert(entries[i] == entry);
    }
    if entries.contains(entry) && !(is_dir && is_noise(name)) {
        let i = choose|i: int| 0 <= i < entries.len() && entries[i] == entry;
        assert(shown[i] == Some(item));
    }
}

proof fn lemma_solutions_of_contains(
    snapshot: Seq<DirectoryView>,
    solution: (Seq<char>, Seq<char>),
)
    ensures
        solutions_of(snapshot).contains(solution) <==> solutions_below(
            snapshot,
            Seq::empty(),
            MAX_SOLUTION_SEARCH_DEPTH as nat,
        ).contains(solution),
{
    let below = solutions_below(snapshot, Seq::empty(), MAX_SOLUTION_SEARCH_DEPTH as nat);
    let keyed = keyed_by_path(below);
    let sorted = sorted_by_key(keyed);
    if solutions_of(snapshot).contains(solution) {
        let i = choose|i: int|
            0 <= i < solutions_of(snapshot).len() && solutions_of(snapshot)[i] == solution;
        assert(sorted.contains(sorted[i]));
        lemma_sorted_contains(keyed, sorted[i]);
        let j = choose|j: int| 0 <= j < keyed.len() && keyed[j] == sorted[i];
        assert(below[j] == solution);
    }
    if below.contains(solution) {
        let j = choose|j: int| 0 <= j < below.len() && below[j] == solution;
        assert(keyed[j] == (solution.1, solution));
        lemma_sorted_contains(keyed, keyed[j]);
        let i = choose|i: int| 0 <= i < sorted.len() && sorted[i] == keyed[j];
        assert(solutions_of(snapshot)[i] == solution);
    }
}

/// The solution files of a worktree come in the order of their paths.
pub proof fn solutions_come_in_path_order(snapshot: Seq<DirectoryView>, i: int, j: int)
    requires
        0 <= i <= j < solutions_of(snapshot).len(),
    ensures
        precedes(solutions_of(snapshot)[i].1, solutions_of(snapshot)[j].1),
{
    let keyed = keyed_by_path(
        solutions_below(snapshot, Seq::empty(), MAX_SOLUTION_SEARCH_DEPTH as nat),
    );
    let sorted = sorted_by_key(keyed);
    sorting_sorts(keyed);
    assert forall|k: int| 0 <= k < sorted.len() implies (#[trigger] sorted[k]).0
        == sorted[k].1.1 by {
        assert(sorted.contains(sorted[k]));
        lemma_sorted_contains(keyed, sorted[k]);
        let l = choose|l: int| 0 <= l < keyed.len() && keyed[l] == sorted[k];
    }
    assert(precedes(sorted[i].0, sorted[j].0));
}

/// Whether the search gets from the directory `from` to the directory `to` in at most `levels`
/// steps down, each into a directory that is not passed over.
pub open spec fn reaches(
    snapshot: Seq<DirectoryView>,
    from: Seq<char>,
    to: Seq<char>,
    levels: nat,
) -> bool
    decreases levels,
{
    from == to || (levels > 0 && exists|next: Seq<char>| #[trigger]
        searched_in(snapshot, from).contains(next) && reaches(
            snapshot,
            next,
            to,
            (levels - 1) as nat,
        ))
}

/// Whether a file is a solution in a directory that the search gets to.
pub open spec fn is_within_reach(
    snapshot: Seq<DirectoryView>,
    from: Seq<char>,
    levels: nat,
    solution: (Seq<char>, Seq<char>),
) -> bool {
    exists|dir: Seq<char>| #[trigger]
        solutions_in(snapshot, dir).contains(solution) && reaches(snapshot, from, dir, levels)
}

proof fn lemma_below_each_contains(
    snapshot: Seq<DirectoryView>,
    paths: Seq<Seq<char>>,
    levels: nat,
    solution: (Seq<char>, Seq<char>),
)
    ensures
        solutions_below_each(snapshot, paths, levels).contains(solution) <==> exists|i: int|
            0 <= i < paths.len() && solutions_below(
                snapshot,
                #[trigger] paths[i],
                levels,
            ).contains(solution),
    decreases paths.len(),
{
    if paths.len() > 0 {
        let rest = paths.drop_last();
        let last = solutions_below(snapshot, paths.last(), levels);
        let others = solutions_below_each(snapshot, rest, levels);
        lemma_below_each_contains(snapshot, rest, levels, solution);
        lemma_add_contains(last, others, solution);
        if last.contains(solution) {
            assert(solutions_below(snapshot, paths[paths.len() - 1], levels).contains(solution));
        }
        if others.contains(solution) {
            let i = choose|i: int|
                0 <= i < rest.len() && solutions_below(
                    snapshot,
                    #[trigger] rest[i],
                    levels,
                ).contains(solution);
            assert(paths[i] == rest[i]);
        }
        if exists|i: int|
            0 <= i < paths.len() && solutions_below(
                snapshot,
                #[trigger] paths[i],
                levels,
            ).contains(solution) {
            let i = choose|i: int|
                0 <= i < paths.len() && solutions_below(
                    snapshot,
                    #[trigger] paths[i],
                    levels,
                ).contains(solution);
            if i < rest.len() {
                assert(rest[i] == paths[i]);
            }
        }
    }
}

proof fn lemma_add_contains<A>(s: Seq<A>, t: Seq<A>, a: A)
    ensures
        (s + t).contains(a) <==> s.contains(a) || t.contains(a),
{
    if s.contains(a) {
        let i = choose|i: int| 0 <= i < s.len() && s[i] == a;
        assert((s + t)[i] == a);
    }
    if t.contains(a) {
        let i = choose|i: int| 0 <= i < t.len() && t[i] == a;
        assert((s + t)[s.len() + i] == a);
    }
}

proof fn lemma_below_is_within_reach(
    snapshot: Seq<DirectoryView>,
    path: Seq<char>,
    levels: nat,
    solution: (Seq<char>, Seq<char>),
)
    ensures
        solutions_below(snapshot, path, levels).contains(solution) <==> is_within_reach(
            snapshot,
            path,
            levels,
            solution,
        ),
    decreases levels,
{
    let own = solutions_in(snapshot, path);
    if own.contains(solution) {
        assert(reaches(snapshot, path, path, levels));
    }
    if levels > 0 {
        let fewer = (levels - 1) as nat;
        let paths = searched_in(snapshot, path);
        let each = solutions_below_each(snapshot, paths, fewer);
        lemma_add_contains(own, each, solution);
        lemma_below_each_contains(snapshot, paths, fewer, solution);
        if each.contains(solution) {
            let i = choose|i: int|
                0 <= i < paths.len() && solutions_below(
                    snapshot,
                    #[trigger] paths[i],
                    fewer,
                ).contains(solution);
            lemma_below_is_within_reach(snapshot, paths[i], fewer, solution);
            let dir = choose|dir: Seq<char>| #[trigger]
                solutions_in(snapshot, dir).contains(solution) && reaches(
                    snapshot,
                    paths[i],
                    dir,
                    fewer,
                );
            assert(searched_in(snapshot, path).contains(paths[i]));
            assert(reaches(snapshot, path, dir, levels));
        }
        if is_within_reach(snapshot, path, levels, solution) {
            let dir = choose|dir: Seq<char>| #[trigger]
                solutions_in(snapshot, dir).contains(solution) && reaches(
                    snapshot,
                    path,
                    dir,
                    levels,
                );
            if dir != path {
                let next = choose|next: Seq<char>| #[trigger]
                    searched_in(snapshot, path).contains(next) && reaches(
                        snapshot,
                        next,
                        dir,
                        fewer,
                    );
                assert(is_within_reach(snapshot, next, fewer, solution));
                lemma_below_is_within_reach(snapshot, next, fewer, solution);
                let i = choose|i: int| 0 <= i < paths.len() && paths[i] == next;
                assert(solutions_below(snapshot, paths[i], fewer).contains(solution));
            }
        }
    }
}

/// The search finds exactly the solution files of the directories it gets to from the root, at
/// most [`MAX_SOLUTION_SEARCH_DEPTH`] levels down.
pub proof fn the_search_finds_what_is_within_reach(
    snapshot: Seq<DirectoryView>,
    solution: (Seq<char>, Seq<char>),
)
    ensures
        solutions_of(snapshot).contains(solution) <==> is_within_reach(
            snapshot,
            Seq::empty(),
            MAX_SOLUTION_SEARCH_DEPTH as nat,
            solution,
        ),
{
    lemma_solutions_of_contains(snapshot, solution);
    lemma_below_is_within_reach(
        snapshot,
        Seq::empty(),
        MAX_SOLUTION_SEARCH_DEPTH as nat,
        solution,
    );
}

/// A directory is entered by the search exactly when it is listed in its parent under a name that
/// is not passed over: no dotfiles, build output, asset or package trees.
pub proof fn the_search_passes_over_directories(
    snapshot: Seq<DirectoryView>,
    from: Seq<char>,
    next: Seq<char>,
)
    ensures
        searched_in(snapshot, from).contains(next) <==> exists|name: Seq<char>|
            !is_unsearched(name) && #[trigger] entries_of(snapshot, from).contains(
                EntryView { file_name: Some(name), is_dir: true, path: next },
            ),
{
    let entries = entries_of(snapshot, from);
    let dirs = entries.map_values(|entry: EntryView| searched_dir(entry));
    lemma_present_contains(dirs, next);
    if dirs.contains(Some(next)) {
        let i = choose|i: int| 0 <= i < dirs.len() && dirs[i] == Some(next);
        let name = entries[i].file_name->0;
        assert(entries[i] == EntryView { file_name: Some(name), is_dir: true, path: next });
        assert(entries.contains(
            EntryView { file_name: Some(name), is_dir: true, path: next },
        ));
    }
    if exists|name: Seq<char>|
        !is_unsearched(name) && #[trigger] entries.contains(
            EntryView { file_name: Some(name), is_dir: true, path: next },
        ) {
        let name = choose|name: Seq<char>|
            !is_unsearched(name) && #[trigger] entries.contains(
                EntryView { file_name: Some(name), is_dir: true, path: next },
            );
        let entry = EntryView { file_name: Some(name), is_dir: true, path: next };
        let i = choose|i: int| 0 <= i < entries.len() && entries[i] == entry;
        assert(dirs[i] == Some(next));
    }
}

/// A directory is found by its path, whatever stands before it under another; where no directory
/// has the path, there are no entries.
pub proof fn directories_are_found_by_path(
    snapshot: Seq<DirectoryView>,
    path: Seq<char>,
    i: int,
)
    requires
        forall|j: int| 0 <= j < i && j < snapshot.len() ==> (#[trigger] snapshot[j]).path != path,
        0 <= i <= snapshot.len(),
    ensures
        i < snapshot.len() && snapshot[i].path == path ==> entries_of(snapshot, path)
            == snapshot[i].entries,
        i == snapshot.len() ==> entries_of(snapshot, path).len() == 0,
    decreases snapshot.len(),
{
    if snapshot.len() > 0 && i > 0 {
        let rest = snapshot.drop_first();
        assert(snapshot[0].path != path);
        assert forall|j: int| 0 <= j < i - 1 && j < rest.len() implies (#[trigger] rest[j]).path
            != path by {
            assert(rest[j] == snapshot[j + 1]);
        }
        directories_are_found_by_path(rest, path, i - 1);
    }
}

/// A worktree that holds a single directory.
pub open spec fn only_directory(path: Seq<char>, entries: Seq<EntryView>) -> Seq<DirectoryView> {
    seq![DirectoryView { path, entries }]
}

proof fn lemma_only_directory(path: Seq<char>, entries: Seq<EntryView>)
    ensures
        entries_of(only_directory(path, entries), path) == entries,
{
    directories_are_found_by_path(only_directory(path, entries), path, 0);
}

/// A listing goes entry by entry: that of two runs of entries, one after the other, is that of the
/// first followed by that of the second; an entry is shown by its name, and only nameless entries
/// and directories of build output or tooling are not. Nothing else in the worktree matters.
pub proof fn listings_go_entry_by_entry(
    snapshot: Seq<DirectoryView>,
    path: Seq<char>,
    first: Seq<EntryView>,
    second: Seq<EntryView>,
    entry: EntryView,
)
    ensures
        listing(only_directory(path, first + second), path) == listing(
            only_directory(path, first),
            path,
        ) + listing(only_directory(path, second), path),
        listing(only_directory(path, seq![entry]), path) == (match entry.file_name {
            Some(name) => if entry.is_dir && is_noise(name) {
                Seq::empty()
            } else {
                seq![(name, entry.is_dir, entry.path)]
            },
            None => Seq::empty(),
        }),
        listing(snapshot, path) == listing(
            only_directory(path, entries_of(snapshot, path)),
            path,
        ),
{
    let shown = |entry: EntryView| listed_entry(entry);
    lemma_only_directory(path, first + second);
    lemma_only_directory(path, first);
    lemma_only_directory(path, second);
    lemma_only_directory(path, seq![entry]);
    lemma_only_directory(path, entries_of(snapshot, path));
    assert((first + second).map_values(shown) == first.map_values(shown) + second.map_values(
        shown,
    ));
    lemma_present_add(first.map_values(shown), second.map_values(shown));
    let none = Seq::<Option<(Seq<char>, bool, Seq<char>)>>::empty();
    assert(seq![entry].map_values(shown) == none.push(listed_entry(entry)));
    lemma_present_push(none, listed_entry(entry));
    assert(present(none) == Seq::<(Seq<char>, bool, Seq<char>)>::empty());
}

/// The solutions of a directory are its files with the extension `sln`.
pub proof fn solutions_are_files_by_extension(
    snapshot: Seq<DirectoryView>,
    path: Seq<char>,
    name: Seq<char>,
    rel: Seq<char>,
)
    ensures
        solutions_in(snapshot, path).contains((name, rel)) <==> extension_is(name, "sln"@)
            && entries_of(snapshot, path).contains(
            EntryView { file_name: Some(name), is_dir: false, path: rel },
        ),
{
    let entries = entries_of(snapshot, path);
    let files = entries.map_values(|entry: EntryView| solution_of(entry));
    let entry = EntryView { file_name: Some(name), is_dir: false, path: rel };
    lemma_present_contains(files, (name, rel));
    if files.contains(Some((name, rel))) {
        let i = choose|i: int| 0 <= i < files.len() && files[i] == Some((name, rel));
        assert(entries[i] == entry);
    }
    if extension_is(name, "sln"@) && entries.contains(entry) {
        let i = choose|i: int| 0 <= i < entries.len() && entries[i] == entry;
        assert(files[i] == Some((name, rel)));
    }
}

/// Whether a worktree is a tree: no two entries have the same path, and none is the root.
pub open spec fn is_tree(snapshot: Seq<DirectoryView>) -> bool {
    &&& forall|p: Seq<char>, i: int, q: Seq<char>, j: int|
        0 <= i < entries_of(snapshot, p).len() && 0 <= j < entries_of(snapshot, q).len() && (
        #[trigger] entries_of(snapshot, p)[i]).path == (#[trigger] entries_of(snapshot, q)[j]).path
            ==> p == q && i == j
    &&& forall|p: Seq<char>, i: int|
        0 <= i < entries_of(snapshot, p).len() ==> (#[trigger] entries_of(snapshot, p)[i]).path.len()
            > 0
}

/// Whether `steps` steps down lead from one directory to another in the search.
spec fn walks(
    snapshot: Seq<DirectoryView>,
    from: Seq<char>,
    to: Seq<char>,
    steps: nat,
) -> bool
    decreases steps,
{
    if steps == 0 {
        from == to
    } else {
        exists|via: Seq<char>| #[trigger]
            searched_in(snapshot, via).contains(to) && walks(
                snapshot,
                from,
                via,
                (steps - 1) as nat,
            )
    }
}

proof fn lemma_walk_on(
    snapshot: Seq<DirectoryView>,
    from: Seq<char>,
    via: Seq<char>,
    to: Seq<char>,
    first: nat,
    second: nat,
)
    requires
        walks(snapshot, from, via, first),
        walks(snapshot, via, to, second),
    ensures
        walks(snapshot, from, to, first + second),
    decreases second,
{
    if second > 0 {
        let last = choose|last: Seq<char>| #[trigger]
            searched_in(snapshot, last).contains(to) && walks(
                snapshot,
                via,
                last,
                (second - 1) as nat,
            );
        lemma_walk_on(snapshot, from, via, last, first, (second - 1) as nat);
        assert((first + second - 1) as nat == first + (second - 1) as nat);
        assert(searched_in(snapshot, last).contains(to));
    }
}

proof fn lemma_walk_one(snapshot: Seq<DirectoryView>, from: Seq<char>, to: Seq<char>)
    requires
        searched_in(snapshot, from).contains(to),
    ensures
        walks(snapshot, from, to, 1),
{
    assert(walks(snapshot, from, from, 0));
}

/// In a tree a directory is entered from one place only.
proof fn lemma_one_parent(
    snapshot: Seq<DirectoryView>,
    a: Seq<char>,
    b: Seq<char>,
    child: Seq<char>,
)
    requires
        is_tree(snapshot),
        searched_in(snapshot, a).contains(child),
        searched_in(snapshot, b).contains(child),
    ensures
        a == b,
        child.len() > 0,
{
    let i = lemma_searched_entry(snapshot, a, child);
    let j = lemma_searched_entry(snapshot, b, child);
    assert(entries_of(snapshot, a)[i].path == entries_of(snapshot, b)[j].path);
}

proof fn lemma_searched_entry(
    snapshot: Seq<DirectoryView>,
    dir: Seq<char>,
    child: Seq<char>,
) -> (i: int)
    requires
        searched_in(snapshot, dir).contains(child),
    ensures
        0 <= i < entries_of(snapshot, dir).len(),
        entries_of(snapshot, dir)[i].path == child,
{
    let dirs = entries_of(snapshot, dir).map_values(|entry: EntryView| searched_dir(entry));
    lemma_present_contains(dirs, child);
    choose|i: int| 0 <= i < dirs.len() && dirs[i] == Some(child)
}

proof fn lemma_solution_entry(
    snapshot: Seq<DirectoryView>,
    dir: Seq<char>,
    solution: (Seq<char>, Seq<char>),
) -> (i: int)
    requires
        solutions_in(snapshot, dir).contains(solution),
    ensures
        0 <= i < entries_of(snapshot, dir).len(),
        entries_of(snapshot, dir)[i].path == solution.1,
{
    let files = entries_of(snapshot, dir).map_values(|entry: EntryView| solution_of(entry));
    lemma_present_contains(files, solution);
    choose|i: int| 0 <= i < files.len() && files[i] == Some(solution)
}

proof fn lemma_walks_start_together(
    snapshot: Seq<DirectoryView>,
    a: Seq<char>,
    b: Seq<char>,
    to: Seq<char>,
    steps: nat,
)
    requires
        is_tree(snapshot),
        walks(snapshot, a, to, steps),
        walks(snapshot, b, to, steps),
    ensures
        a == b,
    decreases steps,
{
    if steps > 0 {
        let fewer = (steps - 1) as nat;
        let m = choose|m: Seq<char>| #[trigger]
            searched_in(snapshot, m).contains(to) && walks(snapshot, a, m, fewer);
        let n = choose|n: Seq<char>| #[trigger]
            searched_in(snapshot, n).contains(to) && walks(snapshot, b, n, fewer);
        lemma_one_parent(snapshot, m, n, to);
        lemma_walks_start_together(snapshot, a, b, m, fewer);
    }
}

proof fn lemma_one_depth(snapshot: Seq<DirectoryView>, to: Seq<char>, i: nat, j: nat)
    requires
        is_tree(snapshot),
        walks(snapshot, Seq::empty(), to, i),
        walks(snapshot, Seq::empty(), to, j),
    ensures
        i == j,
    decreases i,
{
    let root = Seq::<char>::empty();
    if i > 0 && j > 0 {
        let m = choose|m: Seq<char>| #[trigger]
            searched_in(snapshot, m).contains(to) && walks(snapshot, root, m, (i - 1) as nat);
        let n = choose|n: Seq<char>| #[trigger]
            searched_in(snapshot, n).contains(to) && walks(snapshot, root, n, (j - 1) as nat);
        lemma_one_parent(snapshot, m, n, to);
        lemma_one_depth(snapshot, m, (i - 1) as nat, (j - 1) as nat);
    } else if i > 0 {
        let m = choose|m: Seq<char>| #[trigger]
            searched_in(snapshot, m).contains(to) && walks(snapshot, root, m, (i - 1) as nat);
        lemma_one_parent(snapshot, m, m, to);
    } else if j > 0 {
        let n = choose|n: Seq<char>| #[trigger]
            searched_in(snapshot, n).contains(to) && walks(snapshot, root, n, (j - 1) as nat);
        lemma_one_parent(snapshot, n, n, to);
    }
}

/// What is found below a directory lies in a directory that the search walks to from there.
proof fn lemma_found_by_walking(
    snapshot: Seq<DirectoryView>,
    path: Seq<char>,
    levels: nat,
    solution: (Seq<char>, Seq<char>),
) -> (found: (Seq<char>, nat))
    requires
        solutions_below(snapshot, path, levels).contains(solution),
    ensures
        walks(snapshot, path, found.0, found.1),
        solutions_in(snapshot, found.0).contains(solution),
    decreases levels,
{
    let own = solutions_in(snapshot, path);
    if own.contains(solution) {
        (path, 0)
    } else {
        let fewer = (levels - 1) as nat;
        let paths = searched_in(snapshot, path);
        lemma_add_contains(own, solutions_below_each(snapshot, paths, fewer), solution);
        lemma_below_each_contains(snapshot, paths, fewer, solution);
        let i = choose|i: int|
            0 <= i < paths.len() && solutions_below(
                snapshot,
                #[trigger] paths[i],
                fewer,
            ).contains(solution);
        let (dir, steps) = lemma_found_by_walking(snapshot, paths[i], fewer, solution);
        lemma_walk_one(snapshot, path, paths[i]);
        lemma_walk_on(snapshot, path, paths[i], dir, 1, steps);
        (dir, 1 + steps)
    }
}

proof fn lemma_present_no_duplicates<A>(s: Seq<Option<A>>)
    requires
        forall|i: int, j: int|
            0 <= i < j < s.len() && (#[trigger] s[i]) is Some ==> s[i] != #[trigger] s[j],
    ensures
        present(s).no_duplicates(),
    decreases s.len(),
{
    if s.len() > 0 {
        let rest = s.drop_last();
        assert forall|i: int, j: int|
            0 <= i < j < rest.len() && (#[trigger] rest[i]) is Some implies rest[i]
            != #[trigger] rest[j] by {
            assert(rest[i] == s[i] && rest[j] == s[j]);
        }
        lemma_present_no_duplicates(rest);
        if let Some(last) = s.last() {
            lemma_present_contains(rest, last);
            if rest.contains(Some(last)) {
                let i = choose|i: int| 0 <= i < rest.len() && rest[i] == Some(last);
                assert(s[i] == s[s.len() - 1]);
            }
        }
    }
}

proof fn lemma_add_no_duplicates<A>(s: Seq<A>, t: Seq<A>)
    requires
        s.no_duplicates(),
        t.no_duplicates(),
        forall|a: A| #[trigger] s.contains(a) ==> !t.contains(a),
    ensures
        (s + t).no_duplicates(),
{
    let all = s + t;
    assert forall|i: int, j: int| 0 <= i < all.len() && 0 <= j < all.len() && i != j implies all[i]
        != all[j] by {
        if i < s.len() && j >= s.len() {
            assert(s.contains(s[i]));
            assert(t[j - s.len()] == all[j]);
        } else if j < s.len() && i >= s.len() {
            assert(s.contains(s[j]));
            assert(t[i - s.len()] == all[i]);
        } else if i >= s.len() {
            assert(t[i - s.len()] != t[j - s.len()]);
        }
    }
}

proof fn lemma_own_no_duplicates(snapshot: Seq<DirectoryView>, path: Seq<char>)
    requires
        is_tree(snapshot),
    ensures
        solutions_in(snapshot, path).no_duplicates(),
        searched_in(snapshot, path).no_duplicates(),
{
    let entries = entries_of(snapshot, path);
    let files = entries.map_values(|entry: EntryView| solution_of(entry));
    let dirs = entries.map_values(|entry: EntryView| searched_dir(entry));
    assert forall|i: int, j: int|
        0 <= i < j < files.len() && (#[trigger] files[i]) is Some implies files[i]
        != #[trigger] files[j] by {
        assert(entries_of(snapshot, path)[i].path != entries_of(snapshot, path)[j].path);
    }
    assert forall|i: int, j: int|
        0 <= i < j < dirs.len() && (#[trigger] dirs[i]) is Some implies dirs[i]
        != #[trigger] dirs[j] by {
        assert(entries_of(snapshot, path)[i].path != entries_of(snapshot, path)[j].path);
    }
    lemma_present_no_duplicates(files);
    lemma_present_no_duplicates(dirs);
}

proof fn lemma_below_no_duplicates(
    snapshot: Seq<DirectoryView>,
    path: Seq<char>,
    depth: nat,
    levels: nat,
)
    requires
        is_tree(snapshot),
        walks(snapshot, Seq::empty(), path, depth),
    ensures
        solutions_below(snapshot, path, levels).no_duplicates(),
    decreases levels, 0nat,
{
    lemma_own_no_duplicates(snapshot, path);
    if levels > 0 {
        let root = Seq::<char>::empty();
        let fewer = (levels - 1) as nat;
        let own = solutions_in(snapshot, path);
        let paths = searched_in(snapshot, path);
        let each = solutions_below_each(snapshot, paths, fewer);
        assert forall|k: int| 0 <= k < paths.len() implies searched_in(snapshot, path).contains(
            #[trigger] paths[k],
        ) by {}
        lemma_each_no_duplicates(snapshot, path, paths, depth, fewer);
        assert forall|x: (Seq<char>, Seq<char>)| #[trigger] own.contains(x) implies !each.contains(
            x,
        ) by {
            if each.contains(x) {
                lemma_below_each_contains(snapshot, paths, fewer, x);
                let k = choose|k: int|
                    0 <= k < paths.len() && solutions_below(
                        snapshot,
                        #[trigger] paths[k],
                        fewer,
                    ).contains(x);
                let (dir, steps) = lemma_found_by_walking(snapshot, paths[k], fewer, x);
                lemma_same_directory(snapshot, path, dir, x);
                lemma_walk_one(snapshot, path, paths[k]);
                lemma_walk_on(snapshot, root, path, paths[k], depth, 1);
                lemma_walk_on(snapshot, root, paths[k], dir, depth + 1, steps);
                lemma_one_depth(snapshot, path, depth, depth + 1 + steps);
            }
        }
        lemma_add_no_duplicates(own, each);
    }
}

proof fn lemma_same_directory(
    snapshot: Seq<DirectoryView>,
    a: Seq<char>,
    b: Seq<char>,
    solution: (Seq<char>, Seq<char>),
)
    requires
        is_tree(snapshot),
        solutions_in(snapshot, a).contains(solution),
        solutions_in(snapshot, b).contains(solution),
    ensures
        a == b,
{
    let i = lemma_solution_entry(snapshot, a, solution);
    let j = lemma_solution_entry(snapshot, b, solution);
    assert(entries_of(snapshot, a)[i].path == entries_of(snapshot, b)[j].path);
}

proof fn lemma_each_no_duplicates(
    snapshot: Seq<DirectoryView>,
    parent: Seq<char>,
    paths: Seq<Seq<char>>,
    depth: nat,
    levels: nat,
)
    requires
        is_tree(snapshot),
        walks(snapshot, Seq::empty(), parent, depth),
        paths.no_duplicates(),
        forall|k: int|
            0 <= k < paths.len() ==> searched_in(snapshot, parent).contains(#[trigger] paths[k]),
    ensures
        solutions_below_each(snapshot, paths, levels).no_duplicates(),
    decreases levels, 1 + paths.len(),
{
    if paths.len() > 0 {
        let root = Seq::<char>::empty();
        let rest = paths.drop_last();
        let path = paths.last();
        assert(path == paths[paths.len() - 1]);
        assert forall|k: int| 0 <= k < rest.len() implies searched_in(snapshot, parent).contains(
            #[trigger] rest[k],
        ) by {
            assert(rest[k] == paths[k]);
        }
        lemma_walk_one(snapshot, parent, path);
        lemma_walk_on(snapshot, root, parent, path, depth, 1);
        lemma_below_no_duplicates(snapshot, path, depth + 1, levels);
        lemma_each_no_duplicates(snapshot, parent, rest, depth, levels);
        let last = solutions_below(snapshot, path, levels);
        let others = solutions_below_each(snapshot, rest, levels);
        assert forall|x: (Seq<char>, Seq<char>)| #[trigger] last.contains(x) implies !others.contains(
            x,
        ) by {
            if others.contains(x) {
                lemma_below_each_contains(snapshot, rest, levels, x);
                let k = choose|k: int|
                    0 <= k < rest.len() && solutions_below(
                        snapshot,
                        #[trigger] rest[k],
                        levels,
                    ).contains(x);
                let (a, i) = lemma_found_by_walking(snapshot, path, levels, x);
                let (b, j) = lemma_found_by_walking(snapshot, rest[k], levels, x);
                lemma_same_directory(snapshot, a, b, x);
                lemma_walk_one(snapshot, parent, rest[k]);
                lemma_walk_on(snapshot, root, parent, rest[k], depth, 1);
                lemma_walk_on(snapshot, root, path, a, depth + 1, i);
                lemma_walk_on(snapshot, root, rest[k], b, depth + 1, j);
                lemma_one_depth(snapshot, a, depth + 1 + i, depth + 1 + j);
                lemma_walks_start_together(snapshot, path, rest[k], a, i);
                assert(paths[k] == rest[k]);
            }
        }
        lemma_add_no_duplicates(last, others);
    }
}

/// In a worktree that is a tree, no solution file is found twice.
pub proof fn no_solution_is_found_twice(snapshot: Seq<DirectoryView>)
    requires
        is_tree(snapshot),
    ensures
        solutions_of(snapshot).no_duplicates(),
{
    let below = solutions_below(snapshot, Seq::empty(), MAX_SOLUTION_SEARCH_DEPTH as nat);
    let keyed = keyed_by_path(below);
    lemma_below_no_duplicates(snapshot, Seq::empty(), 0, MAX_SOLUTION_SEARCH_DEPTH as nat);
    assert(values(keyed) == below);
    sorting_keeps_the_values(keyed);
    below.lemma_multiset_has_no_duplicates();
    solutions_of(snapshot).lemma_multiset_has_no_duplicates_conv();
}

/// What the contracts see of an entry and a directory is all that they hold.
pub proof fn entries_are_seen_whole(
    snapshot: WorktreeSnapshot,
    listed: Seq<(String, bool, String)>,
    pairs: Seq<(String, String)>,
    i: int,
    j: int,
)
    ensures
        snapshot@.len() == snapshot.directories@.len(),
        0 <= i < snapshot.directories@.len() ==> snapshot@[i].path
            == snapshot.directories@[i].path@ && snapshot@[i].entries.len()
            == snapshot.directories@[i].entries@.len(),
        0 <= i < snapshot.directories@.len() && 0 <= j < snapshot.directories@[i].entries@.len()
            ==> snapshot@[i].entries[j].file_name == opt_text(
            snapshot.directories@[i].entries@[j].file_name,
        ) && snapshot@[i].entries[j].is_dir == snapshot.directories@[i].entries@[j].is_dir
            && snapshot@[i].entries[j].path == snapshot.directories@[i].entries@[j].path@,
        listing_views(listed).len() == listed.len(),
        0 <= i < listed.len() ==> listing_views(listed)[i] == (
            listed[i].0@,
            listed[i].1,
            listed[i].2@,
        ),
        pair_views(pairs).len() == pairs.len(),
        0 <= i < pairs.len() ==> pair_views(pairs)[i] == (pairs[i].0@, pairs[i].1@),
{
}

}
