//! The Solution Explorer tree: its roots, and the children of each of its containers.
//!
//! Expanding a container takes two steps. [`plan_children`] reads the container's id and says what
//! has to be at hand: the text of a file, the listing of a directory. With that,
//! [`ChildrenPlan::nodes`] gives the children. Their locations are as the files name them; whether
//! the host accepts each as a relative path is settled afterwards, by
//! [`check_paths`](crate::provider::check_paths).

use crate::items::{
    a_level_is_as_long_as_its_parts, directories_below, every_listed_file_is_shown, files_below,
    item_directory_node, item_directory_rel, item_level, item_nodes, ordered_files, ordered_names,
    remainder,
};
use crate::node_id::{
    decode_id, decoded, decoding_undoes_encoding, encoded, tags_are_distinct, NodeKind,
};
use crate::nodes::{
    dependencies_node, dependencies_node_of, dependency_nodes, dependency_nodes_of, dir_nodes,
    each_listed_node, each_listed_project, every_dependency_is_shown, file_id,
    listed_entries_are_shown_in_turn, listed_node_of, listed_nodes, listed_project_nodes,
    listed_projects, owned_id, project_node, project_node_of, solution_node, solution_node_of,
};
use crate::parse::{
    a_line_gives_what_it_declares, csproj_of_text, declared_project, parse_csproj, parse_solution,
    project_views, solution_projects, solutions_are_read_line_by_line, CsprojInfo, CsprojInfoView,
    SolutionProjectView,
};
use crate::paths::{
    extension_is, is_noise, join_rel, joined, parent_dir, parent_of, reference_target,
};
use crate::provider::{node_views, NodeView, ProjectPanelViewNode, ProjectPathView};
use crate::text::{
    cut, find_first, lemma_first_index, lemma_present_contains, lemma_split_once_at, opt_text,
    present, same_text, split_once, to_chars, to_text,
};
use crate::worktree::{
    entries_of, listing, listings_go_entry_by_entry, listings_hide_only_noise, only_directory,
    pair_views, solutions_of, DirectoryView, EntryView, WorktreeSnapshot,
};
use vstd::prelude::*;

verus! {

/// The id under which the tree is registered; referenced by a `project_panel_views` entry
/// `{ "name": "Solution", "provider": "solution" }` in settings.
pub const PROVIDER_ID: &'static str = "solution";

/// What the tree is called in the panel.
pub const DISPLAY_NAME: &'static str = "Solution";

/// How the children of a container are found, read off its id.
#[derive(Debug, Clone, PartialEq, Eq)]
pub enum ChildrenPlan {
    /// There are none: the id is not a container's.
    Nothing,
    /// The projects of the `.sln` file at `rel`.
    Solution { worktree_id: u64, rel: String },
    /// The dependencies and the sources of the `.csproj` file at `rel`.
    Project { worktree_id: u64, rel: String },
    /// The package and project references of the `.csproj` file at `rel`.
    Dependencies { worktree_id: u64, rel: String },
    /// The entries of the directory at `rel`.
    Directory { worktree_id: u64, rel: String },
    /// The items of the `.csproj` file at `csproj_rel` below its virtual directory `subdir`.
    ItemDirectory { worktree_id: u64, csproj_rel: String, subdir: String },
}

// ---------------------------------------------------------------------------------------------
// Specifications
// ---------------------------------------------------------------------------------------------

/// A [`ChildrenPlan`] as the contracts see it.
pub enum PlanView {
    Nothing,
    Solution { worktree_id: u64, rel: Seq<char> },
    Project { worktree_id: u64, rel: Seq<char> },
    Dependencies { worktree_id: u64, rel: Seq<char> },
    Directory { worktree_id: u64, rel: Seq<char> },
    ItemDirectory { worktree_id: u64, csproj_rel: Seq<char>, subdir: Seq<char> },
}

impl View for ChildrenPlan {
    type V = PlanView;

    open spec fn view(&self) -> PlanView {
        match self {
            ChildrenPlan::Nothing => PlanView::Nothing,
            ChildrenPlan::Solution { worktree_id, rel } => PlanView::Solution {
                worktree_id: *worktree_id,
                rel: rel@,
            },
            ChildrenPlan::Project { worktree_id, rel } => PlanView::Project {
                worktree_id: *worktree_id,
                rel: rel@,
            },
            ChildrenPlan::Dependencies { worktree_id, rel } => PlanView::Dependencies {
                worktree_id: *worktree_id,
                rel: rel@,
            },
            ChildrenPlan::Directory { worktree_id, rel } => PlanView::Directory {
                worktree_id: *worktree_id,
                rel: rel@,
            },
            ChildrenPlan::ItemDirectory {
                worktree_id,
                csproj_rel,
                subdir,
            } => PlanView::ItemDirectory {
                worktree_id: *worktree_id,
                csproj_rel: csproj_rel@,
                subdir: subdir@,
            },
        }
    }
}

/// How the children of the node with the given id are found.
#[verifier::opaque]
pub open spec fn planned(id: Seq<char>) -> PlanView {
    match decoded(id) {
        None => PlanView::Nothing,
        Some((tag, worktree_id, rel)) => if tag == "sln"@ {
            PlanView::Solution { worktree_id, rel }
        } else if tag == "proj"@ {
            PlanView::Project { worktree_id, rel }
        } else if tag == "deps"@ {
            PlanView::Dependencies { worktree_id, rel }
        } else if tag == "dir"@ {
            PlanView::Directory { worktree_id, rel }
        } else if tag == "itemdir"@ {
            match split_once(rel, '|') {
                None => PlanView::Nothing,
                Some((csproj_rel, subdir)) => PlanView::ItemDirectory {
                    worktree_id,
                    csproj_rel,
                    subdir,
                },
            }
        } else {
            PlanView::Nothing
        },
    }
}

impl PlanView {
    /// The file whose text the children are read off.
    pub open spec fn file(self) -> Option<Seq<char>> {
        match self {
            PlanView::Solution { rel, .. } => Some(rel),
            PlanView::Project { rel, .. } => Some(rel),
            PlanView::Dependencies { rel, .. } => Some(rel),
            PlanView::ItemDirectory { csproj_rel, .. } => Some(csproj_rel),
            PlanView::Directory { .. } => None,
            PlanView::Nothing => None,
        }
    }

    /// The worktree that the plan is about.
    pub open spec fn worktree(self) -> Option<u64> {
        match self {
            PlanView::Solution { worktree_id, .. } => Some(worktree_id),
            PlanView::Project { worktree_id, .. } => Some(worktree_id),
            PlanView::Dependencies { worktree_id, .. } => Some(worktree_id),
            PlanView::ItemDirectory { worktree_id, .. } => Some(worktree_id),
            PlanView::Directory { worktree_id, .. } => Some(worktree_id),
            PlanView::Nothing => None,
        }
    }

    /// The directory whose listing the children may come from.
    pub open spec fn directory(self) -> Option<Seq<char>> {
        match self {
            PlanView::Project { rel, .. } => Some(parent_of(rel)),
            PlanView::Directory { rel, .. } => Some(rel),
            _ => None,
        }
    }
}

/// The children of a solution: its projects, at paths relative to the solution's directory.
pub open spec fn solution_children_of(
    worktree_id: u64,
    rel: Seq<char>,
    projects: Seq<SolutionProjectView>,
) -> Seq<NodeView> {
    Seq::new(
        projects.len(),
        |i: int|
            project_node_of(
                worktree_id,
                projects[i].name,
                joined(parent_of(rel), projects[i].csproj_rel),
            ),
    )
}

/// The children of a project: its dependencies, then its sources. An SDK-style project compiles
/// its directory, so that is listed; a legacy project shows the items its file names.
pub open spec fn project_children_of(
    worktree_id: u64,
    rel: Seq<char>,
    info: CsprojInfoView,
    snapshot: Seq<DirectoryView>,
) -> Seq<NodeView> {
    seq![dependencies_node_of(worktree_id, rel)] + (if info.is_sdk_style {
        listed_nodes(worktree_id, listing(snapshot, parent_of(rel)))
    } else {
        item_level(worktree_id, rel, info.compile_items, Seq::empty())
    })
}

/// The children that a plan leads to, given the text of its file and what is in its directory.
pub open spec fn children_of(
    plan: PlanView,
    text: Seq<char>,
    snapshot: Seq<DirectoryView>,
) -> Seq<NodeView> {
    match plan {
        PlanView::Nothing => Seq::empty(),
        PlanView::Solution { worktree_id, rel } => solution_children_of(
            worktree_id,
            rel,
            solution_projects(text),
        ),
        PlanView::Project { worktree_id, rel } => project_children_of(
            worktree_id,
            rel,
            csproj_of_text(text),
            snapshot,
        ),
        PlanView::Dependencies { worktree_id, rel } => dependency_nodes_of(
            worktree_id,
            rel,
            csproj_of_text(text),
        ),
        PlanView::Directory { worktree_id, rel } => listed_nodes(
            worktree_id,
            listing(snapshot, rel),
        ),
        PlanView::ItemDirectory { worktree_id, csproj_rel, subdir } => item_level(
            worktree_id,
            csproj_rel,
            csproj_of_text(text).compile_items,
            subdir,
        ),
    }
}

/// The roots of the tree: one per solution file found in the worktree; when there is none, the
/// projects at its top level.
pub open spec fn roots_of(worktree_id: u64, snapshot: Seq<DirectoryView>) -> Seq<NodeView> {
    let solutions = solutions_of(snapshot);
    if solutions.len() > 0 {
        Seq::new(
            solutions.len(),
            |i: int| solution_node_of(worktree_id, solutions[i].0, solutions[i].1),
        )
    } else {
        listed_projects(worktree_id, listing(snapshot, Seq::empty()))
    }
}

// ---------------------------------------------------------------------------------------------
// Roots and children
// ---------------------------------------------------------------------------------------------

/// Root nodes: one per `.sln` found in the worktree, or (fallback) top-level `.csproj` projects.
pub fn root_nodes(worktree_id: u64, snapshot: &WorktreeSnapshot) -> (nodes: Vec<
    ProjectPanelViewNode,
>)
    ensures
        node_views(nodes@) == roots_of(worktree_id, snapshot@),
{
    let solutions = snapshot.find_solutions();
    if solutions.len() > 0 {
        let mut nodes: Vec<ProjectPanelViewNode> = Vec::new();
        let ghost found = solutions_of(snapshot@);
        for i in 0..solutions.len()
            invariant
                solutions@.len() > 0,
                found == solutions_of(snapshot@),
                pair_views(solutions@) == found,
                node_views(nodes@) == roots_of(worktree_id, snapshot@).take(i as int),
        {
            let ghost before = node_views(nodes@);
            assert(found[i as int] == (solutions@[i as int].0@, solutions@[i as int].1@));
            nodes.push(
                solution_node(worktree_id, solutions[i].0.as_str(), solutions[i].1.as_str()),
            );
            assert(node_views(nodes@) == before.push(roots_of(worktree_id, snapshot@)[i as int]));
        }
        return nodes;
    }
    // No solution file: surface top-level projects directly.
    proof {
        reveal_strlit("");
        assert(""@ == Seq::<char>::empty());
    }
    listed_project_nodes(worktree_id, &snapshot.list_dir(""))
}

/// Reads off a node's id how its children are found.
pub fn plan_children(id: &str) -> (plan: ChildrenPlan)
    ensures
        plan@ == planned(id@),
{
    reveal(planned);
    let (tag, worktree_id, rel) = match decode_id(id) {
        Some(parts) => parts,
        None => return ChildrenPlan::Nothing,
    };
    let tag = tag.as_str();
    if same_text(tag, "sln") {
        ChildrenPlan::Solution { worktree_id, rel }
    } else if same_text(tag, "proj") {
        ChildrenPlan::Project { worktree_id, rel }
    } else if same_text(tag, "deps") {
        ChildrenPlan::Dependencies { worktree_id, rel }
    } else if same_text(tag, "dir") {
        ChildrenPlan::Directory { worktree_id, rel }
    } else if same_text(tag, "itemdir") {
        let chars = to_chars(rel.as_str());
        let end = chars.len();
        let bar = find_first(chars.as_slice(), '|');
        if bar == end {
            return ChildrenPlan::Nothing;
        }
        let csproj_rel = cut(chars.as_slice(), 0, bar);
        let subdir = cut(chars.as_slice(), bar + 1, end);
        assert(csproj_rel@ == rel@.take(bar as int));
        assert(subdir@ == rel@.skip(bar + 1));
        ChildrenPlan::ItemDirectory {
            worktree_id,
            csproj_rel: to_text(csproj_rel.as_slice()),
            subdir: to_text(subdir.as_slice()),
        }
    } else {
        ChildrenPlan::Nothing
    }
}

/// The children of a solution, from the text of its file.
pub fn solution_children(worktree_id: u64, rel: &str, text: &str) -> (nodes: Vec<
    ProjectPanelViewNode,
>)
    ensures
        node_views(nodes@) == solution_children_of(worktree_id, rel@, solution_projects(text@)),
{
    let base = parent_dir(rel);
    let projects = parse_solution(text);
    let ghost views = project_views(projects@);
    let mut nodes: Vec<ProjectPanelViewNode> = Vec::new();
    for i in 0..projects.len()
        invariant
            base@ == parent_of(rel@),
            views == project_views(projects@),
            node_views(nodes@) == solution_children_of(worktree_id, rel@, views).take(i as int),
    {
        let ghost before = node_views(nodes@);
        assert(views[i as int] == projects@[i as int]@);
        let csproj_rel = join_rel(base.as_str(), projects[i].csproj_rel.as_str());
        nodes.push(project_node(worktree_id, projects[i].name.as_str(), csproj_rel.as_str()));
        assert(node_views(nodes@) == before.push(
            solution_children_of(worktree_id, rel@, views)[i as int],
        ));
    }
    nodes
}

/// The children of a project, from what its file says and what is in its directory. Legacy
/// projects (e.g. Unity-generated) share one directory with every other project of the solution,
/// so their tree is built from explicit compile items rather than a directory listing.
pub fn project_children(
    worktree_id: u64,
    rel: &str,
    info: &CsprojInfo,
    snapshot: &WorktreeSnapshot,
) -> (nodes: Vec<ProjectPanelViewNode>)
    ensures
        node_views(nodes@) == project_children_of(worktree_id, rel@, info@, snapshot@),
{
    let mut nodes: Vec<ProjectPanelViewNode> = Vec::new();
    nodes.push(dependencies_node(worktree_id, rel));
    let ghost first = node_views(nodes@);
    assert(first == seq![dependencies_node_of(worktree_id, rel@)]);
    let mut sources = if info.is_sdk_style {
        dir_nodes(worktree_id, &snapshot.list_dir(parent_dir(rel).as_str()))
    } else {
        proof {
            reveal_strlit("");
            assert(""@ == Seq::<char>::empty());
        }
        item_nodes(worktree_id, rel, &info.compile_items, "")
    };
    let ghost rest = node_views(sources@);
    nodes.append(&mut sources);
    assert(node_views(nodes@) == first + rest);
    nodes
}

impl ChildrenPlan {
    /// The file whose text [`ChildrenPlan::nodes`] needs, if it needs one.
    pub fn file_to_load(&self) -> (file: Option<&str>)
        ensures
            match self@.file() {
                Some(path) => file matches Some(file) && file@ == path,
                None => file is None,
            },
    {
        match self {
            ChildrenPlan::Solution { rel, .. } => Some(rel.as_str()),
            ChildrenPlan::Project { rel, .. } => Some(rel.as_str()),
            ChildrenPlan::Dependencies { rel, .. } => Some(rel.as_str()),
            ChildrenPlan::ItemDirectory { csproj_rel, .. } => Some(csproj_rel.as_str()),
            ChildrenPlan::Directory { .. } => None,
            ChildrenPlan::Nothing => None,
        }
    }

    /// The directory whose entries [`ChildrenPlan::nodes`] may look at, if there is one. A
    /// snapshot that holds no other directory is enough.
    pub fn directory_to_list(&self) -> (directory: Option<String>)
        ensures
            opt_text(directory) == self@.directory(),
    {
        match self {
            ChildrenPlan::Project { rel, .. } => Some(parent_dir(rel.as_str())),
            ChildrenPlan::Directory { rel, .. } => Some(rel.clone()),
            _ => None,
        }
    }

    /// The children, given the text of the file and what is in the directory. Where the plan asks
    /// for no file, the text is of no account.
    pub fn nodes(&self, text: &str, snapshot: &WorktreeSnapshot) -> (nodes: Vec<
        ProjectPanelViewNode,
    >)
        ensures
            node_views(nodes@) == children_of(self@, text@, snapshot@),
    {
        match self {
            ChildrenPlan::Nothing => {
                let nodes: Vec<ProjectPanelViewNode> = Vec::new();
                assert(node_views(nodes@) == Seq::<NodeView>::empty());
                nodes
            },
            ChildrenPlan::Solution { worktree_id, rel } => solution_children(
                *worktree_id,
                rel.as_str(),
                text,
            ),
            ChildrenPlan::Project { worktree_id, rel } => {
                let info = parse_csproj(text);
                project_children(*worktree_id, rel.as_str(), &info, snapshot)
            },
            ChildrenPlan::Dependencies { worktree_id, rel } => {
                let info = parse_csproj(text);
                dependency_nodes(*worktree_id, rel.as_str(), &info)
            },
            ChildrenPlan::Directory { worktree_id, rel } => dir_nodes(
                *worktree_id,
                &snapshot.list_dir(rel.as_str()),
            ),
            ChildrenPlan::ItemDirectory { worktree_id, csproj_rel, subdir } => {
                let info = parse_csproj(text);
                item_nodes(*worktree_id, csproj_rel.as_str(), &info.compile_items, subdir.as_str())
            },
        }
    }
}

// ---------------------------------------------------------------------------------------------
// Laws
// ---------------------------------------------------------------------------------------------

proof fn lemma_tag_texts()
    ensures
        "sln"@ != "proj"@,
        "sln"@ != "deps"@,
        "sln"@ != "dir"@,
        "sln"@ != "itemdir"@,
        "proj"@ != "deps"@,
        "proj"@ != "dir"@,
        "proj"@ != "itemdir"@,
        "deps"@ != "dir"@,
        "deps"@ != "itemdir"@,
        "dir"@ != "itemdir"@,
{
    tags_are_distinct_texts(NodeKind::Solution, NodeKind::Project);
    tags_are_distinct_texts(NodeKind::Solution, NodeKind::Dependencies);
    tags_are_distinct_texts(NodeKind::Solution, NodeKind::Directory);
    tags_are_distinct_texts(NodeKind::Solution, NodeKind::ItemDirectory);
    tags_are_distinct_texts(NodeKind::Project, NodeKind::Dependencies);
    tags_are_distinct_texts(NodeKind::Project, NodeKind::Directory);
    tags_are_distinct_texts(NodeKind::Project, NodeKind::ItemDirectory);
    tags_are_distinct_texts(NodeKind::Dependencies, NodeKind::Directory);
    tags_are_distinct_texts(NodeKind::Dependencies, NodeKind::ItemDirectory);
    tags_are_distinct_texts(NodeKind::Directory, NodeKind::ItemDirectory);
}

proof fn tags_are_distinct_texts(a: NodeKind, b: NodeKind)
    ensures
        a.tag_text() == b.tag_text() ==> a == b,
{
    if a.tag_text() == b.tag_text() {
        tags_are_distinct(a, b);
    }
}

/// Expanding the node of a solution leads to the solution file it was made from.
pub proof fn solutions_expand(worktree_id: u64, name: Seq<char>, rel: Seq<char>)
    ensures
        planned(solution_node_of(worktree_id, name, rel).id) == (PlanView::Solution {
            worktree_id,
            rel,
        }),
{
    reveal(planned);
    decoding_undoes_encoding(NodeKind::Solution, worktree_id, rel);
}

/// Expanding the node of a project leads to the project file it was made from.
pub proof fn projects_expand(worktree_id: u64, name: Seq<char>, rel: Seq<char>)
    ensures
        planned(project_node_of(worktree_id, name, rel).id) == (PlanView::Project {
            worktree_id,
            rel,
        }),
{
    reveal(planned);
    decoding_undoes_encoding(NodeKind::Project, worktree_id, rel);
    lemma_tag_texts();
}

/// Expanding a "Dependencies" node leads to the project file it was made from.
pub proof fn dependencies_expand(worktree_id: u64, rel: Seq<char>)
    ensures
        planned(dependencies_node_of(worktree_id, rel).id) == (PlanView::Dependencies {
            worktree_id,
            rel,
        }),
{
    reveal(planned);
    decoding_undoes_encoding(NodeKind::Dependencies, worktree_id, rel);
    lemma_tag_texts();
}

/// Expanding the node of a directory leads to that directory.
pub proof fn directories_expand(worktree_id: u64, name: Seq<char>, rel: Seq<char>)
    ensures
        listed_node_of(worktree_id, (name, true, rel)) matches Some(node) && planned(node.id)
            == (PlanView::Directory { worktree_id, rel }),
{
    reveal(planned);
    decoding_undoes_encoding(NodeKind::Directory, worktree_id, rel);
    lemma_tag_texts();
}

/// Expanding the node of a virtual directory leads to that directory of its project, as long as
/// the path of the project file holds no `|`.
pub proof fn item_directories_expand(
    worktree_id: u64,
    csproj_rel: Seq<char>,
    prefix: Seq<char>,
    name: Seq<char>,
)
    requires
        !csproj_rel.contains('|'),
    ensures
        planned(item_directory_node(worktree_id, csproj_rel, prefix, name).id) == (
        PlanView::ItemDirectory { worktree_id, csproj_rel, subdir: joined(prefix, name) }),
{
    lemma_item_directories_plan(worktree_id, csproj_rel, joined(prefix, name));
    lemma_split_once_at(csproj_rel, '|', joined(prefix, name));
}

/// The id of a virtual directory leads to some virtual directory, whatever the paths hold.
proof fn lemma_item_directories_plan(worktree_id: u64, csproj_rel: Seq<char>, subdir: Seq<char>)
    ensures
        ({
            let rel = item_directory_rel(csproj_rel, subdir);
            split_once(rel, '|') matches Some((owner, below)) && planned(
                encoded(NodeKind::ItemDirectory, worktree_id, rel),
            ) == (PlanView::ItemDirectory { worktree_id, csproj_rel: owner, subdir: below })
        }),
{
    let rel = item_directory_rel(csproj_rel, subdir);
    reveal(planned);
    decoding_undoes_encoding(NodeKind::ItemDirectory, worktree_id, rel);
    lemma_tag_texts();
    lemma_first_index(rel, '|');
    assert(rel[csproj_rel.len() as int] == '|');
}

/// A tag that no container has.
spec fn is_leaf_tag(tag: Seq<char>) -> bool {
    tag == "file"@ || tag == "pkg"@ || tag == "projref"@ || tag == "item"@
}

proof fn lemma_leaf_tag(tag: Seq<char>, rest: Seq<char>)
    requires
        is_leaf_tag(tag),
    ensures
        planned(tag.push('|') + rest) is Nothing,
{
    reveal(planned);
    reveal_strlit("sln");
    reveal_strlit("proj");
    reveal_strlit("deps");
    reveal_strlit("dir");
    reveal_strlit("itemdir");
    reveal_strlit("file");
    reveal_strlit("pkg");
    reveal_strlit("projref");
    reveal_strlit("item");
    assert(!tag.contains('|'));
    lemma_split_once_at(tag, '|', rest);
    assert("file"@[0] == 'f' && "pkg"@[1] == 'k' && "projref"@.len() == 7 && "item"@.len() == 4);
    assert("sln"@[0] == 's' && "proj"@.len() == 4 && "deps"@[0] == 'd' && "dir"@[0] == 'd'
        && "itemdir"@.len() == 7);
    assert("item"@[0] == 'i' && "projref"@[0] == 'p' && "proj"@[0] == 'p' && "itemdir"@[0] == 'i');
    assert("pkg"@.len() == 3 && "pkg"@[0] == 'p');
}

/// Leaves have no children: the id of a file, a package, a project reference or a listed item
/// leads nowhere, whatever the paths hold.
pub proof fn leaves_do_not_expand(owner: Seq<char>, what: Seq<char>)
    ensures
        planned(file_id(what)) is Nothing,
        planned(owned_id("pkg"@, owner, what)) is Nothing,
        planned(owned_id("projref"@, owner, what)) is Nothing,
        planned(owned_id("item"@, owner, what)) is Nothing,
{
    lemma_leaf_tag("file"@, what);
    lemma_leaf_tag("pkg"@, owner.push('|') + what);
    lemma_leaf_tag("projref"@, owner.push('|') + what);
    lemma_leaf_tag("item"@, owner.push('|') + what);
}

/// Whether a node is a sound part of the tree of a worktree: it is a container exactly when its id
/// leads somewhere, all that it leads to or opens is in the worktree, and it leaves its icon to
/// the host when there is a file behind it.
pub open spec fn is_sound(node: NodeView, worktree_id: u64) -> bool {
    &&& node.is_container <==> !(planned(node.id) is Nothing)
    &&& node.is_container ==> planned(node.id).worktree() == Some(worktree_id)
    &&& node.project_path matches Some(location) ==> location.worktree_id == worktree_id
        && node.icon is None
}

proof fn lemma_listed_are_sound(
    worktree_id: u64,
    listed: Seq<(Seq<char>, bool, Seq<char>)>,
    node: NodeView,
)
    requires
        listed_nodes(worktree_id, listed).contains(node),
    ensures
        is_sound(node, worktree_id),
{
    let each = each_listed_node(worktree_id, listed);
    lemma_present_contains(each, node);
    let i = choose|i: int| 0 <= i < each.len() && each[i] == Some(node);
    let (name, is_dir, rel) = listed[i];
    directories_expand(worktree_id, name, rel);
    leaves_do_not_expand(Seq::empty(), rel);
}

proof fn lemma_items_are_sound(
    worktree_id: u64,
    csproj_rel: Seq<char>,
    items: Seq<Seq<char>>,
    prefix: Seq<char>,
    i: int,
)
    requires
        0 <= i < item_level(worktree_id, csproj_rel, items, prefix).len(),
    ensures
        is_sound(item_level(worktree_id, csproj_rel, items, prefix)[i], worktree_id),
{
    let names = ordered_names(directories_below(items, prefix));
    let files = ordered_files(files_below(items, prefix));
    if i < names.len() {
        lemma_item_directories_plan(worktree_id, csproj_rel, joined(prefix, names[i]));
    } else {
        leaves_do_not_expand(csproj_rel, files[i - names.len()].1);
    }
}

/// Every child of every container is a sound part of the tree: it can be expanded exactly when it
/// is a container, it stays in the worktree of its parent, and it carries an icon of its own only
/// when there is no file behind it.
pub proof fn children_are_sound(
    plan: PlanView,
    text: Seq<char>,
    snapshot: Seq<DirectoryView>,
    i: int,
)
    requires
        0 <= i < children_of(plan, text, snapshot).len(),
    ensures
        plan.worktree() is Some,
        is_sound(children_of(plan, text, snapshot)[i], plan.worktree()->0),
{
    let node = children_of(plan, text, snapshot)[i];
    let info = csproj_of_text(text);
    match plan {
        PlanView::Nothing => {},
        PlanView::Solution { worktree_id, rel } => {
            let project = solution_projects(text)[i];
            projects_expand(
                worktree_id,
                project.name,
                joined(parent_of(rel), project.csproj_rel),
            );
        },
        PlanView::Project { worktree_id, rel } => {
            if i == 0 {
                dependencies_expand(worktree_id, rel);
            } else if info.is_sdk_style {
                let listed = listing(snapshot, parent_of(rel));
                assert(listed_nodes(worktree_id, listed)[i - 1] == node);
                lemma_listed_are_sound(worktree_id, listed, node);
            } else {
                lemma_items_are_sound(worktree_id, rel, info.compile_items, Seq::empty(), i - 1);
            }
        },
        PlanView::Dependencies { worktree_id, rel } => {
            let packages = info.package_references;
            if i < packages.len() {
                leaves_do_not_expand(rel, packages[i].0);
            } else {
                let reference = info.project_references[i - packages.len()];
                leaves_do_not_expand(rel, reference_target(parent_of(rel), reference));
            }
        },
        PlanView::Directory { worktree_id, rel } => {
            lemma_listed_are_sound(worktree_id, listing(snapshot, rel), node);
        },
        PlanView::ItemDirectory { worktree_id, csproj_rel, subdir } => {
            lemma_items_are_sound(worktree_id, csproj_rel, info.compile_items, subdir, i);
        },
    }
}

/// Every root can be expanded: it leads to the solution or project file it was made from.
pub proof fn roots_expand(worktree_id: u64, snapshot: Seq<DirectoryView>, i: int)
    requires
        0 <= i < roots_of(worktree_id, snapshot).len(),
    ensures
        is_sound(roots_of(worktree_id, snapshot)[i], worktree_id),
        roots_of(worktree_id, snapshot)[i].is_container,
        roots_of(worktree_id, snapshot)[i].project_path matches Some(location)
            && location.worktree_id == worktree_id && planned(roots_of(worktree_id, snapshot)[i].id)
            == (if solutions_of(snapshot).len() > 0 {
            PlanView::Solution { worktree_id, rel: location.path }
        } else {
            PlanView::Project { worktree_id, rel: location.path }
        }),
{
    let solutions = solutions_of(snapshot);
    let node = roots_of(worktree_id, snapshot)[i];
    if solutions.len() > 0 {
        solutions_expand(worktree_id, solutions[i].0, solutions[i].1);
    } else {
        let listed = listing(snapshot, Seq::empty());
        let each = each_listed_project(worktree_id, listed);
        assert(listed_projects(worktree_id, listed).contains(node));
        lemma_present_contains(each, node);
        let k = choose|k: int| 0 <= k < each.len() && each[k] == Some(node);
        projects_expand(worktree_id, listed[k].0, listed[k].2);
    }
}

/// The children of a project always start with its "Dependencies" node.
pub proof fn projects_show_their_dependencies_first(
    worktree_id: u64,
    rel: Seq<char>,
    text: Seq<char>,
    snapshot: Seq<DirectoryView>,
)
    ensures
        ({
            let children = children_of(PlanView::Project { worktree_id, rel }, text, snapshot);
            children.len() > 0 && children[0] == dependencies_node_of(worktree_id, rel)
        }),
{
}

/// Listed directories show neither solution nor project files, which have nodes of their own, and
/// no directory of build output or tooling.
pub proof fn listings_show_sources_only(
    worktree_id: u64,
    snapshot: Seq<DirectoryView>,
    path: Seq<char>,
    node: NodeView,
)
    requires
        listed_nodes(worktree_id, listing(snapshot, path)).contains(node),
    ensures
        node.is_container ==> !is_noise(node.title),
        !node.is_container ==> !extension_is(node.title, "sln"@) && !extension_is(
            node.title,
            "csproj"@,
        ),
{
    let listed = listing(snapshot, path);
    let each = each_listed_node(worktree_id, listed);
    lemma_present_contains(each, node);
    let i = choose|i: int| 0 <= i < each.len() && each[i] == Some(node);
    let (name, is_dir, rel) = listed[i];
    assert(listed.contains((name, is_dir, rel)));
    listings_hide_only_noise(snapshot, path, name, is_dir, rel);
}

/// What a listed directory does show: every other entry with a name.
pub proof fn listings_show_every_source(
    worktree_id: u64,
    snapshot: Seq<DirectoryView>,
    path: Seq<char>,
    entry: EntryView,
)
    requires
        entries_of(snapshot, path).contains(entry),
        entry.file_name matches Some(name) && (if entry.is_dir {
            !is_noise(name)
        } else {
            !extension_is(name, "sln"@) && !extension_is(name, "csproj"@)
        }),
    ensures
        listed_node_of(worktree_id, (entry.file_name->0, entry.is_dir, entry.path)) matches Some(
            node,
        ) && listed_nodes(worktree_id, listing(snapshot, path)).contains(node),
{
    let name = entry.file_name->0;
    let item = (name, entry.is_dir, entry.path);
    let listed = listing(snapshot, path);
    let each = each_listed_node(worktree_id, listed);
    assert(entry == EntryView { file_name: Some(name), is_dir: entry.is_dir, path: entry.path });
    listings_hide_only_noise(snapshot, path, name, entry.is_dir, entry.path);
    let i = choose|i: int| 0 <= i < listed.len() && listed[i] == item;
    let node = listed_node_of(worktree_id, item)->0;
    assert(each[i] == Some(node));
    lemma_present_contains(each, node);
}

/// A legacy project shows the items it names, whatever is in its directory.
pub proof fn legacy_projects_ignore_their_directory(
    worktree_id: u64,
    rel: Seq<char>,
    info: CsprojInfoView,
    snapshot: Seq<DirectoryView>,
    other: Seq<DirectoryView>,
)
    requires
        !info.is_sdk_style,
    ensures
        project_children_of(worktree_id, rel, info, snapshot) == project_children_of(
            worktree_id,
            rel,
            info,
            other,
        ),
{
}

/// An SDK-style project shows its directory, whatever items it names.
pub proof fn sdk_projects_ignore_their_items(
    worktree_id: u64,
    rel: Seq<char>,
    info: CsprojInfoView,
    other: CsprojInfoView,
    snapshot: Seq<DirectoryView>,
)
    requires
        info.is_sdk_style,
        other.is_sdk_style,
    ensures
        project_children_of(worktree_id, rel, info, snapshot) == project_children_of(
            worktree_id,
            rel,
            other,
            snapshot,
        ),
{
}

/// A plan needs no more than it asks for: the text of its file, and the entries of its directory.
pub proof fn plans_need_what_they_ask_for(
    plan: PlanView,
    text: Seq<char>,
    snapshot: Seq<DirectoryView>,
    other_text: Seq<char>,
    other: Seq<DirectoryView>,
)
    requires
        plan.file() is Some ==> text == other_text,
        plan.directory() matches Some(path) ==> entries_of(snapshot, path) == entries_of(
            other,
            path,
        ),
    ensures
        children_of(plan, text, snapshot) == children_of(plan, other_text, other),
{
}

/// A solution shows every project that it declares, once and in order: a container under the
/// project's name, opening the project file where it lies beneath the solution's directory.
pub proof fn every_project_of_a_solution_is_shown(
    worktree_id: u64,
    rel: Seq<char>,
    projects: Seq<SolutionProjectView>,
    i: int,
)
    ensures
        solution_children_of(worktree_id, rel, projects).len() == projects.len(),
        0 <= i < projects.len() ==> ({
            let node = solution_children_of(worktree_id, rel, projects)[i];
            let path = joined(parent_of(rel), projects[i].csproj_rel);
            &&& node.title == projects[i].name
            &&& node.is_container
            &&& node.icon is None
            &&& node.project_path == Some(ProjectPathView { worktree_id, path })
            &&& planned(node.id) == PlanView::Project { worktree_id, rel: path }
        }),
{
    if 0 <= i < projects.len() {
        projects_expand(
            worktree_id,
            projects[i].name,
            joined(parent_of(rel), projects[i].csproj_rel),
        );
    }
}

/// Expanding a solution reads its file line by line: the children for two texts, one after the
/// other on lines of their own, are those for the first followed by those for the second, and a
/// line that declares a project gives one child. What is in the worktree makes no difference.
pub proof fn solutions_show_their_lines_in_turn(
    worktree_id: u64,
    rel: Seq<char>,
    first: Seq<char>,
    second: Seq<char>,
    line: Seq<char>,
    snapshot: Seq<DirectoryView>,
)
    requires
        !line.contains('\n'),
    ensures
        ({
            let plan = PlanView::Solution { worktree_id, rel };
            &&& children_of(plan, first.push('\n') + second, snapshot) == children_of(
                plan,
                first,
                snapshot,
            ) + children_of(plan, second, snapshot)
            &&& match declared_project(line) {
                None => children_of(plan, line, snapshot).len() == 0,
                Some(project) => {
                    let path = joined(parent_of(rel), project.csproj_rel);
                    let children = children_of(plan, line, snapshot);
                    &&& children.len() == 1
                    &&& children[0].title == project.name
                    &&& children[0].project_path == Some(ProjectPathView { worktree_id, path })
                    &&& planned(children[0].id) == PlanView::Project { worktree_id, rel: path }
                },
            }
        }),
{
    let plan = PlanView::Solution { worktree_id, rel };
    solutions_are_read_line_by_line(first, second);
    assert(children_of(plan, first.push('\n') + second, snapshot) =~= children_of(
        plan,
        first,
        snapshot,
    ) + children_of(plan, second, snapshot));
    a_line_gives_what_it_declares(line);
    every_project_of_a_solution_is_shown(worktree_id, rel, solution_projects(line), 0);
}

/// After its dependencies, an SDK-style project shows exactly what its directory shows when it is
/// opened.
pub proof fn sdk_projects_show_their_directory(
    worktree_id: u64,
    rel: Seq<char>,
    info: CsprojInfoView,
    text: Seq<char>,
    snapshot: Seq<DirectoryView>,
)
    requires
        info.is_sdk_style,
    ensures
        project_children_of(worktree_id, rel, info, snapshot) == seq![
            dependencies_node_of(worktree_id, rel),
        ] + children_of(
            PlanView::Directory { worktree_id, rel: parent_of(rel) },
            text,
            snapshot,
        ),
{
}

/// After its dependencies, a legacy project shows exactly what the items that it names make of the
/// virtual directory that is its own.
pub proof fn legacy_projects_show_their_items(
    worktree_id: u64,
    rel: Seq<char>,
    text: Seq<char>,
    snapshot: Seq<DirectoryView>,
)
    requires
        !csproj_of_text(text).is_sdk_style,
    ensures
        children_of(PlanView::Project { worktree_id, rel }, text, snapshot) == seq![
            dependencies_node_of(worktree_id, rel),
        ] + children_of(
            PlanView::ItemDirectory { worktree_id, csproj_rel: rel, subdir: Seq::empty() },
            text,
            snapshot,
        ),
{
}

/// An opened directory shows every entry that has a name, but for directories of build output or
/// tooling and for solution and project files: a directory as a container that leads on to it, a
/// file as a leaf that opens it.
pub proof fn opened_directories_show_every_source(
    worktree_id: u64,
    path: Seq<char>,
    text: Seq<char>,
    snapshot: Seq<DirectoryView>,
    k: int,
    name: Seq<char>,
)
    requires
        0 <= k < entries_of(snapshot, path).len(),
        entries_of(snapshot, path)[k].file_name == Some(name),
        entries_of(snapshot, path)[k].is_dir ==> !is_noise(name),
        !entries_of(snapshot, path)[k].is_dir ==> !extension_is(name, "sln"@) && !extension_is(
            name,
            "csproj"@,
        ),
    ensures
        exists|i: int|
            #![trigger children_of(PlanView::Directory { worktree_id, rel: path }, text, snapshot)[i]]
            0 <= i < children_of(
                PlanView::Directory { worktree_id, rel: path },
                text,
                snapshot,
            ).len() && shows_entry(
                worktree_id,
                children_of(PlanView::Directory { worktree_id, rel: path }, text, snapshot)[i],
                name,
                entries_of(snapshot, path)[k],
            ),
{
    let entry = entries_of(snapshot, path)[k];
    let children = children_of(PlanView::Directory { worktree_id, rel: path }, text, snapshot);
    assert(entries_of(snapshot, path).contains(entry));
    listings_show_every_source(worktree_id, snapshot, path, entry);
    let node = listed_node_of(worktree_id, (name, entry.is_dir, entry.path))->0;
    let i = choose|i: int| 0 <= i < children.len() && children[i] == node;
    directories_expand(worktree_id, name, entry.path);
    assert(children_of(PlanView::Directory { worktree_id, rel: path }, text, snapshot)[i] == node);
}

/// Whether a node shows an entry of a worktree: a directory as a container that leads on to it, a
/// file as a leaf that opens it, both under their name.
pub open spec fn shows_entry(
    worktree_id: u64,
    node: NodeView,
    name: Seq<char>,
    entry: EntryView,
) -> bool {
    &&& node.title == name
    &&& node.is_container == entry.is_dir
    &&& node.icon is None
    &&& entry.is_dir ==> planned(node.id) == PlanView::Directory { worktree_id, rel: entry.path }
    &&& !entry.is_dir ==> node.project_path == Some(
        ProjectPathView { worktree_id, path: entry.path },
    )
}

/// An SDK-style project shows every source in its directory: each directory that is not build
/// output or tooling, and each file that is neither a solution nor a project file.
pub proof fn sdk_projects_show_every_source(
    worktree_id: u64,
    rel: Seq<char>,
    info: CsprojInfoView,
    snapshot: Seq<DirectoryView>,
    k: int,
    name: Seq<char>,
)
    requires
        info.is_sdk_style,
        0 <= k < entries_of(snapshot, parent_of(rel)).len(),
        entries_of(snapshot, parent_of(rel))[k].file_name == Some(name),
        entries_of(snapshot, parent_of(rel))[k].is_dir ==> !is_noise(name),
        !entries_of(snapshot, parent_of(rel))[k].is_dir ==> !extension_is(name, "sln"@)
            && !extension_is(name, "csproj"@),
    ensures
        exists|i: int| #![trigger project_children_of(worktree_id, rel, info, snapshot)[i]]
            0 < i < project_children_of(worktree_id, rel, info, snapshot).len() && shows_entry(
                worktree_id,
                project_children_of(worktree_id, rel, info, snapshot)[i],
                name,
                entries_of(snapshot, parent_of(rel))[k],
            ),
{
    let path = parent_of(rel);
    let text = Seq::<char>::empty();
    let entry = entries_of(snapshot, path)[k];
    let plan = PlanView::Directory { worktree_id, rel: path };
    let children = project_children_of(worktree_id, rel, info, snapshot);
    opened_directories_show_every_source(worktree_id, path, text, snapshot, k, name);
    sdk_projects_show_their_directory(worktree_id, rel, info, text, snapshot);
    let i = choose|i: int|
        #![trigger children_of(plan, text, snapshot)[i]]
        0 <= i < children_of(plan, text, snapshot).len() && shows_entry(
            worktree_id,
            children_of(plan, text, snapshot)[i],
            name,
            entry,
        );
    assert(children[i + 1] == children_of(plan, text, snapshot)[i]);
}

/// A project is shown by its style: what its file says decides between its directory and its items.
pub proof fn projects_expand_by_their_file(
    worktree_id: u64,
    rel: Seq<char>,
    text: Seq<char>,
    snapshot: Seq<DirectoryView>,
)
    ensures
        children_of(PlanView::Project { worktree_id, rel }, text, snapshot)
            == project_children_of(worktree_id, rel, csproj_of_text(text), snapshot),
{
}

/// Expanding "Dependencies" shows every reference that the project file names: as many children as
/// there are packages and projects, packages first, each in the order of the file.
pub proof fn dependencies_show_every_reference(
    worktree_id: u64,
    rel: Seq<char>,
    text: Seq<char>,
    snapshot: Seq<DirectoryView>,
    i: int,
)
    ensures
        ({
            let children = children_of(PlanView::Dependencies { worktree_id, rel }, text, snapshot);
            let packages = csproj_of_text(text).package_references;
            let projects = csproj_of_text(text).project_references;
            &&& children.len() == packages.len() + projects.len()
            &&& 0 <= i < packages.len() ==> children[i].id == owned_id("pkg"@, rel, packages[i].0)
                && (packages[i].1 is None ==> children[i].title == packages[i].0)
            &&& 0 <= i < projects.len() ==> children[packages.len() + i].project_path == Some(
                ProjectPathView {
                    worktree_id,
                    path: reference_target(parent_of(rel), projects[i]),
                },
            )
        }),
{
    every_dependency_is_shown(worktree_id, rel, csproj_of_text(text), i);
}

/// Expanding a virtual directory shows the files that lie directly in it, whatever their kind.
pub proof fn item_directories_show_every_file(
    worktree_id: u64,
    csproj_rel: Seq<char>,
    subdir: Seq<char>,
    text: Seq<char>,
    snapshot: Seq<DirectoryView>,
    k: int,
    rest: Seq<char>,
)
    requires
        0 <= k < csproj_of_text(text).compile_items.len(),
        remainder(csproj_of_text(text).compile_items[k], subdir) == Some(rest),
        rest.len() > 0,
        !rest.contains('/'),
    ensures
        ({
            let plan = PlanView::ItemDirectory { worktree_id, csproj_rel, subdir };
            let children = children_of(plan, text, snapshot);
            exists|i: int|
                0 <= i < children.len() && (#[trigger] children[i]).title == rest
                    && children[i].project_path == Some(
                    ProjectPathView {
                        worktree_id,
                        path: reference_target(
                            parent_of(csproj_rel),
                            csproj_of_text(text).compile_items[k],
                        ),
                    },
                )
        }),
{
    let items = csproj_of_text(text).compile_items;
    let plan = PlanView::ItemDirectory { worktree_id, csproj_rel, subdir };
    let children = children_of(plan, text, snapshot);
    every_listed_file_is_shown(worktree_id, csproj_rel, items, subdir, k, rest);
    let i = choose|i: int|
        #![trigger item_level(worktree_id, csproj_rel, items, subdir)[i]]
        0 <= i < item_level(worktree_id, csproj_rel, items, subdir).len() && ({
            let node = item_level(worktree_id, csproj_rel, items, subdir)[i];
            &&& node.title == rest
            &&& !node.is_container
            &&& node.icon is None
            &&& node.id == owned_id("item"@, csproj_rel, items[k])
            &&& node.project_path matches Some(location) && location.worktree_id == worktree_id
                && location.path == reference_target(parent_of(csproj_rel), items[k])
        });
    assert(children[i] == item_level(worktree_id, csproj_rel, items, subdir)[i]);
}

/// Where a worktree has solutions, its roots are those, each once and in order: under the name of
/// the file, and opening it.
pub proof fn every_solution_is_a_root(worktree_id: u64, snapshot: Seq<DirectoryView>, i: int)
    requires
        solutions_of(snapshot).len() > 0,
    ensures
        roots_of(worktree_id, snapshot).len() == solutions_of(snapshot).len(),
        0 <= i < solutions_of(snapshot).len() ==> ({
            let node = roots_of(worktree_id, snapshot)[i];
            let (name, path) = solutions_of(snapshot)[i];
            &&& node.title == name
            &&& node.project_path == Some(ProjectPathView { worktree_id, path })
        }),
{
}

/// Where a worktree has no solution, its roots are the project files at its top level.
pub proof fn without_solutions_projects_are_roots(
    worktree_id: u64,
    snapshot: Seq<DirectoryView>,
    name: Seq<char>,
    path: Seq<char>,
)
    requires
        solutions_of(snapshot).len() == 0,
    ensures
        extension_is(name, "csproj"@) && entries_of(snapshot, Seq::empty()).contains(
            EntryView { file_name: Some(name), is_dir: false, path },
        ) <==> exists|i: int|
            0 <= i < roots_of(worktree_id, snapshot).len() && (#[trigger] roots_of(
                worktree_id,
                snapshot,
            )[i]).title == name && roots_of(worktree_id, snapshot)[i].project_path == Some(
                ProjectPathView { worktree_id, path },
            ),
        roots_of(worktree_id, snapshot).len() <= listing(snapshot, Seq::empty()).len(),
        roots_of(worktree_id, snapshot) == listed_projects(
            worktree_id,
            listing(snapshot, Seq::empty()),
        ),
{
    let listed = listing(snapshot, Seq::empty());
    let roots = roots_of(worktree_id, snapshot);
    let each = each_listed_project(worktree_id, listed);
    let node = project_node_of(worktree_id, name, path);
    listings_hide_only_noise(snapshot, Seq::empty(), name, false, path);
    lemma_present_contains(each, node);
    lemma_present_is_no_longer(each);
    if extension_is(name, "csproj"@) && listed.contains((name, false, path)) {
        let k = choose|k: int| 0 <= k < listed.len() && listed[k] == (name, false, path);
        assert(each[k] == Some(node));
        let i = choose|i: int| 0 <= i < roots.len() && roots[i] == node;
        assert(roots_of(worktree_id, snapshot)[i].title == name);
    }
    if exists|i: int|
        0 <= i < roots.len() && (#[trigger] roots_of(worktree_id, snapshot)[i]).title == name
            && roots[i].project_path == Some(ProjectPathView { worktree_id, path }) {
        let i = choose|i: int|
            0 <= i < roots.len() && (#[trigger] roots_of(worktree_id, snapshot)[i]).title == name
                && roots[i].project_path == Some(ProjectPathView { worktree_id, path });
        assert(roots.contains(roots[i]));
        lemma_present_contains(each, roots[i]);
        let k = choose|k: int| 0 <= k < each.len() && each[k] == Some(roots[i]);
        assert(listed[k] == (name, false, path));
        assert(listed.contains((name, false, path)));
    }
}

proof fn lemma_present_is_no_longer<A>(s: Seq<Option<A>>)
    ensures
        present(s).len() <= s.len(),
    decreases s.len(),
{
    if s.len() > 0 {
        lemma_present_is_no_longer(s.drop_last());
    }
}

/// An id leads to what its tag says, whatever its path holds, and no other tag leads anywhere.
pub proof fn ids_lead_where_their_tags_say(
    id: Seq<char>,
    tag: Seq<char>,
    worktree_id: u64,
    rel: Seq<char>,
)
    requires
        decoded(id) == Some((tag, worktree_id, rel)),
    ensures
        tag == "sln"@ ==> planned(id) == (PlanView::Solution { worktree_id, rel }),
        tag == "proj"@ ==> planned(id) == (PlanView::Project { worktree_id, rel }),
        tag == "deps"@ ==> planned(id) == (PlanView::Dependencies { worktree_id, rel }),
        tag == "dir"@ ==> planned(id) == (PlanView::Directory { worktree_id, rel }),
        tag == "itemdir"@ && !rel.contains('|') ==> planned(id) is Nothing,
        tag != "sln"@ && tag != "proj"@ && tag != "deps"@ && tag != "dir"@ && tag != "itemdir"@
            ==> planned(id) is Nothing,
{
    reveal(planned);
    lemma_tag_texts();
    lemma_first_index(rel, '|');
}

/// The id of a virtual directory leads to what stands before and after the first `|` of its path.
pub proof fn item_ids_lead_to_project_and_directory(
    id: Seq<char>,
    worktree_id: u64,
    csproj_rel: Seq<char>,
    subdir: Seq<char>,
)
    requires
        decoded(id) == Some(("itemdir"@, worktree_id, csproj_rel.push('|') + subdir)),
        !csproj_rel.contains('|'),
    ensures
        planned(id) == (PlanView::ItemDirectory { worktree_id, csproj_rel, subdir }),
{
    reveal(planned);
    lemma_tag_texts();
    lemma_split_once_at(csproj_rel, '|', subdir);
}

/// An id that does not decode leads nowhere.
pub proof fn broken_ids_lead_nowhere(id: Seq<char>, text: Seq<char>, snapshot: Seq<DirectoryView>)
    requires
        decoded(id) is None,
    ensures
        planned(id) is Nothing,
        children_of(planned(id), text, snapshot).len() == 0,
{
    reveal(planned);
}

/// A solution, a project and its dependencies are read off their own file, a virtual directory off
/// its project's; only a directory and an SDK-style project need a listing, of the directory itself
/// and of the one that the project file lies in.
pub proof fn plans_ask_for_their_own_file(worktree_id: u64, rel: Seq<char>, subdir: Seq<char>)
    ensures
        (PlanView::Solution { worktree_id, rel }).file() == Some(rel),
        (PlanView::Project { worktree_id, rel }).file() == Some(rel),
        (PlanView::Dependencies { worktree_id, rel }).file() == Some(rel),
        (PlanView::ItemDirectory { worktree_id, csproj_rel: rel, subdir }).file() == Some(rel),
        (PlanView::Directory { worktree_id, rel }).file() is None,
        PlanView::Nothing.file() is None,
        (PlanView::Directory { worktree_id, rel }).directory() == Some(rel),
        (PlanView::Project { worktree_id, rel }).directory() == Some(parent_of(rel)),
        (PlanView::Solution { worktree_id, rel }).directory() is None,
        (PlanView::Dependencies { worktree_id, rel }).directory() is None,
        (PlanView::ItemDirectory { worktree_id, csproj_rel: rel, subdir }).directory() is None,
        PlanView::Nothing.directory() is None,
{
}

/// An opened directory shows its entries in turn: the children for two runs of entries, one after
/// the other, are those for the first followed by those for the second, and an entry gives one
/// child at most. Other directories, and any text, make no difference.
pub proof fn opened_directories_show_entries_in_turn(
    worktree_id: u64,
    path: Seq<char>,
    text: Seq<char>,
    other_text: Seq<char>,
    snapshot: Seq<DirectoryView>,
    first: Seq<EntryView>,
    second: Seq<EntryView>,
    entry: EntryView,
)
    ensures
        ({
            let plan = PlanView::Directory { worktree_id, rel: path };
            &&& children_of(plan, text, only_directory(path, first + second)) == children_of(
                plan,
                text,
                only_directory(path, first),
            ) + children_of(plan, text, only_directory(path, second))
            &&& children_of(plan, text, only_directory(path, seq![entry])).len() <= 1
            &&& children_of(plan, text, snapshot) == children_of(
                plan,
                other_text,
                only_directory(path, entries_of(snapshot, path)),
            )
        }),
{
    listings_go_entry_by_entry(snapshot, path, first, second, entry);
    listed_entries_are_shown_in_turn(
        worktree_id,
        listing(only_directory(path, first), path),
        listing(only_directory(path, second), path),
        Seq::empty(),
        Seq::empty(),
    );
    lemma_present_is_no_longer(
        each_listed_node(worktree_id, listing(only_directory(path, seq![entry]), path)),
    );
}

/// An opened directory shows neither solution nor project files, and no directory of build output
/// or tooling.
pub proof fn opened_directories_show_sources_only(
    worktree_id: u64,
    path: Seq<char>,
    text: Seq<char>,
    snapshot: Seq<DirectoryView>,
    i: int,
)
    requires
        0 <= i < children_of(PlanView::Directory { worktree_id, rel: path }, text, snapshot).len(),
    ensures
        ({
            let node = children_of(
                PlanView::Directory { worktree_id, rel: path },
                text,
                snapshot,
            )[i];
            &&& node.is_container ==> !is_noise(node.title)
            &&& !node.is_container ==> !extension_is(node.title, "sln"@) && !extension_is(
                node.title,
                "csproj"@,
            )
        }),
{
    let children = children_of(PlanView::Directory { worktree_id, rel: path }, text, snapshot);
    assert(listed_nodes(worktree_id, listing(snapshot, path)).contains(children[i]));
    listings_show_sources_only(worktree_id, snapshot, path, children[i]);
}

/// A virtual directory shows one level of the items that the project file names; what is in the
/// worktree makes no difference.
pub proof fn item_directories_show_one_level(
    worktree_id: u64,
    csproj_rel: Seq<char>,
    subdir: Seq<char>,
    text: Seq<char>,
    snapshot: Seq<DirectoryView>,
)
    ensures
        children_of(
            PlanView::ItemDirectory { worktree_id, csproj_rel, subdir },
            text,
            snapshot,
        ).len() == directories_below(csproj_of_text(text).compile_items, subdir).len()
            + files_below(csproj_of_text(text).compile_items, subdir).len(),
        children_of(PlanView::ItemDirectory { worktree_id, csproj_rel, subdir }, text, snapshot)
            == item_level(worktree_id, csproj_rel, csproj_of_text(text).compile_items, subdir),
{
    a_level_is_as_long_as_its_parts(
        worktree_id,
        csproj_rel,
        csproj_of_text(text).compile_items,
        subdir,
    );
}

}
