//! The nodes of the Solution Explorer tree, each kind built from what it stands for.

use crate::node_id::{encode_id, encoded, NodeKind};
use crate::parse::{package_views, CsprojInfo, CsprojInfoView};
use crate::paths::{
    extension_is, file_name, file_name_of, has_extension, joined, joining_gives_the_parent,
    normalize_project_reference, parent_dir, parent_of, reference_target,
};
use crate::provider::{node_views, NodeView, ProjectPanelViewNode, ProjectPath, ProjectPathView};
use crate::text::{
    join, lemma_present_add, lemma_present_push, lemma_split_once_at, opt_text, present, push_text,
    strip_suffixes, stripping_takes_off_every_suffix, texts, to_chars, to_text, without_suffixes,
};
use crate::worktree::listing_views;
use vstd::prelude::*;

verus! {

/// Embedded icon of the *virtual* "Dependencies" node, which has no backing file and thus no
/// icon-theme association. File-backed nodes (`.sln`, `.csproj`, project references, source
/// files) instead carry a location and leave the icon unset, so the host resolves their glyph
/// from the user's active icon theme by file type.
pub const DEPENDENCIES_ICON: &'static str = "icons/blocks.svg";

/// Embedded icon of a package reference, which has no backing file either.
pub const PACKAGE_ICON: &'static str = "icons/file_icons/package.svg";

// ---------------------------------------------------------------------------------------------
// Specifications
// ---------------------------------------------------------------------------------------------

/// A location in a worktree.
pub open spec fn located(worktree_id: u64, path: Seq<char>) -> Option<ProjectPathView> {
    Some(ProjectPathView { worktree_id, path })
}

/// The id of a leaf that belongs to an owner: `tag|owner|what`.
pub open spec fn owned_id(tag: Seq<char>, owner: Seq<char>, what: Seq<char>) -> Seq<char> {
    tag.push('|') + (owner.push('|') + what)
}

/// The id of a file in a directory listing.
pub open spec fn file_id(rel: Seq<char>) -> Seq<char> {
    "file"@.push('|') + rel
}

/// The node of a solution file.
pub open spec fn solution_node_of(worktree_id: u64, name: Seq<char>, rel: Seq<char>) -> NodeView {
    NodeView {
        id: encoded(NodeKind::Solution, worktree_id, rel),
        title: name,
        icon: None,
        is_container: true,
        project_path: located(worktree_id, rel),
    }
}

/// The node of a project.
pub open spec fn project_node_of(
    worktree_id: u64,
    name: Seq<char>,
    csproj_rel: Seq<char>,
) -> NodeView {
    NodeView {
        id: encoded(NodeKind::Project, worktree_id, csproj_rel),
        title: name,
        icon: None,
        is_container: true,
        project_path: located(worktree_id, csproj_rel),
    }
}

/// The virtual node that holds a project's references.
pub open spec fn dependencies_node_of(worktree_id: u64, csproj_rel: Seq<char>) -> NodeView {
    NodeView {
        id: encoded(NodeKind::Dependencies, worktree_id, csproj_rel),
        title: "Dependencies"@,
        icon: Some(DEPENDENCIES_ICON@),
        is_container: true,
        project_path: None,
    }
}

/// The node of a listed entry: a directory is a container, a file a leaf that opens it. Solution
/// and project files have none, being represented by nodes of their own.
pub open spec fn listed_node_of(
    worktree_id: u64,
    listed: (Seq<char>, bool, Seq<char>),
) -> Option<NodeView> {
    let (name, is_dir, rel) = listed;
    if is_dir {
        Some(
            NodeView {
                id: encoded(NodeKind::Directory, worktree_id, rel),
                title: name,
                icon: None,
                is_container: true,
                project_path: None,
            },
        )
    } else if extension_is(name, "csproj"@) || extension_is(name, "sln"@) {
        None
    } else {
        Some(
            NodeView {
                id: file_id(rel),
                title: name,
                icon: None,
                is_container: false,
                project_path: located(worktree_id, rel),
            },
        )
    }
}

/// The nodes of a listing, one by one.
pub open spec fn each_listed_node(
    worktree_id: u64,
    listed: Seq<(Seq<char>, bool, Seq<char>)>,
) -> Seq<Option<NodeView>> {
    Seq::new(listed.len(), |i: int| listed_node_of(worktree_id, listed[i]))
}

/// The nodes of a listing.
pub open spec fn listed_nodes(
    worktree_id: u64,
    listed: Seq<(Seq<char>, bool, Seq<char>)>,
) -> Seq<NodeView> {
    present(each_listed_node(worktree_id, listed))
}

/// The project that a listed entry is: only a `.csproj` file is one.
pub open spec fn listed_project_of(
    worktree_id: u64,
    listed: (Seq<char>, bool, Seq<char>),
) -> Option<NodeView> {
    let (name, is_dir, rel) = listed;
    if !is_dir && extension_is(name, "csproj"@) {
        Some(project_node_of(worktree_id, name, rel))
    } else {
        None
    }
}

/// The projects of a listing, one by one.
pub open spec fn each_listed_project(
    worktree_id: u64,
    listed: Seq<(Seq<char>, bool, Seq<char>)>,
) -> Seq<Option<NodeView>> {
    Seq::new(listed.len(), |i: int| listed_project_of(worktree_id, listed[i]))
}

/// The projects of a listing.
pub open spec fn listed_projects(
    worktree_id: u64,
    listed: Seq<(Seq<char>, bool, Seq<char>)>,
) -> Seq<NodeView> {
    present(each_listed_project(worktree_id, listed))
}

/// How a package reference is shown: its name, with the version in brackets if there is one.
pub open spec fn package_title(name: Seq<char>, version: Option<Seq<char>>) -> Seq<char> {
    match version {
        Some(version) => (name + " ("@ + version).push(')'),
        None => name,
    }
}

/// The node of a package reference.
pub open spec fn package_node_of(
    csproj_rel: Seq<char>,
    package: (Seq<char>, Option<Seq<char>>),
) -> NodeView {
    NodeView {
        id: owned_id("pkg"@, csproj_rel, package.0),
        title: package_title(package.0, package.1),
        icon: Some(PACKAGE_ICON@),
        is_container: false,
        project_path: None,
    }
}

/// How a project reference is shown: its file name without the extension.
pub open spec fn reference_title(reference: Seq<char>) -> Seq<char> {
    strip_suffixes(file_name_of(reference), ".csproj"@)
}

/// The node of a project reference.
pub open spec fn reference_node_of(
    worktree_id: u64,
    csproj_rel: Seq<char>,
    reference: Seq<char>,
) -> NodeView {
    let target = reference_target(parent_of(csproj_rel), reference);
    NodeView {
        id: owned_id("projref"@, csproj_rel, target),
        title: reference_title(reference),
        icon: None,
        is_container: false,
        project_path: located(worktree_id, target),
    }
}

/// The nodes of a project's references: packages first, then projects, each in the order in which
/// the project file names them.
pub open spec fn dependency_nodes_of(
    worktree_id: u64,
    csproj_rel: Seq<char>,
    info: CsprojInfoView,
) -> Seq<NodeView> {
    Seq::new(
        info.package_references.len(),
        |i: int| package_node_of(csproj_rel, info.package_references[i]),
    ) + Seq::new(
        info.project_references.len(),
        |i: int| reference_node_of(worktree_id, csproj_rel, info.project_references[i]),
    )
}

// ---------------------------------------------------------------------------------------------
// Builders
// ---------------------------------------------------------------------------------------------

/// A node that can be expanded.
pub fn container(
    id: String,
    title: String,
    icon: Option<String>,
    project_path: Option<ProjectPath>,
) -> (node: ProjectPanelViewNode)
    ensures
        node == (ProjectPanelViewNode { id, title, icon, is_container: true, project_path }),
{
    ProjectPanelViewNode { id, title, icon, is_container: true, project_path }
}

/// A node that cannot be expanded.
pub fn leaf(
    id: String,
    title: String,
    project_path: Option<ProjectPath>,
    icon: Option<String>,
) -> (node: ProjectPanelViewNode)
    ensures
        node == (ProjectPanelViewNode { id, title, icon, is_container: false, project_path }),
{
    ProjectPanelViewNode { id, title, icon, is_container: false, project_path }
}

/// The id of a leaf that belongs to an owner.
pub fn encode_owned_id(tag: &str, owner: &str, what: &str) -> (id: String)
    ensures
        id@ == owned_id(tag@, owner@, what@),
{
    let mut id = String::new();
    push_text(&mut id, tag);
    id.push('|');
    push_text(&mut id, owner);
    id.push('|');
    push_text(&mut id, what);
    assert(id@ == owned_id(tag@, owner@, what@));
    id
}

/// The node of a solution file.
pub fn solution_node(worktree_id: u64, name: &str, rel: &str) -> (node: ProjectPanelViewNode)
    ensures
        node@ == solution_node_of(worktree_id, name@, rel@),
{
    container(
        encode_id(NodeKind::Solution, worktree_id, rel),
        name.to_owned(),
        None,
        Some(ProjectPath { worktree_id, path: rel.to_owned() }),
    )
}

/// The node of a project.
pub fn project_node(worktree_id: u64, name: &str, csproj_rel: &str) -> (node: ProjectPanelViewNode)
    ensures
        node@ == project_node_of(worktree_id, name@, csproj_rel@),
{
    container(
        encode_id(NodeKind::Project, worktree_id, csproj_rel),
        name.to_owned(),
        None,
        Some(ProjectPath { worktree_id, path: csproj_rel.to_owned() }),
    )
}

/// The virtual node that holds a project's references.
pub fn dependencies_node(worktree_id: u64, csproj_rel: &str) -> (node: ProjectPanelViewNode)
    ensures
        node@ == dependencies_node_of(worktree_id, csproj_rel@),
{
    container(
        encode_id(NodeKind::Dependencies, worktree_id, csproj_rel),
        "Dependencies".to_owned(),
        Some(DEPENDENCIES_ICON.to_owned()),
        None,
    )
}

/// The node of a listed entry, if it has one.
fn listed_node(worktree_id: u64, name: &str, is_dir: bool, rel: &str) -> (node: Option<
    ProjectPanelViewNode,
>)
    ensures
        match listed_node_of(worktree_id, (name@, is_dir, rel@)) {
            Some(view) => node matches Some(node) && node@ == view,
            None => node is None,
        },
{
    if is_dir {
        Some(
            container(
                encode_id(NodeKind::Directory, worktree_id, rel),
                name.to_owned(),
                None,
                None,
            ),
        )
    } else if has_extension(name, "csproj") || has_extension(name, "sln") {
        None
    } else {
        let mut id = "file".to_owned();
        id.push('|');
        push_text(&mut id, rel);
        Some(
            leaf(
                id,
                name.to_owned(),
                Some(ProjectPath { worktree_id, path: rel.to_owned() }),
                None,
            ),
        )
    }
}

/// Directory listing as nodes: subdirectories become containers, files become leaves carrying a
/// location so a click opens them. Solution/project files are hidden: they are already
/// represented by their own tree nodes.
pub fn dir_nodes(worktree_id: u64, listed: &Vec<(String, bool, String)>) -> (nodes: Vec<
    ProjectPanelViewNode,
>)
    ensures
        node_views(nodes@) == listed_nodes(worktree_id, listing_views(listed@)),
{
    let mut nodes: Vec<ProjectPanelViewNode> = Vec::new();
    let ghost each = each_listed_node(worktree_id, listing_views(listed@));
    assert(node_views(nodes@) == present(each.take(0)));
    for i in 0..listed.len()
        invariant
            each == each_listed_node(worktree_id, listing_views(listed@)),
            node_views(nodes@) == present(each.take(i as int)),
    {
        let ghost before = node_views(nodes@);
        proof {
            assert(each.take(i + 1) == each.take(i as int).push(each[i as int]));
            lemma_present_push(each.take(i as int), each[i as int]);
        }
        let node = listed_node(worktree_id, listed[i].0.as_str(), listed[i].1, listed[i].2.as_str());
        if let Some(node) = node {
            nodes.push(node);
            assert(node_views(nodes@) == before.push(node@));
        }
    }
    assert(each.take(listed@.len() as int) == each);
    nodes
}

/// The projects of a directory listing.
pub fn listed_project_nodes(worktree_id: u64, listed: &Vec<(String, bool, String)>) -> (nodes: Vec<
    ProjectPanelViewNode,
>)
    ensures
        node_views(nodes@) == listed_projects(worktree_id, listing_views(listed@)),
{
    let mut nodes: Vec<ProjectPanelViewNode> = Vec::new();
    let ghost each = each_listed_project(worktree_id, listing_views(listed@));
    assert(node_views(nodes@) == present(each.take(0)));
    for i in 0..listed.len()
        invariant
            each == each_listed_project(worktree_id, listing_views(listed@)),
            node_views(nodes@) == present(each.take(i as int)),
    {
        let ghost before = node_views(nodes@);
        proof {
            assert(each.take(i + 1) == each.take(i as int).push(each[i as int]));
            lemma_present_push(each.take(i as int), each[i as int]);
        }
        if !listed[i].1 && has_extension(listed[i].0.as_str(), "csproj") {
            let node = project_node(worktree_id, listed[i].0.as_str(), listed[i].2.as_str());
            nodes.push(node);
            assert(node_views(nodes@) == before.push(node@));
        }
    }
    assert(each.take(listed@.len() as int) == each);
    nodes
}

/// The node of a package reference. The id is qualified with the owning `.csproj` so the same
/// package referenced by two projects yields distinct ids.
fn package_node(csproj_rel: &str, name: &str, version: &Option<String>) -> (node:
    ProjectPanelViewNode)
    ensures
        node@ == package_node_of(csproj_rel@, (name@, opt_text(*version))),
{
    let mut title = name.to_owned();
    if let Some(version) = version {
        push_text(&mut title, " (");
        push_text(&mut title, version.as_str());
        title.push(')');
    }
    leaf(
        encode_owned_id("pkg", csproj_rel, name),
        title,
        None,
        Some(PACKAGE_ICON.to_owned()),
    )
}

/// The node of a project reference.
fn reference_node(worktree_id: u64, csproj_rel: &str, reference: &str) -> (node:
    ProjectPanelViewNode)
    ensures
        node@ == reference_node_of(worktree_id, csproj_rel@, reference@),
{
    let name = to_chars(file_name(reference).as_str());
    let title = to_text(without_suffixes(name.as_slice(), to_chars(".csproj").as_slice()));
    let target = normalize_project_reference(parent_dir(csproj_rel).as_str(), reference);
    leaf(
        encode_owned_id("projref", csproj_rel, target.as_str()),
        title,
        Some(ProjectPath { worktree_id, path: target.clone() }),
        None,
    )
}

/// The nodes of a project's references: packages first, then projects.
pub fn dependency_nodes(worktree_id: u64, csproj_rel: &str, info: &CsprojInfo) -> (nodes: Vec<
    ProjectPanelViewNode,
>)
    ensures
        node_views(nodes@) == dependency_nodes_of(worktree_id, csproj_rel@, info@),
{
    let mut nodes: Vec<ProjectPanelViewNode> = Vec::new();
    let ghost packages = Seq::new(
        info@.package_references.len(),
        |i: int| package_node_of(csproj_rel@, info@.package_references[i]),
    );
    let ghost projects = Seq::new(
        info@.project_references.len(),
        |i: int| reference_node_of(worktree_id, csproj_rel@, info@.project_references[i]),
    );
    for i in 0..info.package_references.len()
        invariant
            packages == Seq::new(
                info@.package_references.len(),
                |i: int| package_node_of(csproj_rel@, info@.package_references[i]),
            ),
            node_views(nodes@) == packages.take(i as int),
    {
        let ghost before = node_views(nodes@);
        let package = &info.package_references[i];
        assert(package_views(info.package_references@)[i as int] == (
            package.0@,
            opt_text(package.1),
        ));
        nodes.push(package_node(csproj_rel, package.0.as_str(), &package.1));
        assert(node_views(nodes@) == before.push(packages[i as int]));
    }
    assert(packages.take(packages.len() as int) == packages);
    assert(packages + projects.take(0) == packages);
    for i in 0..info.project_references.len()
        invariant
            projects == Seq::new(
                info@.project_references.len(),
                |i: int| reference_node_of(worktree_id, csproj_rel@, info@.project_references[i]),
            ),
            node_views(nodes@) == packages + projects.take(i as int),
    {
        let ghost before = node_views(nodes@);
        let reference = &info.project_references[i];
        assert(texts(info.project_references@)[i as int] == reference@);
        nodes.push(reference_node(worktree_id, csproj_rel, reference.as_str()));
        assert(node_views(nodes@) == before.push(projects[i as int]));
        assert(packages + projects.take(i + 1) == before.push(projects[i as int]));
    }
    assert(projects.take(projects.len() as int) == projects);
    nodes
}

// ---------------------------------------------------------------------------------------------
// Laws
// ---------------------------------------------------------------------------------------------

/// A leaf of one project never shares its id with a leaf of another, as long as neither project's
/// path holds a `|`.
pub proof fn owned_ids_tell_owners_apart(
    tag: Seq<char>,
    a_owner: Seq<char>,
    a: Seq<char>,
    b_owner: Seq<char>,
    b: Seq<char>,
)
    requires
        !tag.contains('|'),
        !a_owner.contains('|'),
        !b_owner.contains('|'),
        owned_id(tag, a_owner, a) == owned_id(tag, b_owner, b),
    ensures
        a_owner == b_owner,
        a == b,
{
    lemma_split_once_at(tag, '|', a_owner.push('|') + a);
    lemma_split_once_at(tag, '|', b_owner.push('|') + b);
    lemma_split_once_at(a_owner, '|', a);
    lemma_split_once_at(b_owner, '|', b);
}

/// The same package, project or item under two projects has two ids, whatever the paths hold.
pub proof fn shared_references_have_distinct_ids(
    tag: Seq<char>,
    a_owner: Seq<char>,
    b_owner: Seq<char>,
    what: Seq<char>,
)
    requires
        a_owner != b_owner,
    ensures
        owned_id(tag, a_owner, what) != owned_id(tag, b_owner, what),
{
    if owned_id(tag, a_owner, what) == owned_id(tag, b_owner, what) {
        let a = owned_id(tag, a_owner, what);
        let b = owned_id(tag, b_owner, what);
        assert(a.len() == tag.len() + 1 + a_owner.len() + 1 + what.len());
        assert(b.len() == tag.len() + 1 + b_owner.len() + 1 + what.len());
        assert forall|i: int| 0 <= i < a_owner.len() implies a_owner[i] == b_owner[i] by {
            assert(a_owner[i] == a[tag.len() + 1 + i]);
            assert(b_owner[i] == b[tag.len() + 1 + i]);
        }
        assert(a_owner == b_owner);
    }
}

/// The nodes of solutions and projects are containers that open their file, under the name given;
/// that of a project's dependencies is a container with an icon of its own and no file.
pub proof fn containers_show_what_they_stand_for(worktree_id: u64, name: Seq<char>, rel: Seq<char>)
    ensures
        ({
            let solution = solution_node_of(worktree_id, name, rel);
            let project = project_node_of(worktree_id, name, rel);
            let dependencies = dependencies_node_of(worktree_id, rel);
            let location = Some(ProjectPathView { worktree_id, path: rel });
            &&& solution.title == name && solution.is_container && solution.icon is None
                && solution.project_path == location
            &&& project.title == name && project.is_container && project.icon is None
                && project.project_path == location
            &&& dependencies.title == "Dependencies"@ && dependencies.is_container
                && dependencies.icon == Some("icons/blocks.svg"@)
                && dependencies.project_path is None
        }),
{
}

/// The ids of leaves are written with `|` between their parts.
pub proof fn leaf_ids_are_written_with_bars(tag: Seq<char>, owner: Seq<char>, what: Seq<char>)
    ensures
        owned_id(tag, owner, what) == join(seq![tag, owner, what], '|'),
        file_id(what) == join(seq!["file"@, what], '|'),
{
    let parts = seq![tag, owner, what];
    assert(parts.drop_last() == seq![tag, owner]);
    assert(parts.drop_last().drop_last() == seq![tag]);
    assert(join(parts.drop_last().drop_last(), '|') == tag);
    assert(join(parts.drop_last(), '|') == tag.push('|') + owner);
    assert(join(parts, '|') == (tag.push('|') + owner).push('|') + what);
    assert(owned_id(tag, owner, what) =~= join(parts, '|'));
    let short = seq!["file"@, what];
    assert(short.drop_last() == seq!["file"@]);
    assert(join(short.drop_last(), '|') == "file"@);
}

/// A listing is shown entry by entry: the nodes of two listings, one after the other, are those of
/// the first followed by those of the second. A directory is a container under its name; a file is
/// a leaf under its name that opens it, unless it is a solution or a project file, which is not
/// shown.
pub proof fn listed_entries_are_shown_in_turn(
    worktree_id: u64,
    first: Seq<(Seq<char>, bool, Seq<char>)>,
    second: Seq<(Seq<char>, bool, Seq<char>)>,
    name: Seq<char>,
    rel: Seq<char>,
)
    ensures
        listed_nodes(worktree_id, first + second) == listed_nodes(worktree_id, first)
            + listed_nodes(worktree_id, second),
        ({
            let nodes = listed_nodes(worktree_id, seq![(name, true, rel)]);
            nodes.len() == 1 && nodes[0].title == name && nodes[0].is_container && nodes[0].icon
                is None && nodes[0].project_path is None && nodes[0].id == encoded(
                NodeKind::Directory,
                worktree_id,
                rel,
            )
        }),
        ({
            let nodes = listed_nodes(worktree_id, seq![(name, false, rel)]);
            if extension_is(name, "sln"@) || extension_is(name, "csproj"@) {
                nodes.len() == 0
            } else {
                nodes.len() == 1 && nodes[0].title == name && !nodes[0].is_container
                    && nodes[0].icon is None && nodes[0].project_path == Some(
                    ProjectPathView { worktree_id, path: rel },
                ) && nodes[0].id == "file"@.push('|') + rel
            }
        }),
{
    assert(each_listed_node(worktree_id, first + second) == each_listed_node(worktree_id, first)
        + each_listed_node(worktree_id, second));
    lemma_present_add(each_listed_node(worktree_id, first), each_listed_node(worktree_id, second));
    let none = Seq::<Option<NodeView>>::empty();
    let dir = listed_node_of(worktree_id, (name, true, rel));
    let file = listed_node_of(worktree_id, (name, false, rel));
    assert(each_listed_node(worktree_id, seq![(name, true, rel)]) == none.push(dir));
    assert(each_listed_node(worktree_id, seq![(name, false, rel)]) == none.push(file));
    lemma_present_push(none, dir);
    lemma_present_push(none, file);
    assert(present(none) == Seq::<NodeView>::empty());
}

/// The projects of a listing are its `.csproj` files, each under its name and opening it, in the
/// order of the listing; no directory is one.
pub proof fn listed_projects_are_taken_in_turn(
    worktree_id: u64,
    first: Seq<(Seq<char>, bool, Seq<char>)>,
    second: Seq<(Seq<char>, bool, Seq<char>)>,
    name: Seq<char>,
    is_dir: bool,
    rel: Seq<char>,
)
    ensures
        listed_projects(worktree_id, first + second) == listed_projects(worktree_id, first)
            + listed_projects(worktree_id, second),
        ({
            let nodes = listed_projects(worktree_id, seq![(name, is_dir, rel)]);
            if !is_dir && extension_is(name, "csproj"@) {
                nodes.len() == 1 && nodes[0].title == name && nodes[0].is_container
                    && nodes[0].icon is None && nodes[0].project_path == Some(
                    ProjectPathView { worktree_id, path: rel },
                ) && nodes[0].id == encoded(NodeKind::Project, worktree_id, rel)
            } else {
                nodes.len() == 0
            }
        }),
{
    assert(each_listed_project(worktree_id, first + second) == each_listed_project(
        worktree_id,
        first,
    ) + each_listed_project(worktree_id, second));
    lemma_present_add(
        each_listed_project(worktree_id, first),
        each_listed_project(worktree_id, second),
    );
    let none = Seq::<Option<NodeView>>::empty();
    let node = listed_project_of(worktree_id, (name, is_dir, rel));
    assert(each_listed_project(worktree_id, seq![(name, is_dir, rel)]) == none.push(node));
    lemma_present_push(none, node);
    assert(present(none) == Seq::<NodeView>::empty());
}

/// A project's dependencies show every package and then every project that it refers to, each once
/// and in order. A package is shown by its name, with its version in brackets if there is one, and
/// opens nothing; a project opens the file that it refers to.
pub proof fn every_dependency_is_shown(
    worktree_id: u64,
    csproj_rel: Seq<char>,
    info: CsprojInfoView,
    i: int,
)
    ensures
        ({
            let nodes = dependency_nodes_of(worktree_id, csproj_rel, info);
            let packages = info.package_references;
            let projects = info.project_references;
            &&& nodes.len() == packages.len() + projects.len()
            &&& 0 <= i < packages.len() ==> {
                &&& !nodes[i].is_container && nodes[i].project_path is None
                &&& nodes[i].icon == Some("icons/file_icons/package.svg"@)
                &&& nodes[i].id == owned_id("pkg"@, csproj_rel, packages[i].0)
                &&& packages[i].1 is None ==> nodes[i].title == packages[i].0
                &&& packages[i].1 matches Some(version) ==> nodes[i].title == packages[i].0
                    + seq![' ', '('] + version + seq![')']
            }
            &&& 0 <= i < projects.len() ==> {
                let node = nodes[packages.len() + i];
                let target = reference_target(parent_of(csproj_rel), projects[i]);
                &&& !node.is_container && node.icon is None
                &&& node.project_path == Some(ProjectPathView { worktree_id, path: target })
                &&& node.id == owned_id("projref"@, csproj_rel, target)
                &&& node.title == reference_title(projects[i])
            }
        }),
{
    reveal_strlit(" (");
    assert(" ("@ == seq![' ', '(']);
    let nodes = dependency_nodes_of(worktree_id, csproj_rel, info);
    let packages = info.package_references;
    if 0 <= i < packages.len() {
        if let Some(version) = packages[i].1 {
            assert(nodes[i].title == packages[i].0 + seq![' ', '('] + version + seq![')']);
        }
    }
}

/// A project reference is shown by its file name without `.csproj`; one that does not end in it is
/// shown by its file name.
pub proof fn project_references_are_shown_by_name(dir: Seq<char>, name: Seq<char>)
    requires
        !name.contains('/'),
        forall|rest: Seq<char>| name != #[trigger] (rest + ".csproj"@),
    ensures
        reference_title(joined(dir, name + ".csproj"@)) == name,
        reference_title(joined(dir, name)) == name,
{
    reveal_strlit(".csproj");
    let file = name + ".csproj"@;
    assert(!file.contains('/')) by {
        if file.contains('/') {
            let i = choose|i: int| 0 <= i < file.len() && file[i] == '/';
            if i < name.len() {
                assert(name[i] == '/');
            } else {
                assert(".csproj"@[i - name.len()] == '/');
            }
        }
    }
    joining_gives_the_parent(dir, file);
    joining_gives_the_parent(dir, name);
    stripping_takes_off_every_suffix(name, ".csproj"@);
}

}
