//! Nodes as an extension exchanges them with the host, and their conversion to and from the
//! panel's own nodes.

use crate::provider::{node_views, NodeView, ProjectPathView};
use crate::text::opt_text;
use vstd::prelude::*;

verus! {

/// A worktree-relative location backing a project panel view node.
#[derive(Debug, Clone, PartialEq, Eq)]
pub struct ProjectPanelViewPath {
    pub worktree_id: u64,
    pub path: String,
}

/// A single node in a provider-supplied project panel tree.
#[derive(Debug, Clone, PartialEq, Eq)]
pub struct ProjectPanelViewNode {
    pub id: String,
    pub title: String,
    pub icon: Option<String>,
    pub is_container: bool,
    /// Absent for purely virtual nodes with no backing file (e.g. a "Dependencies" node).
    pub project_path: Option<ProjectPanelViewPath>,
}

/// A [`ProjectPanelViewPath`] as the contracts see it.
pub struct ExtensionPathView {
    pub worktree_id: u64,
    pub path: Seq<char>,
}

impl View for ProjectPanelViewPath {
    type V = ExtensionPathView;

    open spec fn view(&self) -> ExtensionPathView {
        ExtensionPathView { worktree_id: self.worktree_id, path: self.path@ }
    }
}

/// A [`ProjectPanelViewNode`] as the contracts see it.
pub struct ExtensionNodeView {
    pub id: Seq<char>,
    pub title: Seq<char>,
    pub icon: Option<Seq<char>>,
    pub is_container: bool,
    pub project_path: Option<ExtensionPathView>,
}

impl View for ProjectPanelViewNode {
    type V = ExtensionNodeView;

    open spec fn view(&self) -> ExtensionNodeView {
        ExtensionNodeView {
            id: self.id@,
            title: self.title@,
            icon: opt_text(self.icon),
            is_container: self.is_container,
            project_path: match self.project_path {
                Some(path) => Some(path@),
                None => None,
            },
        }
    }
}

/// A node of the panel as an extension gets it.
pub open spec fn to_extension(node: NodeView) -> ExtensionNodeView {
    ExtensionNodeView {
        id: node.id,
        title: node.title,
        icon: node.icon,
        is_container: node.is_container,
        project_path: match node.project_path {
            Some(path) => Some(
                ExtensionPathView { worktree_id: path.worktree_id, path: path.path },
            ),
            None => None,
        },
    }
}

/// A node of an extension as the panel gets it.
pub open spec fn from_extension(node: ExtensionNodeView) -> NodeView {
    NodeView {
        id: node.id,
        title: node.title,
        icon: node.icon,
        is_container: node.is_container,
        project_path: match node.project_path {
            Some(path) => Some(
                ProjectPathView { worktree_id: path.worktree_id, path: path.path },
            ),
            None => None,
        },
    }
}

/// Whether a node of an extension is turned down: it has a location, and the host says that it is
/// not a relative path.
pub open spec fn is_rejected<E>(node: ProjectPanelViewNode, path_check: Result<(), E>) -> bool {
    node.project_path is Some && path_check is Err
}

/// Takes over a node from an extension. `path_check` is what the host says of its location: an
/// error when it is not a relative path. Of a node without one it is of no account.
pub fn node_from_extension<E>(
    node: ProjectPanelViewNode,
    path_check: Result<(), E>,
) -> (taken: Result<crate::provider::ProjectPanelViewNode, E>)
    ensures
        is_rejected(node, path_check) ==> taken is Err && taken->Err_0 == path_check->Err_0,
        !is_rejected(node, path_check) ==> taken is Ok && taken->Ok_0@ == from_extension(node@),
{
    let project_path = match node.project_path {
        Some(path) => match path_check {
            Ok(()) => Some(
                crate::provider::ProjectPath { worktree_id: path.worktree_id, path: path.path },
            ),
            Err(error) => return Err(error),
        },
        None => None,
    };
    Ok(
        crate::provider::ProjectPanelViewNode {
            id: node.id,
            title: node.title,
            icon: node.icon,
            is_container: node.is_container,
            project_path,
        },
    )
}

/// Takes over the nodes of an extension, or none of them: the first whose location the host turns
/// down ends it, with the host's error. With each node comes what the host says of its location.
pub fn nodes_from_extension<E>(nodes: Vec<(ProjectPanelViewNode, Result<(), E>)>) -> (taken: Result<
    Vec<crate::provider::ProjectPanelViewNode>,
    E,
>)
    ensures
        match taken {
            Ok(taken) => (forall|i: int|
                0 <= i < nodes@.len() ==> !is_rejected((#[trigger] nodes@[i]).0, nodes@[i].1))
                && node_views(taken@) == Seq::new(
                nodes@.len(),
                |i: int| from_extension(nodes@[i].0@),
            ),
            Err(error) => exists|i: int|
                0 <= i < nodes@.len() && is_rejected((#[trigger] nodes@[i]).0, nodes@[i].1)
                    && nodes@[i].1->Err_0 == error && (forall|j: int|
                    0 <= j < i ==> !is_rejected((#[trigger] nodes@[j]).0, nodes@[j].1)),
        },
{
    let mut taken: Vec<crate::provider::ProjectPanelViewNode> = Vec::new();
    for pair in it: nodes
        invariant
            it.seq() == nodes@,
            taken@.len() == it.index(),
            forall|j: int|
                0 <= j < it.index() ==> !is_rejected((#[trigger] nodes@[j]).0, nodes@[j].1),
            forall|j: int|
                0 <= j < it.index() ==> (#[trigger] taken@[j])@ == from_extension(nodes@[j].0@),
    {
        let (node, path_check) = pair;
        match node_from_extension(node, path_check) {
            Ok(node) => {
                taken.push(node);
            },
            Err(error) => {
                assert(is_rejected(nodes@[it.index()].0, nodes@[it.index()].1));
                return Err(error);
            },
        }
    }
    proof {
        assert(node_views(taken@) == Seq::new(
            nodes@.len(),
            |i: int| from_extension(nodes@[i].0@),
        ));
    }
    Ok(taken)
}

/// Hands a node over to an extension.
pub fn node_to_extension(node: crate::provider::ProjectPanelViewNode) -> (handed:
    ProjectPanelViewNode)
    ensures
        handed@ == to_extension(node@),
{
    ProjectPanelViewNode {
        id: node.id,
        title: node.title,
        icon: node.icon,
        is_container: node.is_container,
        project_path: match node.project_path {
            Some(path) => Some(
                ProjectPanelViewPath { worktree_id: path.worktree_id, path: path.path },
            ),
            None => None,
        },
    }
}

/// A node handed to an extension comes back as it was.
pub proof fn extensions_hand_nodes_back(node: NodeView)
    ensures
        from_extension(to_extension(node)) == node,
{
}

/// A node taken from an extension goes back as it was.
pub proof fn extensions_get_their_nodes_back(node: ExtensionNodeView)
    ensures
        to_extension(from_extension(node)) == node,
{
}

/// A node is turned down for its location alone, and only where it has one: nothing else about it
/// makes a difference.
pub proof fn nodes_are_turned_down_for_their_location<E>(
    node: ProjectPanelViewNode,
    path_check: Result<(), E>,
)
    ensures
        node.project_path is None ==> !is_rejected(node, path_check),
        path_check is Ok ==> !is_rejected(node, path_check),
        node.project_path is Some && path_check is Err ==> is_rejected(node, path_check),
{
}

/// A node taken from an extension keeps its id, title, icon and kind, and opens the same location.
pub proof fn nodes_are_taken_whole(node: ProjectPanelViewNode)
    ensures
        from_extension(node@).id == node.id@,
        from_extension(node@).title == node.title@,
        from_extension(node@).icon == opt_text(node.icon),
        from_extension(node@).is_container == node.is_container,
        node.project_path is None ==> from_extension(node@).project_path is None,
        node.project_path matches Some(path) ==> from_extension(node@).project_path == Some(
            ProjectPathView { worktree_id: path.worktree_id, path: path.path@ },
        ),
{
}

}
