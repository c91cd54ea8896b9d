//! The nodes of a provider-supplied project panel tree, and the registry of the providers that
//! supply them.

use crate::text::{opt_text, same_text};
use vstd::prelude::*;

verus! {

/// A location in a worktree that a node opens.
#[derive(Debug, Clone, PartialEq, Eq)]
pub struct ProjectPath {
    pub worktree_id: u64,
    /// The path relative to the worktree, with `/` between its directories.
    pub path: String,
}

/// A single node in a provider-supplied project panel tree. Unlike worktree entries,
/// a node may have no backing [`ProjectPath`] at all (e.g. a virtual "Dependencies" node).
#[derive(Debug, Clone, PartialEq, Eq)]
pub struct ProjectPanelViewNode {
    pub id: String,
    pub title: String,
    pub icon: Option<String>,
    pub is_container: bool,
    pub project_path: Option<ProjectPath>,
}

/// A [`ProjectPath`] as the contracts see it.
pub struct ProjectPathView {
    pub worktree_id: u64,
    pub path: Seq<char>,
}

impl View for ProjectPath {
    type V = ProjectPathView;

    open spec fn view(&self) -> ProjectPathView {
        ProjectPathView { worktree_id: self.worktree_id, path: self.path@ }
    }
}

/// The location of an optional path.
pub open spec fn opt_path(path: Option<ProjectPath>) -> Option<ProjectPathView> {
    match path {
        Some(path) => Some(path@),
        None => None,
    }
}

/// A [`ProjectPanelViewNode`] as the contracts see it.
pub struct NodeView {
    pub id: Seq<char>,
    pub title: Seq<char>,
    pub icon: Option<Seq<char>>,
    pub is_container: bool,
    pub project_path: Option<ProjectPathView>,
}

impl View for ProjectPanelViewNode {
    type V = NodeView;

    open spec fn view(&self) -> NodeView {
        NodeView {
            id: self.id@,
            title: self.title@,
            icon: opt_text(self.icon),
            is_container: self.is_container,
            project_path: opt_path(self.project_path),
        }
    }
}

/// The nodes held by a sequence of nodes.
pub open spec fn node_views(nodes: Seq<ProjectPanelViewNode>) -> Seq<NodeView> {
    Seq::new(nodes.len(), |i: int| nodes[i]@)
}

impl NodeView {
    /// The node, without its location unless the host accepts it as a relative path.
    pub open spec fn with_path_if(self, is_relative: bool) -> NodeView {
        if is_relative {
            self
        } else {
            NodeView { project_path: None, ..self }
        }
    }
}

/// The location `rel` in a worktree. It is for the host to say whether `rel` is a relative path;
/// there is no location otherwise.
pub fn project_path(worktree_id: u64, rel: &str, is_relative: bool) -> (path: Option<ProjectPath>)
    ensures
        opt_path(path) == (if is_relative {
            Some(ProjectPathView { worktree_id, path: rel@ })
        } else {
            None
        }),
{
    if is_relative {
        Some(ProjectPath { worktree_id, path: rel.to_owned() })
    } else {
        None
    }
}

/// The nodes with the locations that the host rejects taken out. With each node comes whether the
/// host accepts its location as a relative path; that is of no account for a node without one.
pub fn check_paths(nodes: Vec<(ProjectPanelViewNode, bool)>) -> (checked: Vec<
    ProjectPanelViewNode,
>)
    ensures
        node_views(checked@) == Seq::new(
            nodes@.len(),
            |i: int| nodes@[i].0@.with_path_if(nodes@[i].1),
        ),
{
    let mut checked: Vec<ProjectPanelViewNode> = Vec::new();
    for pair in it: nodes
        invariant
            it.seq() == nodes@,
            node_views(checked@) == Seq::new(
                nodes@.len(),
                |i: int| nodes@[i].0@.with_path_if(nodes@[i].1),
            ).take(it.index()),
    {
        let ghost before = node_views(checked@);
        let (node, is_relative) = pair;
        let project_path = match node.project_path {
            Some(path) => project_path(path.worktree_id, path.path.as_str(), is_relative),
            None => None,
        };
        let node = ProjectPanelViewNode {
            id: node.id,
            title: node.title,
            icon: node.icon,
            is_container: node.is_container,
            project_path,
        };
        assert(node@ == pair.0@.with_path_if(pair.1));
        checked.push(node);
        assert(node_views(checked@) == before.push(node@));
    }
    checked
}

// ---------------------------------------------------------------------------------------------
// The registry
// ---------------------------------------------------------------------------------------------

/// The providers registered by id, the most recent one for each id.
pub open spec fn registered<P>(entries: Seq<(String, P)>) -> Map<Seq<char>, P>
    decreases entries.len(),
{
    if entries.len() == 0 {
        Map::empty()
    } else {
        registered(entries.drop_last()).insert(entries.last().0@, entries.last().1)
    }
}

/// Whether no id is registered twice.
pub open spec fn unique_ids<P>(entries: Seq<(String, P)>) -> bool {
    forall|i: int, j: int|
        0 <= i < j < entries.len() ==> (#[trigger] entries[i]).0@ != (#[trigger] entries[j]).0@
}

/// The providers of project panel views, each registered under an id of its own.
pub struct ProjectPanelViewProviderRegistry<P> {
    providers: Vec<(String, P)>,
}

impl<P> View for ProjectPanelViewProviderRegistry<P> {
    type V = Map<Seq<char>, P>;

    closed spec fn view(&self) -> Map<Seq<char>, P> {
        registered(self.providers@)
    }
}

proof fn lemma_registered<P>(entries: Seq<(String, P)>)
    requires
        unique_ids(entries),
    ensures
        forall|i: int|
            0 <= i < entries.len() ==> registered(entries).contains_key(
                (#[trigger] entries[i]).0@,
            ) && registered(entries)[entries[i].0@] == entries[i].1,
        forall|id: Seq<char>| #[trigger]
            registered(entries).contains_key(id) ==> exists|i: int|
                0 <= i < entries.len() && (#[trigger] entries[i]).0@ == id,
    decreases entries.len(),
{
    if entries.len() > 0 {
        let rest = entries.drop_last();
        lemma_registered(rest);
        assert forall|i: int| 0 <= i < entries.len() implies registered(entries).contains_key(
            (#[trigger] entries[i]).0@,
        ) && registered(entries)[entries[i].0@] == entries[i].1 by {
            if i < rest.len() {
                assert(rest[i] == entries[i]);
                assert(entries[i].0@ != entries[entries.len() - 1].0@);
            }
        }
        assert forall|id: Seq<char>| #[trigger]
            registered(entries).contains_key(id) implies exists|i: int|
            0 <= i < entries.len() && (#[trigger] entries[i]).0@ == id by {
            if id == entries.last().0@ {
                assert(entries[entries.len() - 1].0@ == id);
            } else {
                assert(registered(rest).contains_key(id));
                let i = choose|i: int| 0 <= i < rest.len() && (#[trigger] rest[i]).0@ == id;
                assert(entries[i].0@ == id);
            }
        }
    }
}

/// Where `id` is registered.
fn position<P>(entries: &Vec<(String, P)>, id: &str) -> (found: Option<usize>)
    ensures
        match found {
            Some(i) => i < entries@.len() && entries@[i as int].0@ == id@,
            None => forall|i: int| 0 <= i < entries@.len() ==> (#[trigger] entries@[i]).0@ != id@,
        },
{
    for i in 0..entries.len()
        invariant
            forall|j: int| 0 <= j < i ==> (#[trigger] entries@[j]).0@ != id@,
    {
        if same_text(entries[i].0.as_str(), id) {
            return Some(i);
        }
    }
    None
}

/// Taking out the entry of one id leaves the others registered as they were.
proof fn lemma_registered_without<P>(entries: Seq<(String, P)>, p: int)
    requires
        0 <= p < entries.len(),
        unique_ids(entries),
    ensures
        unique_ids(entries.remove(p)),
        registered(entries.remove(p)) == registered(entries).remove(entries[p].0@),
{
    let id = entries[p].0@;
    let kept = entries.remove(p);
    assert forall|i: int, j: int| 0 <= i < j < kept.len() implies (#[trigger] kept[i]).0@ != (
    #[trigger] kept[j]).0@ by {
        assert(kept[i] == entries[if i < p { i } else { i + 1 }]);
        assert(kept[j] == entries[if j < p { j } else { j + 1 }]);
    }
    lemma_registered(entries);
    lemma_registered(kept);
    assert forall|key: Seq<char>| registered(kept).contains_key(key) <==> #[trigger] registered(
        entries,
    ).remove(id).contains_key(key) by {
        if registered(kept).contains_key(key) {
            let i = choose|i: int| 0 <= i < kept.len() && (#[trigger] kept[i]).0@ == key;
            let k = if i < p { i } else { i + 1 };
            assert(kept[i] == entries[k]);
            assert(entries[k].0@ != entries[p].0@);
        }
        if registered(entries).remove(id).contains_key(key) {
            let k = choose|k: int| 0 <= k < entries.len() && (#[trigger] entries[k]).0@ == key;
            assert(kept[if k < p { k } else { k - 1 }] == entries[k]);
        }
    }
    assert forall|key: Seq<char>| #[trigger] registered(kept).contains_key(key) implies registered(
        kept,
    )[key] == registered(entries).remove(id)[key] by {
        let i = choose|i: int| 0 <= i < kept.len() && (#[trigger] kept[i]).0@ == key;
        let k = if i < p { i } else { i + 1 };
        assert(kept[i] == entries[k]);
        assert(entries[k].0@ != entries[p].0@);
    }
    assert(registered(kept) =~= registered(entries).remove(id));
}

/// The entries without the one of an id.
fn without<P>(entries: Vec<(String, P)>, id: &str) -> (kept: Vec<(String, P)>)
    requires
        unique_ids(entries@),
    ensures
        unique_ids(kept@),
        registered(kept@) == registered(entries@).remove(id@),
{
    let mut kept = entries;
    proof {
        lemma_registered(entries@);
    }
    match position(&kept, id) {
        Some(i) => {
            proof {
                lemma_registered_without(entries@, i as int);
            }
            let _ = kept.remove(i);
        },
        None => {
            assert(!registered(entries@).contains_key(id@));
            assert(registered(entries@) =~= registered(entries@).remove(id@));
        },
    }
    kept
}

impl<P> ProjectPanelViewProviderRegistry<P> {
    #[verifier::type_invariant]
    spec fn well_formed(self) -> bool {
        unique_ids(self.providers@)
    }

    /// A registry without providers.
    pub fn new() -> (registry: Self)
        ensures
            registry@ == Map::<Seq<char>, P>::empty(),
    {
        ProjectPanelViewProviderRegistry { providers: Vec::new() }
    }

    /// Registers a provider under an id, in place of the one registered under it so far.
    pub fn register(&mut self, id: String, provider: P)
        ensures
            final(self)@ == old(self)@.insert(id@, provider),
    {
        proof {
            use_type_invariant(&*self);
        }
        let ghost before = self@;
        let mut providers: Vec<(String, P)> = Vec::new();
        std::mem::swap(&mut providers, &mut self.providers);
        let mut providers = without(providers, id.as_str());
        let ghost kept = providers@;
        let ghost key = id@;
        providers.push((id, provider));
        proof {
            lemma_registered(kept);
            assert forall|i: int, j: int| 0 <= i < j < providers@.len() implies (
            #[trigger] providers@[i]).0@ != (#[trigger] providers@[j]).0@ by {
                assert(providers@[i] == kept[i]);
                if j < kept.len() {
                    assert(providers@[j] == kept[j]);
                } else {
                    assert(registered(kept).contains_key(kept[i].0@));
                }
            }
            assert(providers@.drop_last() == kept);
            assert(before.remove(key).insert(key, provider) =~= before.insert(key, provider));
        }
        self.providers = providers;
    }

    /// Takes out the provider registered under an id, if there is one.
    pub fn unregister(&mut self, id: &str)
        ensures
            final(self)@ == old(self)@.remove(id@),
    {
        proof {
            use_type_invariant(&*self);
        }
        let mut providers: Vec<(String, P)> = Vec::new();
        std::mem::swap(&mut providers, &mut self.providers);
        self.providers = without(providers, id);
    }

    /// The provider registered under an id.
    pub fn provider(&self, id: &str) -> (provider: Option<&P>)
        ensures
            match provider {
                Some(found) => self@.contains_key(id@) && *found == self@[id@],
                None => !self@.contains_key(id@),
            },
    {
        proof {
            use_type_invariant(self);
            lemma_registered(self.providers@);
        }
        match position(&self.providers, id) {
            Some(i) => Some(&self.providers[i].1),
            None => None,
        }
    }
}

impl<P> Default for ProjectPanelViewProviderRegistry<P> {
    fn default() -> (registry: Self)
        ensures
            registry@ == Map::<Seq<char>, P>::empty(),
    {
        Self::new()
    }
}

// ---------------------------------------------------------------------------------------------
// Laws
// ---------------------------------------------------------------------------------------------

/// Of two providers registered under one id, the later one counts.
pub proof fn the_last_registration_counts<P>(
    providers: Map<Seq<char>, P>,
    id: Seq<char>,
    first: P,
    second: P,
)
    ensures
        providers.insert(id, first).insert(id, second) == providers.insert(id, second),
        providers.insert(id, first).insert(id, second)[id] == second,
{
    assert(providers.insert(id, first).insert(id, second) =~= providers.insert(id, second));
}

/// Taking out a provider under a new id leaves the registry as it was before.
pub proof fn unregistering_undoes_registering<P>(
    providers: Map<Seq<char>, P>,
    id: Seq<char>,
    provider: P,
)
    requires
        !providers.contains_key(id),
    ensures
        providers.insert(id, provider).remove(id) == providers,
{
    assert(providers.insert(id, provider).remove(id) =~= providers);
}

/// Registering or taking out a provider leaves those under other ids alone.
pub proof fn other_providers_stay<P>(
    providers: Map<Seq<char>, P>,
    id: Seq<char>,
    provider: P,
    other: Seq<char>,
)
    requires
        other != id,
    ensures
        providers.insert(id, provider).contains_key(other) == providers.contains_key(other),
        providers.remove(id).contains_key(other) == providers.contains_key(other),
        providers.contains_key(other) ==> providers.insert(id, provider)[other]
            == providers[other] && providers.remove(id)[other] == providers[other],
{
}

/// Whatever the host says of a node's location, the rest of the node stays; and a node without a
/// location stays as it is.
pub proof fn checking_paths_only_clears_locations(node: NodeView, is_relative: bool)
    ensures
        node.with_path_if(is_relative).id == node.id,
        node.with_path_if(is_relative).title == node.title,
        node.with_path_if(is_relative).icon == node.icon,
        node.with_path_if(is_relative).is_container == node.is_container,
        node.with_path_if(is_relative).project_path == (if is_relative {
            node.project_path
        } else {
            None
        }),
        node.project_path is None ==> node.with_path_if(is_relative) == node,
{
}

/// What the contracts see of nodes and locations is all that they hold, node by node and in order.
pub proof fn nodes_are_seen_whole(nodes: Seq<ProjectPanelViewNode>, i: int)
    requires
        0 <= i < nodes.len(),
    ensures
        node_views(nodes).len() == nodes.len(),
        node_views(nodes)[i].id == nodes[i].id@,
        node_views(nodes)[i].title == nodes[i].title@,
        node_views(nodes)[i].is_container == nodes[i].is_container,
        nodes[i].icon is None <==> node_views(nodes)[i].icon is None,
        nodes[i].icon matches Some(icon) ==> node_views(nodes)[i].icon == Some(icon@),
        nodes[i].project_path is None <==> node_views(nodes)[i].project_path is None,
        nodes[i].project_path matches Some(path) ==> (node_views(nodes)[i].project_path matches Some(
            location,
        ) && location.worktree_id == path.worktree_id && location.path == path.path@),
{
}

}
