use solution_view::extension::{
    node_from_extension, node_to_extension, nodes_from_extension,
    ProjectPanelViewNode as ExtensionNode, ProjectPanelViewPath,
};
use solution_view::provider::{
    check_paths, project_path, ProjectPanelViewNode, ProjectPanelViewProviderRegistry, ProjectPath,
};

fn node(id: &str, path: Option<&str>) -> ProjectPanelViewNode {
    ProjectPanelViewNode {
        id: id.to_string(),
        title: format!("title of {id}"),
        icon: Some("icon".to_string()),
        is_container: path.is_none(),
        project_path: path.map(|path| ProjectPath {
            worktree_id: 5,
            path: path.to_string(),
        }),
    }
}

fn extension_node(id: &str, path: Option<&str>) -> ExtensionNode {
    ExtensionNode {
        id: id.to_string(),
        title: format!("title of {id}"),
        icon: Some("icon".to_string()),
        is_container: path.is_none(),
        project_path: path.map(|path| ProjectPanelViewPath {
            worktree_id: 5,
            path: path.to_string(),
        }),
    }
}

#[test]
fn providers_are_found_by_id() {
    let mut registry = ProjectPanelViewProviderRegistry::default();
    assert_eq!(registry.provider("a"), None);
    registry.register("a".to_string(), 1);
    registry.register("b".to_string(), 2);
    assert_eq!(registry.provider("a"), Some(&1));
    assert_eq!(registry.provider("b"), Some(&2));
    assert_eq!(registry.provider("A"), None);
}

#[test]
fn a_later_registration_replaces_an_earlier_one() {
    let mut registry = ProjectPanelViewProviderRegistry::new();
    registry.register("a".to_string(), 1);
    registry.register("b".to_string(), 2);
    registry.register("a".to_string(), 3);
    assert_eq!(registry.provider("a"), Some(&3));
    assert_eq!(registry.provider("b"), Some(&2));
    registry.unregister("a");
    assert_eq!(registry.provider("a"), None);
    assert_eq!(registry.provider("b"), Some(&2));
    registry.unregister("missing");
    assert_eq!(registry.provider("b"), Some(&2));
}

#[test]
fn locations_are_for_relative_paths_only() {
    assert_eq!(
        project_path(5, "a/b", true),
        Some(ProjectPath {
            worktree_id: 5,
            path: "a/b".to_string(),
        })
    );
    assert_eq!(project_path(5, "/a/b", false), None);
}

#[test]
fn rejected_locations_are_taken_out() {
    let checked = check_paths(vec![
        (node("a", Some("x")), true),
        (node("b", Some("/y")), false),
        (node("c", None), false),
        (node("d", None), true),
    ]);
    let mut cleared = node("b", Some("/y"));
    cleared.project_path = None;
    assert_eq!(
        checked,
        vec![node("a", Some("x")), cleared, node("c", None), node("d", None)]
    );
}

#[test]
fn nodes_survive_a_trip_to_an_extension() {
    for made in [node("a", Some("x")), node("b", None)] {
        let handed = node_to_extension(made.clone());
        assert_eq!(node_from_extension(handed, Ok::<(), String>(())), Ok(made));
    }
    let handed = extension_node("a", Some("x"));
    let taken = node_from_extension(handed.clone(), Ok::<(), String>(())).unwrap();
    assert_eq!(taken, node("a", Some("x")));
    assert_eq!(node_to_extension(taken), handed);
}

#[test]
fn a_rejected_location_is_an_error() {
    assert_eq!(
        node_from_extension(extension_node("a", Some("/x")), Err("absolute")),
        Err("absolute")
    );
    // A node without a location has none to reject.
    assert_eq!(
        node_from_extension(extension_node("a", None), Err("absolute")),
        Ok(node("a", None))
    );
}

#[test]
fn extension_nodes_are_taken_together_or_not_at_all() {
    assert_eq!(
        nodes_from_extension(vec![
            (extension_node("a", Some("x")), Ok(())),
            (extension_node("b", None), Err("ignored")),
        ]),
        Ok(vec![node("a", Some("x")), node("b", None)])
    );
    assert_eq!(
        nodes_from_extension(vec![
            (extension_node("a", None), Err("ignored")),
            (extension_node("b", Some("/x")), Err("first")),
            (extension_node("c", Some("/y")), Err("second")),
        ]),
        Err("first")
    );
    assert_eq!(nodes_from_extension::<String>(vec![]), Ok(vec![]));
}
