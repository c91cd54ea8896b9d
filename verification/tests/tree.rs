use std::collections::BTreeMap;

use solution_view::items::{collect_items, item_nodes, level_nodes};
use solution_view::node_id::{decode_id, encode_id, NodeKind};
use solution_view::nodes::{
    container, dependency_nodes, dir_nodes, encode_owned_id, leaf, listed_project_nodes,
    project_node, DEPENDENCIES_ICON, PACKAGE_ICON,
};
use solution_view::parse::CsprojInfo;
use solution_view::provider::{project_path, ProjectPanelViewNode, ProjectPath};
use solution_view::tree::{
    plan_children, project_children, root_nodes, solution_children, ChildrenPlan, DISPLAY_NAME,
    PROVIDER_ID,
};
use solution_view::worktree::{
    sole_worktree, WorktreeDirectory, WorktreeEntry, WorktreeSnapshot, MAX_SOLUTION_SEARCH_DEPTH,
};

/// The snapshot of a worktree with the given files, each directory's entries in the order of
/// their names.
fn snapshot(files: &[&str]) -> WorktreeSnapshot {
    let mut directories: BTreeMap<String, BTreeMap<String, bool>> = BTreeMap::new();
    directories.insert(String::new(), BTreeMap::new());
    for file in files {
        let parts: Vec<&str> = file.split('/').collect();
        for i in 0..parts.len() {
            let parent = parts[..i].join("/");
            let path = parts[..=i].join("/");
            directories
                .entry(parent)
                .or_default()
                .insert(path, i + 1 < parts.len());
        }
    }
    WorktreeSnapshot {
        directories: directories
            .into_iter()
            .map(|(path, entries)| WorktreeDirectory {
                path,
                entries: entries
                    .into_iter()
                    .map(|(path, is_dir)| WorktreeEntry {
                        file_name: path.rsplit('/').next().map(|name| name.to_string()),
                        is_dir,
                        path,
                    })
                    .collect(),
            })
            .collect(),
    }
}

const WORKTREE: u64 = 7;

struct Fixture {
    texts: Vec<(&'static str, &'static str)>,
    snapshot: WorktreeSnapshot,
}

/// A fixture mirroring the Aspid.FastTools layout: solutions nested one directory below the
/// worktree root, alongside Unity build noise (`Library`, `obj`) that must be hidden.
fn fasttools_project() -> Fixture {
    let texts = vec![
        (".git/HEAD", ""),
        ("docs/readme.md", ""),
        (
            "Aspid.FastTools.Generators/Aspid.FastTools.Generators.sln",
            "Project(\"{FAE04EC0-301F-11D3-BF4B-00C04F79EFBC}\") = \"Aspid.FastTools.Generators\", \"Aspid.FastTools.Generators.csproj\", \"{1}\"\n",
        ),
        (
            "Aspid.FastTools.Generators/Aspid.FastTools.Generators.csproj",
            "<Project Sdk=\"Microsoft.NET.Sdk\"><ItemGroup><PackageReference Include=\"Microsoft.CodeAnalysis\" Version=\"4.0.0\" /></ItemGroup></Project>",
        ),
        ("Aspid.FastTools.Generators/Generator.cs", ""),
        (
            "Aspid.FastTools/Aspid.FastTools.sln",
            "Project(\"{FAE04EC0-301F-11D3-BF4B-00C04F79EFBC}\") = \"Aspid.FastTools\", \"Aspid.FastTools.csproj\", \"{1}\"\nProject(\"{2150E333-8FDC-42A3-9474-1A3956D46DE8}\") = \"Solution Items\", \"Solution Items\", \"{9}\"\n",
        ),
        // Legacy Unity-style project: no `Sdk` attribute, explicit compile items.
        (
            "Aspid.FastTools/Aspid.FastTools.csproj",
            "<Project ToolsVersion=\"4.0\"><ItemGroup><Compile Include=\"Source\\Foo.cs\" /><Compile Include=\"Assets\\Bar.cs\" /><PackageReference Include=\"Newtonsoft.Json\" Version=\"13.0.3\" /><ProjectReference Include=\"..\\Aspid.FastTools.Generators\\Aspid.FastTools.Generators.csproj\" /></ItemGroup></Project>",
        ),
        ("Aspid.FastTools/Source/Foo.cs", ""),
        ("Aspid.FastTools/Assets/Bar.cs", ""),
        ("Aspid.FastTools/Library/ScriptAssemblies/x.dll", ""),
        ("Aspid.FastTools/obj/project.assets.json", ""),
    ];
    let files: Vec<&str> = texts.iter().map(|(path, _)| *path).collect();
    let snapshot = snapshot(&files);
    Fixture { texts, snapshot }
}

impl Fixture {
    fn roots(&self) -> Vec<ProjectPanelViewNode> {
        root_nodes(WORKTREE, &self.snapshot)
    }

    fn children(&self, node: &ProjectPanelViewNode) -> Vec<ProjectPanelViewNode> {
        let plan = plan_children(&node.id);
        let text = match plan.file_to_load() {
            Some(file) => self
                .texts
                .iter()
                .find(|(path, _)| *path == file)
                .map(|(_, text)| *text)
                .expect("file of the plan"),
            None => "",
        };
        plan.nodes(text, &self.snapshot)
    }
}

fn titles(nodes: &[ProjectPanelViewNode]) -> Vec<String> {
    nodes.iter().map(|node| node.title.to_string()).collect()
}

fn strings(texts: &[&str]) -> Vec<String> {
    texts.iter().map(|text| text.to_string()).collect()
}

fn path(rel: &str) -> Option<ProjectPath> {
    Some(ProjectPath {
        worktree_id: WORKTREE,
        path: rel.to_string(),
    })
}

#[test]
fn discovers_nested_solutions() {
    let project = fasttools_project();
    let roots = project.roots();
    // Both nested solutions found, sorted by path; the `docs`/`.git` dirs are skipped.
    assert_eq!(
        titles(&roots),
        vec![
            "Aspid.FastTools.Generators.sln".to_string(),
            "Aspid.FastTools.sln".to_string(),
        ]
    );
}

#[test]
fn expands_solution_project_and_dependencies() {
    let project = fasttools_project();

    let roots = project.roots();
    let solution = roots
        .iter()
        .find(|node| node.title == "Aspid.FastTools.sln")
        .cloned()
        .expect("solution node");

    // Solution folders (`Solution Items`) are skipped; only the real project remains.
    let projects = project.children(&solution);
    assert_eq!(titles(&projects), vec!["Aspid.FastTools".to_string()]);

    // A legacy Unity-style project shows only its explicit compile items (as virtual
    // directories), not the shared directory next to the `.sln` with every other project.
    let project_children = project.children(&projects[0]);
    assert_eq!(
        titles(&project_children),
        vec![
            "Dependencies".to_string(),
            "Assets".to_string(),
            "Source".to_string(),
        ]
    );

    let assets = project_children
        .iter()
        .find(|node| node.title == "Assets")
        .cloned()
        .expect("assets node");
    let assets_children = project.children(&assets);
    assert_eq!(titles(&assets_children), vec!["Bar.cs".to_string()]);
    assert_eq!(
        assets_children[0].project_path,
        project_path(WORKTREE, "Aspid.FastTools/Assets/Bar.cs", true),
    );

    let dependencies = project_children
        .into_iter()
        .find(|node| node.title == "Dependencies")
        .expect("dependencies node");
    let deps = project.children(&dependencies);
    assert_eq!(
        titles(&deps),
        vec![
            "Newtonsoft.Json (13.0.3)".to_string(),
            "Aspid.FastTools.Generators".to_string(),
        ]
    );
}

#[test]
fn sdk_project_lists_its_directory_without_project_files() {
    let project = fasttools_project();

    let roots = project.roots();
    let solution = roots
        .iter()
        .find(|node| node.title == "Aspid.FastTools.Generators.sln")
        .cloned()
        .expect("generators solution node");
    let projects = project.children(&solution);
    assert_eq!(
        titles(&projects),
        vec!["Aspid.FastTools.Generators".to_string()]
    );

    // SDK-style projects list their directory, minus `.sln`/`.csproj` entries which are
    // already represented by the solution/project nodes themselves.
    let children = project.children(&projects[0]);
    assert_eq!(
        titles(&children),
        vec!["Dependencies".to_string(), "Generator.cs".to_string()]
    );
}

// ---------------------------------------------------------------------------------------------
// Worktrees
// ---------------------------------------------------------------------------------------------

#[test]
fn only_a_single_worktree_counts() {
    assert_eq!(sole_worktree(Vec::<u64>::new()), None);
    assert_eq!(sole_worktree(vec![4]), Some(4));
    assert_eq!(sole_worktree(vec![4, 5]), None);
}

#[test]
fn listings_hide_noise_directories_only() {
    let snapshot = snapshot(&["a/bin/x", "a/Src/y", "a/obj", "a/.git/z", "b"]);
    assert_eq!(
        snapshot.list_dir("a"),
        vec![
            (".git".to_string(), true, "a/.git".to_string()),
            ("Src".to_string(), true, "a/Src".to_string()),
            // A file may be called like a noise directory.
            ("obj".to_string(), false, "a/obj".to_string()),
        ]
    );
    assert_eq!(snapshot.list_dir("missing"), vec![]);
}

#[test]
fn nameless_entries_are_not_listed() {
    let snapshot = WorktreeSnapshot {
        directories: vec![WorktreeDirectory {
            path: "a".to_string(),
            entries: vec![
                WorktreeEntry {
                    file_name: None,
                    is_dir: true,
                    path: String::new(),
                },
                WorktreeEntry {
                    file_name: Some("f".to_string()),
                    is_dir: false,
                    path: "a/f".to_string(),
                },
            ],
        }],
    };
    assert_eq!(
        snapshot.list_dir("a"),
        vec![("f".to_string(), false, "a/f".to_string())]
    );
}

#[test]
fn the_search_goes_three_levels_down() {
    assert_eq!(MAX_SOLUTION_SEARCH_DEPTH, 3);
    let snapshot = snapshot(&["0.sln", "a/1.sln", "a/b/2.sln", "a/b/c/3.SLN", "a/b/c/d/4.sln"]);
    assert_eq!(
        snapshot.find_solutions(),
        vec![
            ("0.sln".to_string(), "0.sln".to_string()),
            ("1.sln".to_string(), "a/1.sln".to_string()),
            ("2.sln".to_string(), "a/b/2.sln".to_string()),
            ("3.SLN".to_string(), "a/b/c/3.SLN".to_string()),
        ]
    );
}

#[test]
fn solutions_are_sorted_by_path_and_skipped_directories_are_not_entered() {
    let snapshot = snapshot(&[
        "b/Y.sln",
        "a.b/Z.sln",
        "a/X.sln",
        "Z.sln",
        "bin/no.sln",
        ".hidden/no.sln",
        "Assets/no.sln",
        "Packages/no.sln",
        "docs/no.sln",
        "a/no.slnx",
        "dir.sln/x.txt",
    ]);
    let paths: Vec<String> = snapshot
        .find_solutions()
        .into_iter()
        .map(|(_, path)| path)
        .collect();
    assert_eq!(paths, vec!["Z.sln", "a.b/Z.sln", "a/X.sln", "b/Y.sln"]);
}

#[test]
fn a_worktree_that_contains_itself_is_searched_to_the_end() {
    let entry = |name: &str, is_dir: bool, path: &str| WorktreeEntry {
        file_name: Some(name.to_string()),
        is_dir,
        path: path.to_string(),
    };
    let snapshot = WorktreeSnapshot {
        directories: vec![WorktreeDirectory {
            path: String::new(),
            entries: vec![entry("loop", true, ""), entry("A.sln", false, "A.sln")],
        }],
    };
    assert_eq!(snapshot.find_solutions().len(), 4);
}

// ---------------------------------------------------------------------------------------------
// Ids
// ---------------------------------------------------------------------------------------------

#[test]
fn ids_decode_to_what_they_were_encoded_from() {
    for (kind, tag) in [
        (NodeKind::Solution, "sln"),
        (NodeKind::Project, "proj"),
        (NodeKind::Dependencies, "deps"),
        (NodeKind::Directory, "dir"),
        (NodeKind::ItemDirectory, "itemdir"),
    ] {
        assert_eq!(kind.tag(), tag);
        for rel in ["", "a/b.csproj", "a|b|c"] {
            let id = encode_id(kind, 42, rel);
            assert_eq!(id, format!("{tag}|42|{rel}"));
            assert_eq!(decode_id(&id), Some((tag.to_string(), 42, rel.to_string())));
        }
    }
}

#[test]
fn ids_need_three_parts_and_a_number() {
    for id in ["", "sln", "sln|1", "sln|x|a", "sln||a", "sln|-1|a", "sln|18446744073709551616|a"] {
        assert_eq!(decode_id(id), None);
        assert_eq!(plan_children(id), ChildrenPlan::Nothing);
    }
    assert_eq!(
        decode_id("any|+1|"),
        Some(("any".to_string(), 1, String::new()))
    );
    assert_eq!(plan_children("any|1|a"), ChildrenPlan::Nothing);
    assert_eq!(plan_children("itemdir|1|no bar"), ChildrenPlan::Nothing);
}

#[test]
fn owned_ids_name_their_owner() {
    assert_eq!(encode_owned_id("pkg", "a.csproj", "P"), "pkg|a.csproj|P");
    assert_ne!(
        encode_owned_id("pkg", "a.csproj", "P"),
        encode_owned_id("pkg", "b.csproj", "P")
    );
}

// ---------------------------------------------------------------------------------------------
// Nodes
// ---------------------------------------------------------------------------------------------

#[test]
fn containers_and_leaves_differ_in_being_expandable() {
    let made = container("i".to_string(), "t".to_string(), None, path("p"));
    assert!(made.is_container);
    let other = leaf("i".to_string(), "t".to_string(), path("p"), None);
    assert_eq!(
        other,
        ProjectPanelViewNode {
            is_container: false,
            ..made
        }
    );
}

#[test]
fn project_nodes_carry_their_file() {
    assert_eq!(
        project_node(WORKTREE, "Game", "src/Game.csproj"),
        ProjectPanelViewNode {
            id: "proj|7|src/Game.csproj".to_string(),
            title: "Game".to_string(),
            icon: None,
            is_container: true,
            project_path: path("src/Game.csproj"),
        }
    );
}

#[test]
fn listed_entries_become_directories_and_files() {
    let listed = vec![
        ("sub.sln".to_string(), true, "a/sub.sln".to_string()),
        ("A.csproj".to_string(), false, "a/A.csproj".to_string()),
        ("A.SLN".to_string(), false, "a/A.SLN".to_string()),
        ("x.cs".to_string(), false, "a/x.cs".to_string()),
    ];
    assert_eq!(
        dir_nodes(WORKTREE, &listed),
        vec![
            ProjectPanelViewNode {
                id: "dir|7|a/sub.sln".to_string(),
                title: "sub.sln".to_string(),
                icon: None,
                is_container: true,
                project_path: None,
            },
            ProjectPanelViewNode {
                id: "file|a/x.cs".to_string(),
                title: "x.cs".to_string(),
                icon: None,
                is_container: false,
                project_path: path("a/x.cs"),
            },
        ]
    );
    assert_eq!(
        listed_project_nodes(WORKTREE, &listed),
        vec![project_node(WORKTREE, "A.csproj", "a/A.csproj")]
    );
}

#[test]
fn dependencies_list_packages_and_projects() {
    let info = CsprojInfo {
        is_sdk_style: true,
        package_references: vec![
            ("P".to_string(), Some("1.0".to_string())),
            ("Q".to_string(), None),
        ],
        project_references: strings(&["../Core/Core.csproj.csproj", "../../Out.csproj"]),
        compile_items: vec![],
    };
    assert_eq!(
        dependency_nodes(WORKTREE, "App/App.csproj", &info),
        vec![
            ProjectPanelViewNode {
                id: "pkg|App/App.csproj|P".to_string(),
                title: "P (1.0)".to_string(),
                icon: Some(PACKAGE_ICON.to_string()),
                is_container: false,
                project_path: None,
            },
            ProjectPanelViewNode {
                id: "pkg|App/App.csproj|Q".to_string(),
                title: "Q".to_string(),
                icon: Some("icons/file_icons/package.svg".to_string()),
                is_container: false,
                project_path: None,
            },
            ProjectPanelViewNode {
                id: "projref|App/App.csproj|Core/Core.csproj.csproj".to_string(),
                title: "Core".to_string(),
                icon: None,
                is_container: false,
                project_path: path("Core/Core.csproj.csproj"),
            },
            ProjectPanelViewNode {
                id: "projref|App/App.csproj|../../Out.csproj".to_string(),
                title: "Out".to_string(),
                icon: None,
                is_container: false,
                project_path: path("../../Out.csproj"),
            },
        ]
    );
}

// ---------------------------------------------------------------------------------------------
// Items
// ---------------------------------------------------------------------------------------------

#[test]
fn items_are_sorted_into_directories_and_files() {
    let items = strings(&["b/x.cs", "Root.cs", "A/y.cs", "b/c/z.cs", "", "/odd.cs"]);
    let (directories, files) = collect_items(&items, "");
    assert_eq!(directories, strings(&["b", "A", ""]));
    assert_eq!(files, vec![("Root.cs".to_string(), "Root.cs".to_string())]);
    let (directories, files) = collect_items(&items, "b");
    assert_eq!(directories, strings(&["c"]));
    assert_eq!(files, vec![("x.cs".to_string(), "b/x.cs".to_string())]);
}

#[test]
fn a_prefix_is_a_whole_directory() {
    let items = strings(&["Assets/a.cs", "Assets2/b.cs", "Assets", "Assets/", "assets/c.cs"]);
    let (directories, files) = collect_items(&items, "Assets");
    assert_eq!(directories, Vec::<String>::new());
    assert_eq!(files, vec![("a.cs".to_string(), "Assets/a.cs".to_string())]);
}

#[test]
fn item_levels_are_in_case_insensitive_order() {
    let items = strings(&[
        "beta.cs", "Zeta/1.cs", "alpha/2.cs", "Alpha.cs", "\u{c4}b.cs", "\u{e4}a.cs", "Zeta/3.cs",
        "GAMMA.cs",
    ]);
    let nodes = item_nodes(WORKTREE, "p/P.csproj", &items, "");
    assert_eq!(
        titles(&nodes),
        strings(&[
            "alpha", "Zeta", "Alpha.cs", "beta.cs", "GAMMA.cs", "\u{e4}a.cs", "\u{c4}b.cs",
        ])
    );
    assert_eq!(
        nodes[0],
        ProjectPanelViewNode {
            id: "itemdir|7|p/P.csproj|alpha".to_string(),
            title: "alpha".to_string(),
            icon: None,
            is_container: true,
            project_path: None,
        }
    );
    assert_eq!(
        nodes[2],
        ProjectPanelViewNode {
            id: "item|p/P.csproj|Alpha.cs".to_string(),
            title: "Alpha.cs".to_string(),
            icon: None,
            is_container: false,
            project_path: path("p/Alpha.cs"),
        }
    );
}

#[test]
fn items_listed_twice_are_shown_twice_and_keep_their_order() {
    let items = strings(&["B.cs", "b.cs", "B.cs"]);
    let nodes = item_nodes(WORKTREE, "P.csproj", &items, "");
    assert_eq!(titles(&nodes), strings(&["B.cs", "b.cs", "B.cs"]));
}

#[test]
fn nested_item_directories_lead_down_to_their_items() {
    let items = strings(&["Assets/Scripts/A.cs", "Assets/Scripts/Deep/B.cs"]);
    let nodes = item_nodes(WORKTREE, "P.csproj", &items, "Assets");
    assert_eq!(titles(&nodes), strings(&["Scripts"]));
    assert_eq!(
        plan_children(&nodes[0].id),
        ChildrenPlan::ItemDirectory {
            worktree_id: WORKTREE,
            csproj_rel: "P.csproj".to_string(),
            subdir: "Assets/Scripts".to_string(),
        }
    );
    let below = item_nodes(WORKTREE, "P.csproj", &items, "Assets/Scripts");
    assert_eq!(titles(&below), strings(&["Deep", "A.cs"]));
}

#[test]
fn items_outside_the_project_are_followed_up() {
    let items = strings(&["../Shared/S.cs"]);
    let nodes = item_nodes(WORKTREE, "p/P.csproj", &items, "..");
    assert_eq!(titles(&nodes), strings(&["Shared"]));
    let nodes = item_nodes(WORKTREE, "p/P.csproj", &items, "../Shared");
    assert_eq!(nodes[0].project_path, path("Shared/S.cs"));
}

#[test]
fn levels_show_what_they_are_given() {
    let nodes = level_nodes(
        WORKTREE,
        "P.csproj",
        "x",
        &strings(&["z", "y"]),
        &vec![("f".to_string(), "x/f".to_string())],
    );
    assert_eq!(titles(&nodes), strings(&["z", "y", "f"]));
    assert_eq!(nodes[0].id, "itemdir|7|P.csproj|x/z");
    assert_eq!(nodes[2].id, "item|P.csproj|x/f");
}

// ---------------------------------------------------------------------------------------------
// The tree
// ---------------------------------------------------------------------------------------------

#[test]
fn the_provider_is_called_solution() {
    assert_eq!(PROVIDER_ID, "solution");
    assert_eq!(DISPLAY_NAME, "Solution");
}

#[test]
fn roots_are_solutions_with_their_files() {
    let roots = root_nodes(3, &snapshot(&["a/A.sln"]));
    assert_eq!(
        roots,
        vec![ProjectPanelViewNode {
            id: "sln|3|a/A.sln".to_string(),
            title: "A.sln".to_string(),
            icon: None,
            is_container: true,
            project_path: Some(ProjectPath {
                worktree_id: 3,
                path: "a/A.sln".to_string(),
            }),
        }]
    );
}

#[test]
fn without_a_solution_the_top_level_projects_are_roots() {
    let roots = root_nodes(
        WORKTREE,
        &snapshot(&["B.csproj", "A.CSPROJ", "x.cs", "sub/C.csproj", "dir.csproj/y"]),
    );
    assert_eq!(
        roots,
        vec![
            project_node(WORKTREE, "A.CSPROJ", "A.CSPROJ"),
            project_node(WORKTREE, "B.csproj", "B.csproj"),
        ]
    );
    assert_eq!(root_nodes(WORKTREE, &snapshot(&["x.cs"])), vec![]);
}

#[test]
fn plans_say_what_they_need() {
    let rel = "a/P.csproj".to_string();
    let plan = plan_children("sln|1|a/S.sln");
    assert_eq!(plan.file_to_load(), Some("a/S.sln"));
    assert_eq!(plan.directory_to_list(), None);
    let plan = plan_children("proj|1|a/P.csproj");
    assert_eq!(
        plan,
        ChildrenPlan::Project {
            worktree_id: 1,
            rel: rel.clone(),
        }
    );
    assert_eq!(plan.file_to_load(), Some("a/P.csproj"));
    assert_eq!(plan.directory_to_list(), Some("a".to_string()));
    let plan = plan_children("deps|1|a/P.csproj");
    assert_eq!(
        plan,
        ChildrenPlan::Dependencies {
            worktree_id: 1,
            rel,
        }
    );
    assert_eq!(plan.file_to_load(), Some("a/P.csproj"));
    let plan = plan_children("dir|1|a");
    assert_eq!(plan.file_to_load(), None);
    assert_eq!(plan.directory_to_list(), Some("a".to_string()));
    let plan = plan_children("itemdir|1|a/P.csproj|x/y");
    assert_eq!(plan.file_to_load(), Some("a/P.csproj"));
    assert_eq!(plan.directory_to_list(), None);
    let plan = plan_children("file|a");
    assert_eq!(plan.file_to_load(), None);
    assert_eq!(plan.directory_to_list(), None);
    assert_eq!(plan.nodes("text", &snapshot(&["a"])), vec![]);
}

#[test]
fn leaves_lead_nowhere_even_if_their_paths_look_like_ids() {
    for id in ["file|1|a", "pkg|1|a", "projref|1|a", "item|1|a|b"] {
        assert_eq!(plan_children(id), ChildrenPlan::Nothing);
    }
}

#[test]
fn every_node_expands_exactly_if_it_is_a_container() {
    let project = fasttools_project();
    let mut pending = project.roots();
    let mut seen: usize = 0;
    while let Some(node) = pending.pop() {
        seen += 1;
        assert_eq!(node.is_container, plan_children(&node.id) != ChildrenPlan::Nothing);
        if let Some(location) = &node.project_path {
            assert_eq!(location.worktree_id, WORKTREE);
            assert_eq!(node.icon, None);
        }
        pending.extend(project.children(&node));
    }
    assert_eq!(seen, 14);
}

#[test]
fn a_plan_needs_only_the_directory_it_asks_for() {
    let project = fasttools_project();
    let whole = &project.snapshot;
    let plan = plan_children("dir|7|Aspid.FastTools");
    let path = plan.directory_to_list().expect("directory of the plan");
    let part = WorktreeSnapshot {
        directories: whole
            .directories
            .iter()
            .filter(|directory| directory.path == path)
            .cloned()
            .collect(),
    };
    assert_eq!(part.directories.len(), 1);
    assert_eq!(plan.nodes("", &part), plan.nodes("", whole));
    assert_eq!(titles(&plan.nodes("", &part)), strings(&["Assets", "Source"]));
}

#[test]
fn projects_of_a_solution_are_found_from_its_directory() {
    let nodes = solution_children(
        WORKTREE,
        "sub/S.sln",
        "Project(\"{1}\") = \"A\", \"..\\A\\A.csproj\", \"{2}\"\n",
    );
    assert_eq!(nodes, vec![project_node(WORKTREE, "A", "sub/../A/A.csproj")]);
}

#[test]
fn projects_beside_their_solution_refer_from_where_they_are() {
    let csproj_rel = "sub/../A/A.csproj";
    let info = CsprojInfo {
        is_sdk_style: false,
        package_references: vec![],
        project_references: strings(&["../B/B.csproj", "../../X/X.csproj"]),
        compile_items: strings(&["a.cs", "../../x.cs"]),
    };
    let nodes = dependency_nodes(WORKTREE, csproj_rel, &info);
    assert_eq!(nodes[0].id, "projref|sub/../A/A.csproj|B/B.csproj");
    assert_eq!(nodes[0].project_path, path("B/B.csproj"));
    // Out of the worktree: the reference as it is written.
    assert_eq!(nodes[1].id, "projref|sub/../A/A.csproj|../../X/X.csproj");
    assert_eq!(nodes[1].project_path, path("../../X/X.csproj"));
    let files = item_nodes(WORKTREE, csproj_rel, &info.compile_items, "");
    assert_eq!(titles(&files), strings(&["..", "a.cs"]));
    assert_eq!(files[1].project_path, path("A/a.cs"));
    let outside = item_nodes(WORKTREE, csproj_rel, &info.compile_items, "../..");
    assert_eq!(titles(&outside), strings(&["x.cs"]));
    assert_eq!(outside[0].project_path, path("../../x.cs"));
}

#[test]
fn project_children_depend_on_the_style_of_the_project() {
    let snapshot = snapshot(&["p/P.csproj", "p/a.cs", "p/bin/b.dll"]);
    let legacy = CsprojInfo {
        is_sdk_style: false,
        package_references: vec![],
        project_references: vec![],
        compile_items: strings(&["listed.cs"]),
    };
    let nodes = project_children(WORKTREE, "p/P.csproj", &legacy, &snapshot);
    assert_eq!(titles(&nodes), strings(&["Dependencies", "listed.cs"]));
    assert_eq!(
        nodes[0],
        ProjectPanelViewNode {
            id: "deps|7|p/P.csproj".to_string(),
            title: "Dependencies".to_string(),
            icon: Some(DEPENDENCIES_ICON.to_string()),
            is_container: true,
            project_path: None,
        }
    );
    assert_eq!(DEPENDENCIES_ICON, "icons/blocks.svg");
    let sdk = CsprojInfo {
        is_sdk_style: true,
        ..legacy
    };
    let nodes = project_children(WORKTREE, "p/P.csproj", &sdk, &snapshot);
    assert_eq!(titles(&nodes), strings(&["Dependencies", "a.cs"]));
}
