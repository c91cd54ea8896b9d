use solution_view::paths::{
    file_name, has_extension, is_noise_dir, is_solution_search_skip_dir, join_rel,
    normalize_project_reference, parent_dir,
};

#[test]
fn the_parent_is_what_stands_before_the_last_slash() {
    assert_eq!(parent_dir("a/b/c.cs"), "a/b");
    assert_eq!(parent_dir("c.cs"), "");
    assert_eq!(parent_dir("/c.cs"), "");
    assert_eq!(parent_dir("a/"), "a");
    assert_eq!(parent_dir(""), "");
}

#[test]
fn the_file_name_is_what_stands_after_the_last_slash() {
    assert_eq!(file_name("a/b/c.cs"), "c.cs");
    assert_eq!(file_name("c.cs"), "c.cs");
    assert_eq!(file_name("a/"), "");
}

#[test]
fn joining_and_taking_the_parent_go_together() {
    assert_eq!(join_rel("", "x.csproj"), "x.csproj");
    assert_eq!(join_rel("a/b", "x.csproj"), "a/b/x.csproj");
    assert_eq!(parent_dir(&join_rel("a/b", "x.csproj")), "a/b");
    assert_eq!(file_name(&join_rel("", "x.csproj")), "x.csproj");
}

#[test]
fn extensions_are_compared_without_regard_to_ascii_case() {
    assert!(has_extension("Game.sln", "sln"));
    assert!(has_extension("Game.SLN", "sln"));
    assert!(has_extension(".sln", "sln"));
    assert!(has_extension("a.b.sln", "SLN"));
    assert!(!has_extension("sln", "sln"));
    assert!(!has_extension("Game.sln.user", "sln"));
    assert!(!has_extension("Game.slnx", "sln"));
    assert!(has_extension("Game.", ""));
}

#[test]
fn build_output_is_noise() {
    for name in ["bin", "obj", ".vs", ".idea", "Library", "Temp", "Logs", "node_modules"] {
        assert!(is_noise_dir(name));
        assert!(is_solution_search_skip_dir(name));
    }
    for name in ["Bin", "library", "src", ".git", "docs", ""] {
        assert!(!is_noise_dir(name));
    }
}

#[test]
fn the_search_skips_dotfiles_and_asset_trees() {
    for name in [".git", ".config", ".", "Assets", "Packages", "PackageCache", "docs"] {
        assert!(is_solution_search_skip_dir(name));
    }
    for name in ["src", "assets", "Docs", ""] {
        assert!(!is_solution_search_skip_dir(name));
    }
}

#[test]
fn references_are_followed_from_the_project() {
    assert_eq!(
        normalize_project_reference("App", "../Core/Core.csproj"),
        "Core/Core.csproj"
    );
    assert_eq!(normalize_project_reference("", "Core/Core.csproj"), "Core/Core.csproj");
    assert_eq!(normalize_project_reference("a/b", "c/d.cs"), "a/b/c/d.cs");
    assert_eq!(normalize_project_reference("a/b", "./c//d.cs"), "a/b/c/d.cs");
    assert_eq!(normalize_project_reference("a/b", "../../d.cs"), "d.cs");
    assert_eq!(normalize_project_reference("a", ".."), "");
    assert_eq!(normalize_project_reference("a", ""), "a");
}

#[test]
fn references_out_of_the_root_are_left_alone() {
    assert_eq!(normalize_project_reference("a", "../../x.csproj"), "../../x.csproj");
    assert_eq!(normalize_project_reference("", "../x.csproj"), "../x.csproj");
    assert_eq!(normalize_project_reference("", "a/../../b"), "a/../../b");
}

#[test]
fn dots_in_the_base_are_followed_too() {
    assert_eq!(normalize_project_reference("a/b/../C", "../../X/X.csproj"), "X/X.csproj");
    assert_eq!(normalize_project_reference("sub/../A", "../X/X.csproj"), "X/X.csproj");
    assert_eq!(normalize_project_reference("sub/../A", "a.cs"), "A/a.cs");
    assert_eq!(normalize_project_reference("./a//b/", "c.cs"), "a/b/c.cs");
    assert_eq!(normalize_project_reference("a/..", "."), "");
    // The same place as from the plain directory.
    for reference in ["x.cs", "../x.cs", "../../x.cs", "../../../x.cs", ""] {
        assert_eq!(
            normalize_project_reference("a/b/../C", reference),
            normalize_project_reference("a/C", reference)
        );
    }
}

#[test]
fn references_out_of_the_root_by_way_of_the_base_are_left_alone() {
    assert_eq!(normalize_project_reference("..", "../X/X.csproj"), "../X/X.csproj");
    assert_eq!(normalize_project_reference("sub/../A", "../../X/X.csproj"), "../../X/X.csproj");
    assert_eq!(normalize_project_reference("..", "X.csproj"), "X.csproj");
    assert_eq!(normalize_project_reference("a/../..", "b/../X.csproj"), "b/../X.csproj");
    assert_eq!(normalize_project_reference("../a", "X.csproj"), "X.csproj");
}
