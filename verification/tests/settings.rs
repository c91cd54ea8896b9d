use solution_view::settings::{
    AutoOpenContent, AutoOpenSettings, GitContent, Host, IndentGuidesContent, ProjectPanelContent,
    ProjectPanelSettings, ProjectPanelView, ProjectPanelViewContent, ProjectPanelViewsSettings,
    ScrollbarContent, ScrollbarSettings, SettingsContent,
};

struct TestHost;

impl Host for TestHost {
    type Pixels = f32;
    type DockSide = &'static str;
    type EntrySpacing = &'static str;
    type IndentSize = f32;
    type ShowIndentGuides = &'static str;
    type ShowScrollbar = &'static str;
    type ShowDiagnostics = &'static str;
    type SortMode = &'static str;
    type SortOrder = &'static str;
    type ViewSelector = &'static str;
}

fn panel() -> ProjectPanelContent<TestHost> {
    ProjectPanelContent {
        button: Some(true),
        hide_gitignore: Some(false),
        default_width: Some(240.0),
        dock: Some("left"),
        entry_spacing: Some("comfortable"),
        file_icons: Some(true),
        folder_icons: Some(false),
        git_status: Some(true),
        indent_size: Some(20.0),
        indent_guides: Some(IndentGuidesContent {
            show: Some("always"),
        }),
        sticky_scroll: Some(true),
        auto_reveal_entries: Some(false),
        auto_fold_dirs: Some(true),
        fold_single_file_dirs: Some(false),
        bold_folder_labels: Some(true),
        starts_open: Some(false),
        scrollbar: Some(ScrollbarContent {
            show: None,
            horizontal_scroll: Some(true),
        }),
        show_diagnostics: Some("all"),
        hide_root: Some(false),
        hide_hidden: Some(true),
        drag_and_drop: Some(false),
        auto_open: Some(AutoOpenContent {
            on_create: Some(true),
            on_paste: Some(false),
            on_drop: Some(true),
        }),
        sort_mode: Some("directories_first"),
        sort_order: Some("default"),
        diagnostic_badges: Some(true),
        git_status_indicator: Some(false),
        view_selector: Some("tabs"),
    }
}

fn content(git: Option<Option<bool>>) -> SettingsContent<TestHost> {
    SettingsContent {
        project_panel: Some(panel()),
        git: git.map(|status_enabled| GitContent { status_enabled }),
    }
}

#[test]
fn settings_carry_every_value_over() {
    let content = content(Some(Some(true)));
    assert!(content.has_all_values());
    let settings = ProjectPanelSettings::from_settings(content);
    assert!(settings.button);
    assert!(!settings.hide_gitignore);
    assert_eq!(settings.default_width, 240.0);
    assert_eq!(settings.dock, "left");
    assert_eq!(settings.entry_spacing, "comfortable");
    assert!(settings.file_icons);
    assert!(!settings.folder_icons);
    assert!(settings.git_status);
    assert_eq!(settings.indent_size, 20.0);
    assert_eq!(settings.indent_guides.show, "always");
    assert!(settings.sticky_scroll);
    assert!(!settings.auto_reveal_entries);
    assert!(settings.auto_fold_dirs);
    assert!(!settings.fold_single_file_dirs);
    assert!(settings.bold_folder_labels);
    assert!(!settings.starts_open);
    assert_eq!(settings.scrollbar.show, None);
    assert!(settings.scrollbar.horizontal_scroll);
    assert_eq!(settings.show_diagnostics, "all");
    assert!(!settings.hide_root);
    assert!(settings.hide_hidden);
    assert!(!settings.drag_and_drop);
    assert_eq!(
        settings.auto_open,
        AutoOpenSettings {
            on_create: true,
            on_paste: false,
            on_drop: true,
        }
    );
    assert_eq!(settings.sort_mode, "directories_first");
    assert_eq!(settings.sort_order, "default");
    assert!(settings.diagnostic_badges);
    assert!(!settings.git_status_indicator);
    assert_eq!(settings.view_selector, "tabs");
}

#[test]
fn git_status_is_shown_where_panel_and_git_agree() {
    let settings = ProjectPanelSettings::from_settings(content(Some(Some(false))));
    assert!(!settings.git_status);
    let mut off = content(None);
    if let Some(panel) = &mut off.project_panel {
        panel.git_status = Some(false);
    }
    // Git is not asked for.
    assert!(off.has_all_values());
    assert!(!ProjectPanelSettings::from_settings(off).git_status);
}

#[test]
fn missing_values_are_noticed() {
    assert!(!content(None).has_all_values());
    assert!(!content(Some(None)).has_all_values());
    let mut without_panel = content(Some(Some(true)));
    without_panel.project_panel = None;
    assert!(!without_panel.has_all_values());
    let mut without_width = panel();
    without_width.default_width = None;
    assert!(!without_width.has_all_values());
    let mut without_guides = panel();
    without_guides.indent_guides = Some(IndentGuidesContent { show: None });
    assert!(!without_guides.has_all_values());
    let mut without_scroll = panel();
    without_scroll.scrollbar = Some(ScrollbarContent {
        show: Some("never"),
        horizontal_scroll: None,
    });
    assert!(!without_scroll.has_all_values());
    let mut without_drop = panel();
    without_drop.auto_open = Some(AutoOpenContent {
        on_create: Some(true),
        on_paste: Some(true),
        on_drop: None,
    });
    assert!(!without_drop.has_all_values());
    assert!(panel().has_all_values());
}

#[test]
fn the_scrollbar_follows_the_editor_unless_told_otherwise() {
    let own = ScrollbarSettings::<TestHost> {
        show: Some("never"),
        horizontal_scroll: true,
    };
    assert_eq!(own.visibility("auto"), "never");
    let inherited = ScrollbarSettings::<TestHost> {
        show: None,
        horizontal_scroll: true,
    };
    assert_eq!(inherited.visibility("auto"), "auto");
}

#[test]
fn files_open_as_their_origin_says() {
    let settings = AutoOpenSettings {
        on_create: true,
        on_paste: false,
        on_drop: true,
    };
    assert!(settings.should_open_on_create());
    assert!(!settings.should_open_on_paste());
    assert!(settings.should_open_on_drop());
}

fn view() -> ProjectPanelViewContent {
    ProjectPanelViewContent {
        name: None,
        provider: None,
        group: None,
        includes: None,
        excludes: None,
        hide_root: None,
        hide_dirs: None,
        fold_single_file_dirs: None,
    }
}

#[test]
fn no_views_are_configured_by_default() {
    assert_eq!(
        ProjectPanelViewsSettings::from_settings(None),
        ProjectPanelViewsSettings { views: vec![] }
    );
}

#[test]
fn views_are_resolved_in_order() {
    let contents = vec![
        view(),
        ProjectPanelViewContent {
            name: Some("Solution".to_string()),
            provider: Some("solution".to_string()),
            group: Some("Code".to_string()),
            includes: Some(vec!["**/*.cs".to_string()]),
            excludes: Some(vec!["bin".to_string()]),
            hide_root: Some(false),
            hide_dirs: Some(
                ["/a/b/", "//", "", "c", "/d"]
                    .iter()
                    .map(|dir| dir.to_string())
                    .collect(),
            ),
            fold_single_file_dirs: Some(true),
        },
        ProjectPanelViewContent {
            name: Some(String::new()),
            group: Some(String::new()),
            ..view()
        },
    ];
    let empty = ProjectPanelView {
        name: "View 1".to_string(),
        provider: None,
        group: None,
        includes: vec![],
        excludes: vec![],
        hide_root: None,
        hide_dirs: vec![],
        fold_single_file_dirs: None,
    };
    assert_eq!(
        ProjectPanelViewsSettings::from_settings(Some(contents)).views,
        vec![
            empty.clone(),
            ProjectPanelView {
                name: "Solution".to_string(),
                provider: Some("solution".to_string()),
                group: Some("Code".to_string()),
                includes: vec!["**/*.cs".to_string()],
                excludes: vec!["bin".to_string()],
                hide_root: Some(false),
                hide_dirs: vec!["a/b".to_string(), "c".to_string(), "d".to_string()],
                fold_single_file_dirs: Some(true),
            },
            ProjectPanelView {
                name: "View 3".to_string(),
                ..empty
            },
        ]
    );
}

#[test]
fn unnamed_views_are_numbered_from_one() {
    let settings = ProjectPanelViewsSettings::from_settings(Some(vec![view(); 11]));
    let names: Vec<String> = settings.views.into_iter().map(|view| view.name).collect();
    assert_eq!(names[0], "View 1");
    assert_eq!(names[8], "View 9");
    assert_eq!(names[9], "View 10");
    assert_eq!(names[10], "View 11");
}
