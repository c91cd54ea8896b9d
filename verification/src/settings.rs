//! The project panel's settings, resolved from what the settings files say.
//!
//! Content is what the files hold, every value optional; the host has merged the user's files over
//! its own defaults, which name a value for every setting.

use crate::decimal::{digits, parsed_u64, parsing_undoes_printing, print_u64, printing_is_injective};
use crate::text::{
    equals, lemma_present_add, lemma_present_contains, lemma_present_push, opt_text, present,
    push_text, texts, to_chars, to_text, trim_char, trim_end_by, trim_start_by, trimmed_of,
    trimming_takes_off_a_character,
};
use vstd::prelude::*;

verus! {

/// The values that the panel's settings carry through from the host as they are.
pub trait Host {
    /// A width on the screen.
    type Pixels;

    /// The side of the window that the panel is docked to.
    type DockSide;

    /// How far entries stand apart.
    type EntrySpacing;

    /// How far an entry is indented.
    type IndentSize;

    /// When indent guides are shown.
    type ShowIndentGuides;

    /// When a scrollbar is shown.
    type ShowScrollbar;

    /// Which diagnostics are shown.
    type ShowDiagnostics;

    /// How files and directories are mixed.
    type SortMode;

    /// How names are compared.
    type SortOrder;

    /// How views are chosen.
    type ViewSelector;
}

// ---------------------------------------------------------------------------------------------
// Content
// ---------------------------------------------------------------------------------------------

pub struct IndentGuidesContent<H: Host> {
    pub show: Option<H::ShowIndentGuides>,
}

pub struct ScrollbarContent<H: Host> {
    pub show: Option<H::ShowScrollbar>,
    pub horizontal_scroll: Option<bool>,
}

pub struct AutoOpenContent {
    pub on_create: Option<bool>,
    pub on_paste: Option<bool>,
    pub on_drop: Option<bool>,
}

pub struct ProjectPanelContent<H: Host> {
    pub button: Option<bool>,
    pub hide_gitignore: Option<bool>,
    pub default_width: Option<H::Pixels>,
    pub dock: Option<H::DockSide>,
    pub entry_spacing: Option<H::EntrySpacing>,
    pub file_icons: Option<bool>,
    pub folder_icons: Option<bool>,
    pub git_status: Option<bool>,
    pub indent_size: Option<H::IndentSize>,
    pub indent_guides: Option<IndentGuidesContent<H>>,
    pub sticky_scroll: Option<bool>,
    pub auto_reveal_entries: Option<bool>,
    pub auto_fold_dirs: Option<bool>,
    pub fold_single_file_dirs: Option<bool>,
    pub bold_folder_labels: Option<bool>,
    pub starts_open: Option<bool>,
    pub scrollbar: Option<ScrollbarContent<H>>,
    pub show_diagnostics: Option<H::ShowDiagnostics>,
    pub hide_root: Option<bool>,
    pub hide_hidden: Option<bool>,
    pub drag_and_drop: Option<bool>,
    pub auto_open: Option<AutoOpenContent>,
    pub sort_mode: Option<H::SortMode>,
    pub sort_order: Option<H::SortOrder>,
    pub diagnostic_badges: Option<bool>,
    pub git_status_indicator: Option<bool>,
    pub view_selector: Option<H::ViewSelector>,
}

pub struct GitContent {
    /// Whether git is enabled as far as showing the status of files goes.
    pub status_enabled: Option<bool>,
}

/// What the settings files say of the project panel and of git.
pub struct SettingsContent<H: Host> {
    pub project_panel: Option<ProjectPanelContent<H>>,
    pub git: Option<GitContent>,
}

/// What the settings files say of one view of the project panel.
#[derive(Debug, Clone, PartialEq, Eq)]
pub struct ProjectPanelViewContent {
    pub name: Option<String>,
    pub provider: Option<String>,
    pub group: Option<String>,
    pub includes: Option<Vec<String>>,
    pub excludes: Option<Vec<String>>,
    pub hide_root: Option<bool>,
    pub hide_dirs: Option<Vec<String>>,
    pub fold_single_file_dirs: Option<bool>,
}

// ---------------------------------------------------------------------------------------------
// Settings
// ---------------------------------------------------------------------------------------------

pub struct IndentGuidesSettings<H: Host> {
    pub show: H::ShowIndentGuides,
}

pub struct ScrollbarSettings<H: Host> {
    /// When to show the scrollbar in the project panel.
    ///
    /// Default: inherits editor scrollbar settings
    pub show: Option<H::ShowScrollbar>,
    /// Whether to allow horizontal scrolling in the project panel.
    /// When false, the view is locked to the leftmost position and long file names are clipped.
    ///
    /// Default: true
    pub horizontal_scroll: bool,
}

/// Which ways of adding a file open it in the editor.
#[derive(Copy, Clone, Debug, PartialEq, Eq)]
pub struct AutoOpenSettings {
    pub on_create: bool,
    pub on_paste: bool,
    pub on_drop: bool,
}

pub struct ProjectPanelSettings<H: Host> {
    pub button: bool,
    pub hide_gitignore: bool,
    pub default_width: H::Pixels,
    pub dock: H::DockSide,
    pub entry_spacing: H::EntrySpacing,
    pub file_icons: bool,
    pub folder_icons: bool,
    pub git_status: bool,
    pub indent_size: H::IndentSize,
    pub indent_guides: IndentGuidesSettings<H>,
    pub sticky_scroll: bool,
    pub auto_reveal_entries: bool,
    pub auto_fold_dirs: bool,
    pub fold_single_file_dirs: bool,
    pub bold_folder_labels: bool,
    pub starts_open: bool,
    pub scrollbar: ScrollbarSettings<H>,
    pub show_diagnostics: H::ShowDiagnostics,
    pub hide_root: bool,
    pub hide_hidden: bool,
    pub drag_and_drop: bool,
    pub auto_open: AutoOpenSettings,
    pub sort_mode: H::SortMode,
    pub sort_order: H::SortOrder,
    pub diagnostic_badges: bool,
    pub git_status_indicator: bool,
    pub view_selector: H::ViewSelector,
}

/// A single resolved project panel view: a named filter over the worktree tree.
#[derive(Clone, Debug, PartialEq, Eq)]
pub struct ProjectPanelView {
    pub name: String,
    /// Id of a registered project panel view provider. When set, this view is rendered by
    /// that provider's own tree instead of filtering the worktree via glob; `includes`,
    /// `excludes`, and `hide_dirs` are ignored for this view.
    pub provider: Option<String>,
    /// Optional group name. Views sharing a group are presented together as one selector
    /// cluster in the panel header; views without a group share a single default cluster.
    /// Grouping only affects presentation: one view is active at a time.
    pub group: Option<String>,
    pub includes: Vec<String>,
    pub excludes: Vec<String>,
    /// Whether to hide the worktree root in this view, promoting its top-level
    /// folders to roots. Only takes effect when a single worktree is open.
    /// `None` inherits the global `project_panel.hide_root`; `Some(false)` lets a
    /// view re-show the root even when the global setting hides it.
    pub hide_root: Option<bool>,
    /// Literal worktree-relative paths of directories whose row is hidden in this view,
    /// splicing their children one level up. Stored normalized (no leading/trailing `/`).
    pub hide_dirs: Vec<String>,
    /// Whether this view folds a directory holding a single file into one `dir/file` row.
    /// `None` inherits the panel's `fold_single_file_dirs`; `Some` overrides it for this view.
    pub fold_single_file_dirs: Option<bool>,
}

/// The list of user-defined project panel views.
#[derive(Clone, Debug, PartialEq, Eq)]
pub struct ProjectPanelViewsSettings {
    pub views: Vec<ProjectPanelView>,
}

impl AutoOpenSettings {
    pub fn should_open_on_create(self) -> (open: bool)
        ensures
            open == self.on_create,
    {
        self.on_create
    }

    pub fn should_open_on_paste(self) -> (open: bool)
        ensures
            open == self.on_paste,
    {
        self.on_paste
    }

    pub fn should_open_on_drop(self) -> (open: bool)
        ensures
            open == self.on_drop,
    {
        self.on_drop
    }
}

impl<H: Host> ScrollbarSettings<H> {
    /// When the panel's scrollbar is shown: as the panel's own setting says, else as the editor's.
    pub fn visibility(self, editor_show: H::ShowScrollbar) -> (show: H::ShowScrollbar)
        ensures
            show == (match self.show {
                Some(own) => own,
                None => editor_show,
            }),
    {
        match self.show {
            Some(own) => own,
            None => editor_show,
        }
    }
}

// ---------------------------------------------------------------------------------------------
// Resolving the panel's settings
// ---------------------------------------------------------------------------------------------

impl<H: Host> ProjectPanelContent<H> {
    /// Whether every setting of the panel has a value. The scrollbar's visibility need not: it
    /// then follows the editor's.
    pub open spec fn is_complete(self) -> bool {
        &&& self.button is Some
        &&& self.hide_gitignore is Some
        &&& self.default_width is Some
        &&& self.dock is Some
        &&& self.entry_spacing is Some
        &&& self.file_icons is Some
        &&& self.folder_icons is Some
        &&& self.git_status is Some
        &&& self.indent_size is Some
        &&& self.indent_guides matches Some(guides) && guides.show is Some
        &&& self.sticky_scroll is Some
        &&& self.auto_reveal_entries is Some
        &&& self.auto_fold_dirs is Some
        &&& self.fold_single_file_dirs is Some
        &&& self.bold_folder_labels is Some
        &&& self.starts_open is Some
        &&& self.scrollbar matches Some(scrollbar) && scrollbar.horizontal_scroll is Some
        &&& self.show_diagnostics is Some
        &&& self.hide_root is Some
        &&& self.hide_hidden is Some
        &&& self.drag_and_drop is Some
        &&& self.auto_open matches Some(auto_open) && auto_open.on_create is Some
            && auto_open.on_paste is Some && auto_open.on_drop is Some
        &&& self.sort_mode is Some
        &&& self.sort_order is Some
        &&& self.diagnostic_badges is Some
        &&& self.git_status_indicator is Some
        &&& self.view_selector is Some
    }

    /// Whether every setting of the panel has a value.
    pub fn has_all_values(&self) -> (yes: bool)
        ensures
            yes == self.is_complete(),
    {
        let guides = match &self.indent_guides {
            Some(guides) => guides.show.is_some(),
            None => false,
        };
        let scrollbar = match &self.scrollbar {
            Some(scrollbar) => scrollbar.horizontal_scroll.is_some(),
            None => false,
        };
        let auto_open = match &self.auto_open {
            Some(auto_open) => auto_open.on_create.is_some() && auto_open.on_paste.is_some()
                && auto_open.on_drop.is_some(),
            None => false,
        };
        self.button.is_some() && self.hide_gitignore.is_some() && self.default_width.is_some()
            && self.dock.is_some() && self.entry_spacing.is_some() && self.file_icons.is_some()
            && self.folder_icons.is_some() && self.git_status.is_some()
            && self.indent_size.is_some() && guides && self.sticky_scroll.is_some()
            && self.auto_reveal_entries.is_some() && self.auto_fold_dirs.is_some()
            && self.fold_single_file_dirs.is_some() && self.bold_folder_labels.is_some()
            && self.starts_open.is_some() && scrollbar && self.show_diagnostics.is_some()
            && self.hide_root.is_some() && self.hide_hidden.is_some()
            && self.drag_and_drop.is_some() && auto_open && self.sort_mode.is_some()
            && self.sort_order.is_some() && self.diagnostic_badges.is_some()
            && self.git_status_indicator.is_some() && self.view_selector.is_some()
    }
}

impl<H: Host> SettingsContent<H> {
    /// Whether every setting that is asked for has a value. Git is asked for only where the panel
    /// is to show the git status of files.
    pub open spec fn is_complete(self) -> bool {
        &&& self.project_panel matches Some(panel) && panel.is_complete() && (panel.git_status
            == Some(true) ==> (self.git matches Some(git) && git.status_enabled is Some))
    }

    /// Whether every setting that is asked for has a value.
    pub fn has_all_values(&self) -> (yes: bool)
        ensures
            yes == self.is_complete(),
    {
        match &self.project_panel {
            Some(panel) => {
                if !panel.has_all_values() {
                    return false;
                }
                if let Some(true) = panel.git_status {
                    match &self.git {
                        Some(git) => git.status_enabled.is_some(),
                        None => false,
                    }
                } else {
                    true
                }
            },
            None => false,
        }
    }

    /// Whether the panel shows the git status of files: its own setting and git's both say so.
    pub open spec fn shows_git_status(self) -> bool {
        self.project_panel->0.git_status->0 && self.git->0.status_enabled->0
    }
}

impl<H: Host> ProjectPanelSettings<H> {
    /// The panel's settings, from content that names a value for each.
    pub fn from_settings(content: SettingsContent<H>) -> (settings: ProjectPanelSettings<H>)
        requires
            content.is_complete(),
        ensures
            ({
                let panel = content.project_panel->0;
                &&& settings.button == panel.button->0
                &&& settings.hide_gitignore == panel.hide_gitignore->0
                &&& settings.default_width == panel.default_width->0
                &&& settings.dock == panel.dock->0
                &&& settings.entry_spacing == panel.entry_spacing->0
                &&& settings.file_icons == panel.file_icons->0
                &&& settings.folder_icons == panel.folder_icons->0
                &&& settings.git_status == content.shows_git_status()
                &&& settings.indent_size == panel.indent_size->0
                &&& settings.indent_guides.show == panel.indent_guides->0.show->0
                &&& settings.sticky_scroll == panel.sticky_scroll->0
                &&& settings.auto_reveal_entries == panel.auto_reveal_entries->0
                &&& settings.auto_fold_dirs == panel.auto_fold_dirs->0
                &&& settings.fold_single_file_dirs == panel.fold_single_file_dirs->0
                &&& settings.bold_folder_labels == panel.bold_folder_labels->0
                &&& settings.starts_open == panel.starts_open->0
                &&& settings.scrollbar.show == panel.scrollbar->0.show
                &&& settings.scrollbar.horizontal_scroll == panel.scrollbar->0.horizontal_scroll->0
                &&& settings.show_diagnostics == panel.show_diagnostics->0
                &&& settings.hide_root == panel.hide_root->0
                &&& settings.hide_hidden == panel.hide_hidden->0
                &&& settings.drag_and_drop == panel.drag_and_drop->0
                &&& settings.auto_open.on_create == panel.auto_open->0.on_create->0
                &&& settings.auto_open.on_paste == panel.auto_open->0.on_paste->0
                &&& settings.auto_open.on_drop == panel.auto_open->0.on_drop->0
                &&& settings.sort_mode == panel.sort_mode->0
                &&& settings.sort_order == panel.sort_order->0
                &&& settings.diagnostic_badges == panel.diagnostic_badges->0
                &&& settings.git_status_indicator == panel.git_status_indicator->0
                &&& settings.view_selector == panel.view_selector->0
            }),
    {
        let panel = content.project_panel.unwrap();
        let indent_guides = panel.indent_guides.unwrap();
        let scrollbar = panel.scrollbar.unwrap();
        let auto_open = panel.auto_open.unwrap();
        ProjectPanelSettings {
            button: panel.button.unwrap(),
            hide_gitignore: panel.hide_gitignore.unwrap(),
            default_width: panel.default_width.unwrap(),
            dock: panel.dock.unwrap(),
            entry_spacing: panel.entry_spacing.unwrap(),
            file_icons: panel.file_icons.unwrap(),
            folder_icons: panel.folder_icons.unwrap(),
            git_status: panel.git_status.unwrap() && content.git.unwrap().status_enabled.unwrap(),
            indent_size: panel.indent_size.unwrap(),
            indent_guides: IndentGuidesSettings { show: indent_guides.show.unwrap() },
            sticky_scroll: panel.sticky_scroll.unwrap(),
            auto_reveal_entries: panel.auto_reveal_entries.unwrap(),
            auto_fold_dirs: panel.auto_fold_dirs.unwrap(),
            fold_single_file_dirs: panel.fold_single_file_dirs.unwrap(),
            bold_folder_labels: panel.bold_folder_labels.unwrap(),
            starts_open: panel.starts_open.unwrap(),
            scrollbar: ScrollbarSettings {
                show: scrollbar.show,
                horizontal_scroll: scrollbar.horizontal_scroll.unwrap(),
            },
            show_diagnostics: panel.show_diagnostics.unwrap(),
            hide_root: panel.hide_root.unwrap(),
            hide_hidden: panel.hide_hidden.unwrap(),
            drag_and_drop: panel.drag_and_drop.unwrap(),
            auto_open: AutoOpenSettings {
                on_create: auto_open.on_create.unwrap(),
                on_paste: auto_open.on_paste.unwrap(),
                on_drop: auto_open.on_drop.unwrap(),
            },
            sort_mode: panel.sort_mode.unwrap(),
            sort_order: panel.sort_order.unwrap(),
            diagnostic_badges: panel.diagnostic_badges.unwrap(),
            git_status_indicator: panel.git_status_indicator.unwrap(),
            view_selector: panel.view_selector.unwrap(),
        }
    }
}

// ---------------------------------------------------------------------------------------------
// Resolving the panel's views
// ---------------------------------------------------------------------------------------------

/// The texts of an optional list: none when it is absent.
pub open spec fn opt_texts(list: Option<Vec<String>>) -> Seq<Seq<char>> {
    match list {
        Some(list) => texts(list@),
        None => Seq::empty(),
    }
}

/// A [`ProjectPanelViewContent`] as the contracts see it. An absent list is an empty one.
pub struct ViewContentView {
    pub name: Option<Seq<char>>,
    pub provider: Option<Seq<char>>,
    pub group: Option<Seq<char>>,
    pub includes: Seq<Seq<char>>,
    pub excludes: Seq<Seq<char>>,
    pub hide_root: Option<bool>,
    pub hide_dirs: Seq<Seq<char>>,
    pub fold_single_file_dirs: Option<bool>,
}

impl View for ProjectPanelViewContent {
    type V = ViewContentView;

    open spec fn view(&self) -> ViewContentView {
        ViewContentView {
            name: opt_text(self.name),
            provider: opt_text(self.provider),
            group: opt_text(self.group),
            includes: opt_texts(self.includes),
            excludes: opt_texts(self.excludes),
            hide_root: self.hide_root,
            hide_dirs: opt_texts(self.hide_dirs),
            fold_single_file_dirs: self.fold_single_file_dirs,
        }
    }
}

/// A [`ProjectPanelView`] as the contracts see it.
pub struct PanelViewView {
    pub name: Seq<char>,
    pub provider: Option<Seq<char>>,
    pub group: Option<Seq<char>>,
    pub includes: Seq<Seq<char>>,
    pub excludes: Seq<Seq<char>>,
    pub hide_root: Option<bool>,
    pub hide_dirs: Seq<Seq<char>>,
    pub fold_single_file_dirs: Option<bool>,
}

impl View for ProjectPanelView {
    type V = PanelViewView;

    open spec fn view(&self) -> PanelViewView {
        PanelViewView {
            name: self.name@,
            provider: opt_text(self.provider),
            group: opt_text(self.group),
            includes: texts(self.includes@),
            excludes: texts(self.excludes@),
            hide_root: self.hide_root,
            hide_dirs: texts(self.hide_dirs@),
            fold_single_file_dirs: self.fold_single_file_dirs,
        }
    }
}

/// A text that is there and not empty.
pub open spec fn non_empty(text: Option<Seq<char>>) -> Option<Seq<char>> {
    match text {
        Some(text) => if text.len() > 0 {
            Some(text)
        } else {
            None
        },
        None => None,
    }
}

/// What a view without a name is called, by its place in the list, counted from one.
pub open spec fn default_view_name(index: nat) -> Seq<char> {
    "View "@ + digits(index + 1)
}

/// The name of a view: its own if it has one that is not empty.
pub open spec fn view_name(index: nat, name: Option<Seq<char>>) -> Seq<char> {
    match non_empty(name) {
        Some(name) => name,
        None => default_view_name(index),
    }
}

/// A hidden directory without the `/` at either end; `None` when there is nothing else.
pub open spec fn normalized_dir(dir: Seq<char>) -> Option<Seq<char>> {
    non_empty(Some(trimmed_of(dir, '/')))
}

/// The hidden directories of a view, normalized.
pub open spec fn normalized_dirs(dirs: Seq<Seq<char>>) -> Seq<Seq<char>> {
    present(dirs.map_values(|dir: Seq<char>| normalized_dir(dir)))
}

/// A view as the panel shows it, given its place in the list.
pub open spec fn resolved_view(index: nat, view: ViewContentView) -> PanelViewView {
    PanelViewView {
        name: view_name(index, view.name),
        provider: view.provider,
        group: non_empty(view.group),
        includes: view.includes,
        excludes: view.excludes,
        hide_root: view.hide_root,
        hide_dirs: normalized_dirs(view.hide_dirs),
        fold_single_file_dirs: view.fold_single_file_dirs,
    }
}

/// The views held by a list of contents.
pub open spec fn view_contents(contents: Option<Vec<ProjectPanelViewContent>>) -> Seq<
    ViewContentView,
> {
    match contents {
        Some(contents) => Seq::new(contents@.len(), |i: int| contents@[i]@),
        None => Seq::empty(),
    }
}

/// The views as the panel shows them.
pub open spec fn resolved_views(views: Seq<ViewContentView>) -> Seq<PanelViewView> {
    Seq::new(views.len(), |i: int| resolved_view(i as nat, views[i]))
}

/// The views held by a sequence of views.
pub open spec fn panel_views(views: Seq<ProjectPanelView>) -> Seq<PanelViewView> {
    Seq::new(views.len(), |i: int| views[i]@)
}

/// The hidden directories of a view, normalized.
fn normalize_dirs(dirs: Vec<String>) -> (normalized: Vec<String>)
    ensures
        texts(normalized@) == normalized_dirs(texts(dirs@)),
{
    let mut normalized: Vec<String> = Vec::new();
    let ghost each = texts(dirs@).map_values(|dir: Seq<char>| normalized_dir(dir));
    assert(texts(normalized@) == present(each.take(0)));
    for i in 0..dirs.len()
        invariant
            each == texts(dirs@).map_values(|dir: Seq<char>| normalized_dir(dir)),
            texts(normalized@) == present(each.take(i as int)),
    {
        let ghost before = texts(normalized@);
        proof {
            assert(texts(dirs@)[i as int] == dirs@[i as int]@);
            assert(each.take(i + 1) == each.take(i as int).push(each[i as int]));
            lemma_present_push(each.take(i as int), each[i as int]);
        }
        let chars = to_chars(dirs[i].as_str());
        let trimmed = trim_char(chars.as_slice(), '/');
        if trimmed.len() > 0 {
            normalized.push(to_text(trimmed));
            assert(texts(normalized@) == before.push(trimmed@));
        }
    }
    assert(each.take(dirs@.len() as int) == each);
    normalized
}

/// A text that is there and not empty.
fn keep_non_empty(text: Option<String>) -> (kept: Option<String>)
    ensures
        opt_text(kept) == non_empty(opt_text(text)),
{
    match text {
        Some(text) => {
            if to_chars(text.as_str()).len() > 0 {
                Some(text)
            } else {
                None
            }
        },
        None => None,
    }
}

/// The list, or an empty one when it is absent.
fn or_empty(list: Option<Vec<String>>) -> (listed: Vec<String>)
    ensures
        texts(listed@) == opt_texts(list),
{
    match list {
        Some(list) => list,
        None => {
            let listed: Vec<String> = Vec::new();
            assert(texts(listed@) == Seq::<Seq<char>>::empty());
            listed
        },
    }
}

/// A view as the panel shows it, given its place in the list.
fn resolve_view(index: usize, view: ProjectPanelViewContent) -> (resolved: ProjectPanelView)
    requires
        index < usize::MAX,
    ensures
        resolved@ == resolved_view(index as nat, view@),
{
    let name = match keep_non_empty(view.name) {
        Some(name) => name,
        None => {
            let mut name = "View ".to_owned();
            let number = print_u64((index + 1) as u64);
            push_text(&mut name, to_text(number.as_slice()).as_str());
            name
        },
    };
    ProjectPanelView {
        name,
        provider: view.provider,
        group: keep_non_empty(view.group),
        includes: or_empty(view.includes),
        excludes: or_empty(view.excludes),
        hide_root: view.hide_root,
        hide_dirs: normalize_dirs(or_empty(view.hide_dirs)),
        fold_single_file_dirs: view.fold_single_file_dirs,
    }
}

impl ProjectPanelViewsSettings {
    /// The user's views, in order. A view without a name gets one from its place in the list, an
    /// empty group is none, and hidden directories are normalized.
    pub fn from_settings(contents: Option<Vec<ProjectPanelViewContent>>) -> (settings:
        ProjectPanelViewsSettings)
        ensures
            panel_views(settings.views@) == resolved_views(view_contents(contents)),
    {
        let mut views: Vec<ProjectPanelView> = Vec::new();
        if let Some(contents) = contents {
            let ghost all = Seq::new(contents@.len(), |i: int| contents@[i]@);
            let count = contents.len();
            for content in it: contents
                invariant
                    it.seq() == contents@,
                    count == contents@.len(),
                    views@.len() == it.index(),
                    all == Seq::new(contents@.len(), |i: int| contents@[i]@),
                    panel_views(views@) == resolved_views(all).take(it.index()),
            {
                let ghost before = panel_views(views@);
                let index = views.len();
                assert(index < count);
                let view = resolve_view(index, content);
                assert(view@ == resolved_views(all)[index as int]);
                views.push(view);
                assert(panel_views(views@) == before.push(view@));
            }
        }
        ProjectPanelViewsSettings { views }
    }
}

// ---------------------------------------------------------------------------------------------
// Laws
// ---------------------------------------------------------------------------------------------

/// No view goes without a name.
pub proof fn views_always_have_a_name(index: nat, view: ViewContentView)
    ensures
        resolved_view(index, view).name.len() > 0,
{
    reveal_strlit("View ");
}

/// Two views without names are told apart by the names they get.
pub proof fn unnamed_views_have_distinct_names(i: u64, j: u64)
    requires
        i < u64::MAX,
        j < u64::MAX,
        default_view_name(i as nat) == default_view_name(j as nat),
    ensures
        i == j,
{
    let n = "View "@.len() as int;
    assert(default_view_name(i as nat).skip(n) == digits((i + 1) as nat));
    assert(default_view_name(j as nat).skip(n) == digits((j + 1) as nat));
    printing_is_injective((i + 1) as u64, (j + 1) as u64);
}

/// A group, where there is one, has a name.
pub proof fn groups_always_have_a_name(index: nat, view: ViewContentView)
    ensures
        resolved_view(index, view).group matches Some(group) ==> group.len() > 0,
{
}

proof fn lemma_trim_start(s: Seq<char>, drop: spec_fn(char) -> bool)
    ensures
        trim_start_by(s, drop).len() > 0 ==> !drop(trim_start_by(s, drop)[0]),
    decreases s.len(),
{
    if s.len() > 0 && drop(s[0]) {
        lemma_trim_start(s.drop_first(), drop);
    }
}

proof fn lemma_trim_end(s: Seq<char>, drop: spec_fn(char) -> bool)
    ensures
        trim_end_by(s, drop).len() > 0 ==> !drop(trim_end_by(s, drop).last()) && trim_end_by(
            s,
            drop,
        )[0] == s[0],
    decreases s.len(),
{
    if s.len() > 0 && drop(s.last()) {
        lemma_trim_end(s.drop_last(), drop);
    }
}

/// Whether a path is not empty and neither starts nor ends with `/`.
pub open spec fn is_normalized(dir: Seq<char>) -> bool {
    dir.len() > 0 && dir[0] != '/' && dir.last() != '/'
}

/// Hidden directories are stored normalized: none is empty, starts or ends with `/`.
pub proof fn hidden_dirs_are_normalized(index: nat, view: ViewContentView, dir: Seq<char>)
    requires
        resolved_view(index, view).hide_dirs.contains(dir),
    ensures
        is_normalized(dir),
{
    let each = view.hide_dirs.map_values(|dir: Seq<char>| normalized_dir(dir));
    lemma_present_contains(each, dir);
    let i = choose|i: int| 0 <= i < each.len() && each[i] == Some(dir);
    let written = view.hide_dirs[i];
    lemma_trim_start(written, equals('/'));
    lemma_trim_end(trim_start_by(written, equals('/')), equals('/'));
}

/// Normalizing changes nothing about a directory that is normalized already.
pub proof fn normalized_dirs_stay(dir: Seq<char>)
    requires
        is_normalized(dir),
    ensures
        normalized_dir(dir) == Some(dir),
{
}

/// The panel shows one view for each that the settings name, in the same order, and each keeps its
/// filters and overrides.
pub proof fn views_keep_their_order(views: Seq<ViewContentView>, i: int)
    requires
        0 <= i < views.len(),
    ensures
        resolved_views(views).len() == views.len(),
        ({
            let resolved = resolved_views(views)[i];
            &&& resolved.provider == views[i].provider
            &&& resolved.includes == views[i].includes
            &&& resolved.excludes == views[i].excludes
            &&& resolved.hide_root == views[i].hide_root
            &&& resolved.fold_single_file_dirs == views[i].fold_single_file_dirs
        }),
{
}

/// The git status of files is shown exactly where the panel's setting and git's both say so.
pub proof fn git_status_needs_both<H: Host>(content: SettingsContent<H>)
    requires
        content.is_complete(),
    ensures
        content.shows_git_status() <==> content.project_panel->0.git_status == Some(true)
            && content.git->0.status_enabled == Some(true),
{
}

/// A view keeps a name that is not empty; one without gets "View" and its number, counted from one.
/// A group that is not empty stays, and an empty one is none.
pub proof fn views_keep_their_names_and_groups(views: Seq<ViewContentView>, i: int)
    requires
        0 <= i < views.len(),
        i < u64::MAX,
    ensures
        ({
            let view = resolved_views(views)[i];
            let unnamed = views[i].name is None || views[i].name->0.len() == 0;
            &&& !unnamed ==> view.name == views[i].name->0
            &&& unnamed ==> exists|number: Seq<char>|
                view.name == #[trigger] ("View "@ + number) && parsed_u64(number) == Some(
                    (i + 1) as u64,
                )
            &&& view.group == (if views[i].group matches Some(group) && group.len() > 0 {
                views[i].group
            } else {
                None
            })
        }),
{
    let number = digits((i + 1) as nat);
    parsing_undoes_printing((i + 1) as u64);
    assert(default_view_name(i as nat) == "View "@ + number);
}

/// Hidden directories are normalized one by one: those of two lists, one after the other, are those
/// of the first followed by those of the second. A directory loses the slashes at either end and
/// nothing else; one that is all slashes is dropped.
pub proof fn hidden_dirs_are_taken_in_turn(
    index: nat,
    view: ViewContentView,
    first: Seq<Seq<char>>,
    second: Seq<Seq<char>>,
    front: Seq<char>,
    core: Seq<char>,
    back: Seq<char>,
)
    requires
        forall|i: int| 0 <= i < front.len() ==> front[i] == '/',
        forall|i: int| 0 <= i < back.len() ==> back[i] == '/',
        core.len() > 0 ==> core[0] != '/' && core.last() != '/',
    ensures
        resolved_view(
            index,
            ViewContentView { hide_dirs: first + second, ..view },
        ).hide_dirs == resolved_view(
            index,
            ViewContentView { hide_dirs: first, ..view },
        ).hide_dirs + resolved_view(
            index,
            ViewContentView { hide_dirs: second, ..view },
        ).hide_dirs,
        resolved_view(
            index,
            ViewContentView { hide_dirs: seq![front + core + back], ..view },
        ).hide_dirs == (if core.len() > 0 {
            seq![core]
        } else {
            Seq::empty()
        }),
{
    let each = |dir: Seq<char>| normalized_dir(dir);
    assert((first + second).map_values(each) == first.map_values(each) + second.map_values(each));
    lemma_present_add(first.map_values(each), second.map_values(each));
    let dir = front + core + back;
    trimming_takes_off_a_character(front, core, back, '/');
    let none = Seq::<Option<Seq<char>>>::empty();
    assert(seq![dir].map_values(each) == none.push(normalized_dir(dir)));
    lemma_present_push(none, normalized_dir(dir));
    assert(present(none) == Seq::<Seq<char>>::empty());
}

/// The hidden directories that the panel uses are those of the view, normalized: all of them, and
/// none from elsewhere.
pub proof fn views_hide_their_own_dirs(views: Seq<ViewContentView>, i: int, index: nat)
    requires
        0 <= i < views.len(),
    ensures
        resolved_views(views)[i].hide_dirs == resolved_view(index, views[i]).hide_dirs,
{
}

/// What the contracts see of a view is all that it holds; an absent list is an empty one.
pub proof fn views_are_seen_whole(content: ProjectPanelViewContent, view: ProjectPanelView)
    ensures
        content@.name == opt_text(content.name),
        content@.provider == opt_text(content.provider),
        content@.group == opt_text(content.group),
        content.includes matches Some(list) ==> content@.includes == texts(list@),
        content.excludes matches Some(list) ==> content@.excludes == texts(list@),
        content.hide_dirs matches Some(list) ==> content@.hide_dirs == texts(list@),
        content.includes is None ==> content@.includes.len() == 0,
        content.excludes is None ==> content@.excludes.len() == 0,
        content.hide_dirs is None ==> content@.hide_dirs.len() == 0,
        content@.hide_root == content.hide_root,
        content@.fold_single_file_dirs == content.fold_single_file_dirs,
        view@.name == view.name@,
        view@.provider == opt_text(view.provider),
        view@.group == opt_text(view.group),
        view@.includes == texts(view.includes@),
        view@.excludes == texts(view.excludes@),
        view@.hide_dirs == texts(view.hide_dirs@),
        view@.hide_root == view.hide_root,
        view@.fold_single_file_dirs == view.fold_single_file_dirs,
{
}

/// Every view that the settings name is seen, in order.
pub proof fn every_view_is_seen(
    contents: Vec<ProjectPanelViewContent>,
    views: Seq<ProjectPanelView>,
    i: int,
)
    ensures
        view_contents(Some(contents)).len() == contents@.len(),
        0 <= i < contents@.len() ==> view_contents(Some(contents))[i] == contents@[i]@,
        view_contents(None).len() == 0,
        panel_views(views).len() == views.len(),
        0 <= i < views.len() ==> panel_views(views)[i] == views[i]@,
{
}

}
