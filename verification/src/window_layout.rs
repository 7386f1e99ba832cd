//! What a window shows around its panes: the workspace sidebar on the left,
//! one panel at most in the right sidebar, and the settings page.
use vstd::prelude::*;

verus! {

/// The panel of the right sidebar, or none.
#[derive(Clone, Copy, Debug, PartialEq, Eq, Structural)]
pub enum RightSidebarPanel {
    Hidden,
    FileTree,
    DiffList,
    PullRequests,
}

/// The panel shown after toggling `panel`: it closes when it is the one
/// shown, else it replaces whatever is shown.
pub open spec fn toggled(current: RightSidebarPanel, panel: RightSidebarPanel) -> RightSidebarPanel {
    if current == panel {
        RightSidebarPanel::Hidden
    } else {
        panel
    }
}

/// The sidebars and settings page of a window.
pub struct WindowLayout {
    pub right_sidebar: RightSidebarPanel,
    pub sidebar_collapsed: bool,
    pub settings_open: bool,
}

impl WindowLayout {
    /// A window with the workspace sidebar open and nothing else.
    pub fn new() -> (w: Self)
        ensures
            w.right_sidebar == RightSidebarPanel::Hidden,
            !w.sidebar_collapsed,
            !w.settings_open,
    {
        WindowLayout { right_sidebar: RightSidebarPanel::Hidden, sidebar_collapsed: false, settings_open: false }
    }

    /// The panel of the right sidebar.
    pub fn right_sidebar(&self) -> (p: RightSidebarPanel)
        ensures
            p == self.right_sidebar,
    {
        self.right_sidebar
    }

    /// Whether the workspace sidebar is collapsed.
    pub fn sidebar_collapsed(&self) -> (b: bool)
        ensures
            b == self.sidebar_collapsed,
    {
        self.sidebar_collapsed
    }

    /// Whether the settings page is shown.
    pub fn settings_open(&self) -> (b: bool)
        ensures
            b == self.settings_open,
    {
        self.settings_open
    }

    /// Shows `panel` in the right sidebar.
    pub fn set_right_sidebar(&mut self, panel: RightSidebarPanel)
        ensures
            final(self).right_sidebar == panel,
            final(self).sidebar_collapsed == old(self).sidebar_collapsed,
            final(self).settings_open == old(self).settings_open,
    {
        self.right_sidebar = panel;
    }

    fn toggle_panel(&mut self, panel: RightSidebarPanel)
        ensures
            final(self).right_sidebar == toggled(old(self).right_sidebar, panel),
            final(self).sidebar_collapsed == old(self).sidebar_collapsed,
            final(self).settings_open == old(self).settings_open,
    {
        self.right_sidebar = if self.right_sidebar == panel {
            RightSidebarPanel::Hidden
        } else {
            panel
        };
    }

    /// Opens the file tree, or closes it when it is open.
    pub fn toggle_file_tree(&mut self)
        ensures
            final(self).right_sidebar == toggled(old(self).right_sidebar, RightSidebarPanel::FileTree),
            final(self).sidebar_collapsed == old(self).sidebar_collapsed,
            final(self).settings_open == old(self).settings_open,
    {
        self.toggle_panel(RightSidebarPanel::FileTree);
    }

    /// Opens the list of changes, or closes it when it is open.
    pub fn toggle_diff_list(&mut self)
        ensures
            final(self).right_sidebar == toggled(old(self).right_sidebar, RightSidebarPanel::DiffList),
            final(self).sidebar_collapsed == old(self).sidebar_collapsed,
            final(self).settings_open == old(self).settings_open,
    {
        self.toggle_panel(RightSidebarPanel::DiffList);
    }

    /// Opens the list of pull requests, or closes it when it is open.
    pub fn toggle_pull_requests(&mut self)
        ensures
            final(self).right_sidebar == toggled(old(self).right_sidebar, RightSidebarPanel::PullRequests),
            final(self).sidebar_collapsed == old(self).sidebar_collapsed,
            final(self).settings_open == old(self).settings_open,
    {
        self.toggle_panel(RightSidebarPanel::PullRequests);
    }

    /// Collapses the workspace sidebar, or opens it when it is collapsed.
    pub fn toggle_sidebar(&mut self)
        ensures
            final(self).sidebar_collapsed == !old(self).sidebar_collapsed,
            final(self).right_sidebar == old(self).right_sidebar,
            final(self).settings_open == old(self).settings_open,
    {
        self.sidebar_collapsed = !self.sidebar_collapsed;
    }

    /// Shows the settings page.
    pub fn show_settings(&mut self)
        ensures
            final(self).settings_open,
            final(self).right_sidebar == old(self).right_sidebar,
            final(self).sidebar_collapsed == old(self).sidebar_collapsed,
    {
        self.settings_open = true;
    }

    /// Hides the settings page.
    pub fn hide_settings(&mut self)
        ensures
            !final(self).settings_open,
            final(self).right_sidebar == old(self).right_sidebar,
            final(self).sidebar_collapsed == old(self).sidebar_collapsed,
    {
        self.settings_open = false;
    }
}

/// Toggling a panel twice leaves the sidebar as it was when that panel was
/// shown or nothing was.
pub proof fn law_toggle_twice(current: RightSidebarPanel, panel: RightSidebarPanel)
    requires
        panel != RightSidebarPanel::Hidden,
        current == panel || current == RightSidebarPanel::Hidden,
    ensures
        toggled(toggled(current, panel), panel) == current,
{
}

/// Opening one panel replaces any other: after a toggle the sidebar shows
/// the toggled panel unless that panel was the one shown.
pub proof fn law_panels_exclusive(current: RightSidebarPanel, panel: RightSidebarPanel)
    ensures
        toggled(current, panel) == panel || toggled(current, panel) == RightSidebarPanel::Hidden,
        current != panel ==> toggled(current, panel) == panel,
{
}

/// The widths of the workspace sidebar, the panes and the right sidebar,
/// in percent of the window: 2:5:5 with the diff or pull-request list, 1:4:1
/// with the file tree, 1:5 with nothing on the right; a collapsed sidebar
/// gives its share to the panes, save beside the diff or pull-request list,
/// where the two share the window evenly.
pub open spec fn column_widths_spec(panel: RightSidebarPanel, collapsed: bool) -> (u8, u8, u8) {
    match (panel, collapsed) {
        (RightSidebarPanel::DiffList, false) => (17u8, 41u8, 42u8),
        (RightSidebarPanel::DiffList, true) => (0u8, 50u8, 50u8),
        (RightSidebarPanel::PullRequests, false) => (17u8, 41u8, 42u8),
        (RightSidebarPanel::PullRequests, true) => (0u8, 50u8, 50u8),
        (RightSidebarPanel::FileTree, false) => (17u8, 66u8, 17u8),
        (RightSidebarPanel::FileTree, true) => (0u8, 83u8, 17u8),
        (RightSidebarPanel::Hidden, false) => (17u8, 83u8, 0u8),
        (RightSidebarPanel::Hidden, true) => (0u8, 100u8, 0u8),
    }
}

impl WindowLayout {
    /// The widths of the three columns, in percent of the window.
    pub fn column_widths(&self) -> (r: (u8, u8, u8))
        ensures
            r == column_widths_spec(self.right_sidebar, self.sidebar_collapsed),
    {
        match (self.right_sidebar, self.sidebar_collapsed) {
            (RightSidebarPanel::DiffList, false) => (17, 41, 42),
            (RightSidebarPanel::DiffList, true) => (0, 50, 50),
            (RightSidebarPanel::PullRequests, false) => (17, 41, 42),
            (RightSidebarPanel::PullRequests, true) => (0, 50, 50),
            (RightSidebarPanel::FileTree, false) => (17, 66, 17),
            (RightSidebarPanel::FileTree, true) => (0, 83, 17),
            (RightSidebarPanel::Hidden, false) => (17, 83, 0),
            (RightSidebarPanel::Hidden, true) => (0, 100, 0),
        }
    }
}

/// The three columns always share the whole width of the window; a hidden
/// right sidebar and a collapsed workspace sidebar take none of it.
pub proof fn law_columns_fill_window(panel: RightSidebarPanel, collapsed: bool)
    ensures
        ({
            let (a, b, c) = column_widths_spec(panel, collapsed);
            &&& a + b + c == 100
            &&& (collapsed ==> a == 0)
            &&& (panel == RightSidebarPanel::Hidden <==> c == 0)
        }),
{
}

} // verus!
