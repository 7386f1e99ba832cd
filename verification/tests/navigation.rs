use august::command_menu::{filter_files, fuzzy_match, fuzzy_score_checked, is_skipped_entry, select_next, select_prev, CommandMenu};
use august::file_tree::{build_file_tree_entries, collect_all_dirs, split_path, toggle_dir};
use august::onboarding::{feature_panel, Onboarding, OnboardingAction, OnboardingStep};
use august::pr_detail::{PrFile, PrFileStatus};
use august::window_layout::{RightSidebarPanel, WindowLayout};
use august::workspace::{restored_active_index, Workspace, WorkspaceStore};

fn file(name: &str) -> PrFile {
    PrFile {
        filename: name.to_string(),
        status: PrFileStatus::Modified,
        additions: 2,
        deletions: 1,
        patch: None,
        previous_filename: None,
    }
}

fn files() -> Vec<PrFile> {
    vec![file("src/main.rs"), file("src/ui/view.rs"), file("README.md"), file("src/lib.rs")]
}

fn names(entries: &[august::file_tree::PrFileEntry]) -> Vec<(String, usize, bool)> {
    entries.iter().map(|e| (e.path.clone(), e.depth, e.is_dir)).collect()
}

#[test]
fn paths_split_at_slashes() {
    let parts = split_path(&"a//b/".chars().collect());
    let parts: Vec<String> = parts.iter().map(|p| p.iter().collect()).collect();
    assert_eq!(parts, vec!["a", "", "b", ""]);
}

#[test]
fn directories_of_changed_files() {
    let dirs = collect_all_dirs(&files());
    assert_eq!(dirs, vec!["src".to_string(), "src/ui".to_string()]);
    assert!(collect_all_dirs(&[file("top.txt")]).is_empty());
}

#[test]
fn tree_with_everything_expanded() {
    let expanded = vec!["src".to_string(), "src/ui".to_string()];
    let entries = build_file_tree_entries(&files(), &expanded);
    assert_eq!(
        names(&entries),
        vec![
            ("README.md".to_string(), 0, false),
            ("src".to_string(), 0, true),
            ("src/lib.rs".to_string(), 1, false),
            ("src/main.rs".to_string(), 1, false),
            ("src/ui".to_string(), 1, true),
            ("src/ui/view.rs".to_string(), 2, false),
        ]
    );
    assert_eq!(entries[1].name, "src");
    assert!(entries[1].is_expanded);
    assert_eq!(entries[2].name, "lib.rs");
    assert_eq!(entries[2].file_index, Some(3));
    assert_eq!(entries[2].status, Some(PrFileStatus::Modified));
    assert_eq!(entries[2].additions, 2);
    assert_eq!(entries[1].file_index, None);
}

#[test]
fn collapsed_directory_hides_its_contents() {
    let entries = build_file_tree_entries(&files(), &["src".to_string()]);
    assert_eq!(
        names(&entries),
        vec![
            ("README.md".to_string(), 0, false),
            ("src".to_string(), 0, true),
            ("src/lib.rs".to_string(), 1, false),
            ("src/main.rs".to_string(), 1, false),
            ("src/ui".to_string(), 1, true),
        ]
    );
    assert!(!entries[4].is_expanded);
    let none = build_file_tree_entries(&files(), &[]);
    assert_eq!(names(&none), vec![("README.md".to_string(), 0, false), ("src".to_string(), 0, true)]);
}

#[test]
fn fuzzy_scores() {
    assert_eq!(fuzzy_match("abc", "a_b_c"), 12);
    assert_eq!(fuzzy_match("ab", "ab"), 7);
    assert_eq!(fuzzy_match("", "x"), 1);
    assert_eq!(fuzzy_match("z", "abc"), 0);
    assert_eq!(fuzzy_match("ba", "ab"), 0);
}

#[test]
fn empty_query_lists_all_paths_in_order() {
    let paths = vec!["src/b.rs".to_string(), "src/a.rs".to_string(), "Cargo.toml".to_string()];
    assert_eq!(filter_files(&paths, ""), vec![(2, 0), (1, 0), (0, 0)]);
}

#[test]
fn query_is_matched_without_case() {
    let paths = vec!["src/b.rs".to_string(), "src/a.rs".to_string(), "Cargo.toml".to_string()];
    assert_eq!(filter_files(&paths, "SRC"), vec![(0, 10), (1, 10)]);
    assert_eq!(filter_files(&paths, "ar"), vec![(1, 5), (2, 4)]);
    assert!(filter_files(&paths, "zzz").is_empty());
}

#[test]
fn finder_skips_hidden_and_build_entries() {
    assert!(is_skipped_entry(".git"));
    assert!(is_skipped_entry("node_modules"));
    assert!(is_skipped_entry("target"));
    assert!(!is_skipped_entry("src"));
    assert!(!is_skipped_entry("targets"));
}

#[test]
fn finder_selection_moves() {
    assert_eq!(select_next(0, 3), 1);
    assert_eq!(select_next(2, 3), 2);
    assert_eq!(select_next(0, 0), 0);
    assert_eq!(select_prev(0), 0);
    assert_eq!(select_prev(2), 1);
}

#[test]
fn new_workspace_has_uuid_id() {
    let w = Workspace::new("proj".to_string(), "/tmp/proj".to_string());
    assert_eq!(w.id.len(), 36);
    let b: Vec<char> = w.id.chars().collect();
    assert_eq!(b[8], '-');
    assert_eq!(b[14], '4');
    assert!("89ab".contains(b[19]));
    assert!(w.id.chars().all(|c| c == '-' || c.is_ascii_digit() || ('a'..='f').contains(&c)));
    let other = Workspace::new("proj".to_string(), "/tmp/proj".to_string());
    assert_ne!(w.id, other.id);
}

#[test]
fn first_workspace_becomes_active() {
    let mut store = WorkspaceStore::new();
    assert!(store.active_workspace().is_none());
    assert_eq!(store.add_workspace("a".to_string(), "/a".to_string()), 0);
    assert_eq!(store.add_workspace_with_id("id-b".to_string(), "b".to_string(), "/b".to_string()), 1);
    assert_eq!(store.active_workspace_index, Some(0));
    assert_eq!(store.active_workspace().unwrap().name, "a");
    assert_eq!(store.workspaces[1].id, "id-b");
}

#[test]
fn workspace_moves_wrap_around() {
    let mut store = WorkspaceStore::new();
    for n in ["a", "b", "c"] {
        store.add_workspace(n.to_string(), format!("/{n}"));
    }
    assert!(store.prev_workspace());
    assert_eq!(store.active_workspace_index, Some(2));
    assert!(store.next_workspace());
    assert_eq!(store.active_workspace_index, Some(0));
    assert!(!store.set_active(0));
    assert!(!store.set_active(5));
    assert!(store.set_active(1));
    assert_eq!(store.active_workspace().unwrap().name, "b");
}

#[test]
fn single_workspace_does_not_move() {
    let mut store = WorkspaceStore::new();
    store.add_workspace("a".to_string(), "/a".to_string());
    assert!(!store.next_workspace());
    assert!(!store.prev_workspace());
    assert_eq!(store.active_workspace_index, Some(0));
}

#[test]
fn onboarding_walks_through_steps_and_features() {
    let mut o = Onboarding::new();
    assert_eq!(o.current_step_enum(), OnboardingStep::Welcome);
    assert_eq!(o.next_step(), OnboardingAction::Redraw);
    assert_eq!(o.current_step_enum(), OnboardingStep::WorkspaceSetup);
    assert_eq!(o.next_step(), OnboardingAction::ShowPanel(RightSidebarPanel::Hidden));
    assert_eq!(o.current_step_enum(), OnboardingStep::Features);
    assert_eq!(o.next_step(), OnboardingAction::ShowPanel(RightSidebarPanel::FileTree));
    assert_eq!(o.next_step(), OnboardingAction::ShowPanel(RightSidebarPanel::DiffList));
    assert_eq!(o.next_step(), OnboardingAction::Redraw);
    assert_eq!(o.current_step_enum(), OnboardingStep::Complete);
    assert_eq!(o.next_step(), OnboardingAction::Complete);
    assert_eq!(o.prev_step(), OnboardingAction::ShowPanel(RightSidebarPanel::DiffList));
    assert_eq!((o.current_step, o.feature_index), (2, 2));
}

#[test]
fn onboarding_back_from_start_does_nothing() {
    let mut o = Onboarding::new();
    assert_eq!(o.prev_step(), OnboardingAction::Nothing);
    assert_eq!((o.current_step, o.feature_index), (0, 0));
    assert_eq!(feature_panel(7), RightSidebarPanel::Hidden);
}

#[test]
fn test_toggle_file_tree() {
    let mut store = WindowLayout::new();
    assert_eq!(store.right_sidebar(), RightSidebarPanel::Hidden);
    store.toggle_file_tree();
    assert_eq!(store.right_sidebar(), RightSidebarPanel::FileTree);
    store.toggle_file_tree();
    assert_eq!(store.right_sidebar(), RightSidebarPanel::Hidden);
}

#[test]
fn test_toggle_diff_list() {
    let mut store = WindowLayout::new();
    store.toggle_diff_list();
    assert_eq!(store.right_sidebar(), RightSidebarPanel::DiffList);
}

#[test]
fn test_toggle_workspace_sidebar() {
    let mut store = WindowLayout::new();
    assert!(!store.sidebar_collapsed());
    store.toggle_sidebar();
    assert!(store.sidebar_collapsed());
    store.toggle_sidebar();
    assert!(!store.sidebar_collapsed());
}

#[test]
fn test_file_tree_and_diff_list_exclusive() {
    let mut store = WindowLayout::new();
    store.toggle_file_tree();
    assert_eq!(store.right_sidebar(), RightSidebarPanel::FileTree);
    store.toggle_diff_list();
    assert_eq!(store.right_sidebar(), RightSidebarPanel::DiffList);
    store.toggle_file_tree();
    assert_eq!(store.right_sidebar(), RightSidebarPanel::FileTree);
}

#[test]
fn test_toggle_pr_list() {
    let mut store = WindowLayout::new();
    assert_eq!(store.right_sidebar(), RightSidebarPanel::Hidden);
    store.toggle_pull_requests();
    assert_eq!(store.right_sidebar(), RightSidebarPanel::PullRequests);
    store.toggle_pull_requests();
    assert_eq!(store.right_sidebar(), RightSidebarPanel::Hidden);
}

#[test]
fn test_pr_list_exclusive_with_others() {
    let mut store = WindowLayout::new();
    store.toggle_file_tree();
    assert_eq!(store.right_sidebar(), RightSidebarPanel::FileTree);
    store.toggle_pull_requests();
    assert_eq!(store.right_sidebar(), RightSidebarPanel::PullRequests);
    store.toggle_diff_list();
    assert_eq!(store.right_sidebar(), RightSidebarPanel::DiffList);
}

#[test]
fn settings_page_opens_and_closes() {
    let mut store = WindowLayout::new();
    assert!(!store.settings_open());
    store.show_settings();
    assert!(store.settings_open());
    store.hide_settings();
    assert!(!store.settings_open());
}

#[test]
fn toggle_dir_expands_then_collapses() {
    let mut expanded = vec!["src".to_string()];
    toggle_dir(&mut expanded, "src/ui");
    assert_eq!(expanded, vec!["src".to_string(), "src/ui".to_string()]);
    toggle_dir(&mut expanded, "src");
    assert_eq!(expanded, vec!["src/ui".to_string()]);
    toggle_dir(&mut expanded, "src");
    toggle_dir(&mut expanded, "src");
    assert_eq!(expanded, vec!["src/ui".to_string()]);
}

#[test]
fn column_widths_share_the_window() {
    let mut w = WindowLayout::new();
    assert_eq!(w.column_widths(), (17, 83, 0));
    w.toggle_diff_list();
    assert_eq!(w.column_widths(), (17, 41, 42));
    w.toggle_sidebar();
    assert_eq!(w.column_widths(), (0, 50, 50));
    w.toggle_file_tree();
    assert_eq!(w.column_widths(), (0, 83, 17));
    let (a, b, c) = w.column_widths();
    assert_eq!(a as u32 + b as u32 + c as u32, 100);
}

#[test]
fn command_menu_shows_filters_and_confirms() {
    let paths: Vec<String> = vec!["src/main.rs".into(), "README.md".into(), "src/lib.rs".into()];
    let mut menu = CommandMenu::new();
    assert!(!menu.visible);
    menu.toggle(&paths);
    assert!(menu.visible);
    // empty query: every file, in path order
    let order: Vec<usize> = menu.filtered_indices.iter().map(|x| x.0).collect();
    assert_eq!(order, vec![1, 2, 0]);
    menu.set_query("lib".to_string(), &paths);
    assert_eq!(menu.filtered_indices.iter().map(|x| x.0).collect::<Vec<_>>(), vec![2]);
    menu.select_next();
    assert_eq!(menu.selected_index, 0);
    assert_eq!(menu.confirm(), Some(2));
    assert!(!menu.visible);
    menu.show(&paths);
    assert_eq!(menu.query, "");
    menu.select_next();
    menu.select_next();
    menu.select_prev();
    assert_eq!(menu.selected_index, 1);
    assert_eq!(menu.select_item(5), None);
}

#[test]
fn test_sidebar_initially_visible() {
    let w = WindowLayout::new();
    assert!(!w.sidebar_collapsed(), "sidebar should be visible initially");
    assert!(w.column_widths().0 > 0);
}

#[test]
fn test_sidebar_hidden_when_collapsed() {
    let mut w = WindowLayout::new();
    w.toggle_sidebar();
    assert!(w.sidebar_collapsed(), "sidebar should be hidden when collapsed");
    assert_eq!(w.column_widths().0, 0);
}

#[test]
fn restored_active_workspace_falls_back_to_first() {
    assert_eq!(restored_active_index(Some(1), 3), Some(1));
    assert_eq!(restored_active_index(Some(7), 3), Some(0));
    assert_eq!(restored_active_index(None, 3), Some(0));
    assert_eq!(restored_active_index(Some(0), 0), None);
}

#[test]
fn checked_score_agrees_with_fuzzy_match() {
    assert_eq!(fuzzy_score_checked("abc", "a_b_c"), Some(12));
    assert_eq!(fuzzy_score_checked("", "x"), Some(1));
    assert_eq!(fuzzy_score_checked("z", "abc"), Some(0));
    assert_eq!(fuzzy_score_checked("ab", "ab"), Some(fuzzy_match("ab", "ab")));
}

#[test]
fn test_right_sidebar_file_tree_renders() {
    let mut w = WindowLayout::new();
    assert_eq!(w.column_widths().2, 0, "right sidebar should be hidden initially");
    w.toggle_file_tree();
    assert_eq!(w.right_sidebar(), RightSidebarPanel::FileTree, "file tree should be shown in the right sidebar");
    assert!(w.column_widths().2 > 0, "right sidebar should appear with file tree");
    w.toggle_file_tree();
    assert_eq!(w.column_widths().2, 0, "right sidebar should disappear after toggle off");
}

#[test]
fn test_right_sidebar_diff_list_renders() {
    let mut w = WindowLayout::new();
    assert_eq!(w.column_widths().2, 0, "right sidebar should be hidden initially");
    w.toggle_diff_list();
    assert_eq!(w.right_sidebar(), RightSidebarPanel::DiffList, "diff list should be shown in the right sidebar");
    assert!(w.column_widths().2 > 0, "right sidebar should appear with diff list");
    w.toggle_diff_list();
    assert_eq!(w.column_widths().2, 0, "right sidebar should disappear after toggle off");
}
