use august::diff_mode::{compute_display_lines, DiffDisplayLine};
use august::editor_diff::DiffLineTag;
use august::file_diff::patch_to_editor_diff_lines;
use august::review::{
    comment_marker_indices, existing_comments_for, file_has_pending, find_display_line_index,
    format_timestamp, inline_attachments, GitHubUser, PullRequestFile, ReviewComment, ReviewSession,
};

const MAIN_PATCH: &str = "@@ -1,3 +1,4 @@\n context\n-removed\n+added\n+new line\n context end";

fn make_test_file(filename: &str, patch: &str) -> PullRequestFile {
    PullRequestFile {
        sha: "abc123".to_string(),
        filename: filename.to_string(),
        status: "modified".to_string(),
        additions: 1,
        deletions: 1,
        changes: 2,
        patch: Some(patch.to_string()),
    }
}

fn make_test_comment(path: &str, line: u64, side: &str, body: &str) -> ReviewComment {
    ReviewComment {
        id: 1,
        body: body.to_string(),
        path: path.to_string(),
        position: None,
        line: Some(line),
        side: Some(side.to_string()),
        user: GitHubUser {
            login: "octocat".to_string(),
            avatar_url: "https://example.com/a.png".to_string(),
        },
        created_at: "2024-01-15T12:00:00Z".to_string(),
    }
}

fn test_files() -> Vec<PullRequestFile> {
    vec![
        make_test_file("src/main.rs", MAIN_PATCH),
        make_test_file("src/lib.rs", "@@ -1,1 +1,1 @@\n-old\n+new"),
        make_test_file("src/util.rs", "@@ -1,1 +1,1 @@\n-a\n+b"),
    ]
}

fn test_comments() -> Vec<ReviewComment> {
    vec![make_test_comment("src/main.rs", 2, "RIGHT", "looks good")]
}

fn display_lines(patch: &str) -> Vec<DiffDisplayLine> {
    let (_content, lines, map) = patch_to_editor_diff_lines(patch);
    compute_display_lines(&lines, &[], 3, Some(&map))
}

fn session() -> ReviewSession {
    ReviewSession::new("owner".to_string(), "repo".to_string(), 42, "Test PR".to_string())
}

fn click_first_line(s: &mut ReviewSession) {
    let files = test_files();
    let name = s.selected_filename(&files).unwrap();
    s.on_diff_line_clicked(Some(name.as_str()), &test_comments(), 0, Some(1), Some(1), DiffLineTag::Equal);
}

#[test]
fn test_file_navigation_next() {
    let mut s = session();
    let count = test_files().len();
    assert_eq!(s.selected_file_index, 0);

    s.next_file(count);
    assert_eq!(s.selected_file_index, 1);

    s.next_file(count);
    assert_eq!(s.selected_file_index, 2);

    s.next_file(count);
    assert_eq!(s.selected_file_index, 0);
}

#[test]
fn test_file_navigation_prev() {
    let mut s = session();
    let count = test_files().len();

    s.prev_file(count);
    assert_eq!(s.selected_file_index, 2);

    s.prev_file(count);
    assert_eq!(s.selected_file_index, 1);

    s.prev_file(count);
    assert_eq!(s.selected_file_index, 0);
}

#[test]
fn test_find_display_line_index_right() {
    let lines = display_lines(MAIN_PATCH);
    let idx = find_display_line_index(&lines, 2, "RIGHT");
    assert!(idx.is_some());
}

#[test]
fn test_find_display_line_index_left() {
    let lines = display_lines(MAIN_PATCH);
    let idx = find_display_line_index(&lines, 2, "LEFT");
    assert!(idx.is_some());
}

#[test]
fn test_find_display_line_index_not_found() {
    let lines = display_lines(MAIN_PATCH);
    let idx = find_display_line_index(&lines, 999, "RIGHT");
    assert!(idx.is_none());
}

#[test]
fn test_save_pending_comment_upsert() {
    let mut s = session();
    click_first_line(&mut s);
    s.save_pending_comment(Some("first comment"));

    assert_eq!(s.pending_comments.len(), 1);
    assert_eq!(s.pending_comments[0].body, "first comment");

    click_first_line(&mut s);
    s.save_pending_comment(Some("updated comment"));

    assert_eq!(s.pending_comments.len(), 1);
    assert_eq!(s.pending_comments[0].body, "updated comment");
}

#[test]
fn test_close_comment_panel_clears_state() {
    let mut s = session();
    click_first_line(&mut s);
    assert!(s.active_comment_anchor.is_some());

    s.close_comment_panel();

    assert!(s.active_comment_anchor.is_none());
    assert!(s.active_comment_pending_body.is_none());
    assert!(s.active_comment_existing.is_empty());
}

#[test]
fn test_submit_review_clears_pending() {
    let mut s = session();
    click_first_line(&mut s);
    s.save_pending_comment(Some("my comment"));
    assert_eq!(s.pending_comments.len(), 1);

    let request = s.submit_review("COMMENT");

    assert!(request.is_some());
    assert!(s.pending_comments.is_empty());
    assert!(!s.submitting);
}

#[test]
fn test_existing_comments_for_filters_by_path_and_line() {
    let comments = test_comments();

    let found = existing_comments_for(&comments, "src/main.rs", 2);
    assert_eq!(found.len(), 1);
    assert_eq!(found[0].body, "looks good");

    let not_found = existing_comments_for(&comments, "src/lib.rs", 2);
    assert!(not_found.is_empty());

    let not_found2 = existing_comments_for(&comments, "src/main.rs", 99);
    assert!(not_found2.is_empty());
}

#[test]
fn click_on_deleted_row_anchors_left_side() {
    let mut s = session();
    s.on_diff_line_clicked(Some("src/main.rs"), &test_comments(), 1, Some(2), None, DiffLineTag::Delete);
    let a = s.active_comment_anchor.clone().unwrap();
    assert_eq!(a.line, 2);
    assert_eq!(a.side, "LEFT");
    assert_eq!(a.display_line_index, 1);
    assert_eq!(s.active_comment_existing.len(), 1);
    s.on_diff_line_clicked(Some("src/main.rs"), &test_comments(), 1, Some(3), None, DiffLineTag::Delete);
    assert!(s.active_comment_existing.is_empty());
}

#[test]
fn click_shows_posted_comments_of_the_line() {
    let mut s = session();
    s.on_diff_line_clicked(Some("src/main.rs"), &test_comments(), 2, None, Some(2), DiffLineTag::Insert);
    assert_eq!(s.active_comment_existing.len(), 1);
    assert_eq!(s.active_comment_anchor.clone().unwrap().side, "RIGHT");
}

#[test]
fn click_without_line_number_does_nothing() {
    let mut s = session();
    s.on_diff_line_clicked(Some("src/main.rs"), &test_comments(), 1, None, Some(2), DiffLineTag::Delete);
    assert!(s.active_comment_anchor.is_none());
    s.on_diff_line_clicked(None, &test_comments(), 0, Some(1), Some(1), DiffLineTag::Equal);
    assert!(s.active_comment_anchor.is_none());
}

#[test]
fn reopening_a_line_shows_its_draft() {
    let mut s = session();
    click_first_line(&mut s);
    s.save_pending_comment(Some("draft text"));
    assert!(s.active_comment_anchor.is_none());
    click_first_line(&mut s);
    assert_eq!(s.active_comment_pending_body.as_deref(), Some("draft text"));
}

#[test]
fn blank_text_is_not_saved() {
    let mut s = session();
    click_first_line(&mut s);
    s.save_pending_comment(Some("  \n\t"));
    assert!(s.pending_comments.is_empty());
    assert!(s.active_comment_anchor.is_some());
    s.save_pending_comment(None);
    assert!(s.pending_comments.is_empty());
}

#[test]
fn submitted_request_carries_drafts() {
    let mut s = session();
    click_first_line(&mut s);
    s.save_pending_comment(Some("nit"));
    let request = s.submit_review("APPROVE").unwrap();
    assert_eq!(request.event, "APPROVE");
    assert_eq!(request.body, "");
    assert_eq!(request.comments.len(), 1);
    assert_eq!(request.comments[0].path, "src/main.rs");
    assert_eq!(request.comments[0].line, 1);
    assert_eq!(request.comments[0].side, "RIGHT");
    assert_eq!(request.comments[0].body, "nit");
}

#[test]
fn review_being_submitted_is_left_alone() {
    let mut s = session();
    s.submitting = true;
    assert!(s.submit_review("COMMENT").is_none());
    assert!(s.submitting);
}

#[test]
fn selecting_a_file_closes_the_panel() {
    let mut s = session();
    click_first_line(&mut s);
    s.select_file(2);
    assert_eq!(s.selected_file_index, 2);
    assert!(s.active_comment_anchor.is_none());
}

#[test]
fn navigation_without_files_does_nothing() {
    let mut s = session();
    assert!(!s.next_file(0));
    assert!(!s.prev_file(0));
    assert_eq!(s.selected_file_index, 0);
}

#[test]
fn markers_are_sorted_and_unique() {
    let lines = display_lines(MAIN_PATCH);
    let mut s = session();
    s.on_diff_line_clicked(Some("src/main.rs"), &test_comments(), 2, None, Some(2), DiffLineTag::Insert);
    s.save_pending_comment(Some("draft on the same row"));
    s.on_diff_line_clicked(Some("src/main.rs"), &test_comments(), 0, Some(1), Some(1), DiffLineTag::Equal);
    s.save_pending_comment(Some("first line"));
    let marks = comment_marker_indices(&s.pending_comments, &test_comments(), &lines, "src/main.rs");
    let right2 = find_display_line_index(&lines, 2, "RIGHT").unwrap();
    assert_eq!(right2, 2);
    assert_eq!(marks, vec![0, 2]);
    let other = comment_marker_indices(&s.pending_comments, &test_comments(), &lines, "src/lib.rs");
    assert!(other.is_empty());
}

#[test]
fn attachments_group_posted_comments_then_drafts() {
    let mut s = session();
    s.on_diff_line_clicked(Some("src/main.rs"), &test_comments(), 2, None, Some(2), DiffLineTag::Insert);
    s.save_pending_comment(Some("my draft"));
    let mut comments = test_comments();
    comments.push(make_test_comment("src/main.rs", 1, "LEFT", "old side"));
    comments.push(make_test_comment("src/lib.rs", 2, "RIGHT", "elsewhere"));
    let atts = inline_attachments(&comments, &s.pending_comments, "src/main.rs");
    assert_eq!(atts.len(), 2);
    assert_eq!(atts[0].line, 2);
    assert_eq!(atts[0].side, "RIGHT");
    assert_eq!(atts[0].comments.len(), 2);
    assert_eq!(atts[0].comments[0].author, "octocat");
    assert!(!atts[0].comments[0].is_pending);
    assert_eq!(atts[0].comments[1].author, "You");
    assert_eq!(atts[0].comments[1].created_at, "");
    assert!(atts[0].comments[1].is_pending);
    assert_eq!(atts[1].line, 1);
    assert_eq!(atts[1].side, "LEFT");
}

#[test]
fn comment_without_side_counts_as_right() {
    let mut c = make_test_comment("src/main.rs", 2, "RIGHT", "no side");
    c.side = None;
    let atts = inline_attachments(&[c], &[], "src/main.rs");
    assert_eq!(atts[0].side, "RIGHT");
}

#[test]
fn timestamps_show_their_date() {
    assert_eq!(format_timestamp("2024-01-15T12:00:00Z"), "2024-01-15");
    assert_eq!(format_timestamp("2024-01"), "2024-01");
}

#[test]
fn pending_marks_the_file() {
    let mut s = session();
    assert!(!file_has_pending(&s.pending_comments, "src/main.rs"));
    click_first_line(&mut s);
    s.save_pending_comment(Some("x"));
    assert!(file_has_pending(&s.pending_comments, "src/main.rs"));
    assert!(!file_has_pending(&s.pending_comments, "src/lib.rs"));
}
