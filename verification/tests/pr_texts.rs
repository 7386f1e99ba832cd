use august::pr_detail::{PrFile, PrFileStatus, PullRequestState, ReviewState};
use august::pr_texts::{
    added_label, anchor_label, base_name, change_totals, comment_heading, commit_author_label, file_count_label,
    files_heading, merge_line, number_label, opened_line, pending_label, removed_label, review_tab_label, review_title,
    state_label, verdict_label,
};

fn file(additions: u64, deletions: u64) -> PrFile {
    PrFile {
        filename: "f.rs".to_string(),
        status: PrFileStatus::Modified,
        additions,
        deletions,
        patch: None,
        previous_filename: None,
    }
}

#[test]
fn state_and_verdict_labels() {
    assert_eq!(state_label(PullRequestState::Open), "Open");
    assert_eq!(state_label(PullRequestState::Merged), "Merged");
    assert_eq!(verdict_label(ReviewState::ChangesRequested), "requested changes");
    assert_eq!(verdict_label(ReviewState::Dismissed), "dismissed review");
    assert_eq!(verdict_label(ReviewState::Pending), "pending review");
}

#[test]
fn header_lines() {
    assert_eq!(number_label(42), "#42");
    assert_eq!(merge_line("alice", "main", "feature"), "alice wants to merge into main from feature");
    assert_eq!(opened_line("bob"), "bob opened this pull request");
}

#[test]
fn file_summary_labels_and_totals() {
    assert_eq!(file_count_label(1), "1 file");
    assert_eq!(file_count_label(0), "0 files");
    assert_eq!(file_count_label(12), "12 files");
    let files = vec![file(3, 1), file(10, 0), file(0, 7)];
    assert_eq!(change_totals(&files), (13, 8));
    assert_eq!(added_label(13), "+13");
    assert_eq!(removed_label(8), "-8");
}

#[test]
fn commit_author_prefers_login() {
    assert_eq!(commit_author_label(&Some("octo".to_string()), &"Octo Cat".to_string()), "octo");
    assert_eq!(commit_author_label(&None, &"Octo Cat".to_string()), "Octo Cat");
}

#[test]
fn review_view_texts() {
    assert_eq!(base_name("src/ui/view.rs"), "view.rs");
    assert_eq!(base_name("README.md"), "README.md");
    assert_eq!(base_name("dir/"), "");
    assert_eq!(review_title(7, "Fix it"), "#7 Fix it");
    assert_eq!(pending_label(3), "3 pending");
    assert_eq!(files_heading(4), "FILES (4)");
    assert_eq!(anchor_label(12, "a.rs"), "Line 12 in a.rs");
    assert_eq!(comment_heading("octo", "2024-01-01"), "@octo (2024-01-01)");
    assert_eq!(review_tab_label(9), "PR #9");
}
