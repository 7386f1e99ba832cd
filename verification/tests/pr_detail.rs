use august::editor_diff::DiffLineTag;
use august::pr_detail::{
    build_commit_rows, build_conversation_rows, file_status_from_api, format_timestamp,
    parse_hunk_header, parse_patch_to_diff_lines, review_state_from_api, CommitRow, ConversationRow,
    PrComment, PrCommit, PrDetail, PrFileStatus, PrReview, PullRequest, PullRequestState, ReviewState,
};

fn pr() -> PullRequest {
    PullRequest {
        number: 7,
        title: "Add things".to_string(),
        state: PullRequestState::Open,
        draft: false,
        author_login: "alice".to_string(),
        base_ref: "main".to_string(),
        head_ref: "feature".to_string(),
    }
}

fn detail(body: Option<&str>, comments: Vec<PrComment>, reviews: Vec<PrReview>) -> PrDetail {
    PrDetail {
        body: body.map(|b| b.to_string()),
        comments,
        reviews,
        commits: Vec::new(),
        files: Vec::new(),
    }
}

fn comment(author: &str, at: &str) -> PrComment {
    PrComment { author: author.to_string(), body: format!("by {author}"), created_at: at.to_string() }
}

fn review(author: &str, body: &str, state: ReviewState, at: &str) -> PrReview {
    PrReview { author: author.to_string(), body: body.to_string(), state, created_at: at.to_string() }
}

#[test]
fn review_states_from_api_names() {
    assert_eq!(review_state_from_api("APPROVED"), ReviewState::Approved);
    assert_eq!(review_state_from_api("CHANGES_REQUESTED"), ReviewState::ChangesRequested);
    assert_eq!(review_state_from_api("COMMENTED"), ReviewState::Commented);
    assert_eq!(review_state_from_api("DISMISSED"), ReviewState::Dismissed);
    assert_eq!(review_state_from_api("approved"), ReviewState::Pending);
}

#[test]
fn file_statuses_from_api_names() {
    assert_eq!(file_status_from_api("added"), PrFileStatus::Added);
    assert_eq!(file_status_from_api("removed"), PrFileStatus::Removed);
    assert_eq!(file_status_from_api("renamed"), PrFileStatus::Renamed);
    assert_eq!(file_status_from_api("modified"), PrFileStatus::Modified);
}

#[test]
fn timestamp_keeps_the_date() {
    assert_eq!(format_timestamp("2024-03-01T10:00:00Z"), "2024-03-01");
    assert_eq!(format_timestamp("yesterday"), "yesterday");
    assert_eq!(format_timestamp(""), "");
}

#[test]
fn detail_hunk_header_needs_both_ranges() {
    assert_eq!(parse_hunk_header("@@ -3,2 +5,4 @@"), Some((3, 5)));
    assert_eq!(parse_hunk_header("@@ -3,2"), None);
    assert_eq!(parse_hunk_header("@@ -a,2 +5,4 @@"), None);
}

#[test]
fn patch_lines_for_the_files_tab() {
    let lines = parse_patch_to_diff_lines("@@ -4,2 +4,2 @@\n keep\n-gone\n+here\n\\ No newline at end of file");
    assert_eq!(lines.len(), 5);
    assert_eq!(lines[0].tag, DiffLineTag::Equal);
    assert_eq!(lines[0].old_line_num, None);
    assert_eq!(lines[0].content, "@@ -4,2 +4,2 @@");
    assert_eq!(lines[1].tag, DiffLineTag::Equal);
    assert_eq!(lines[1].old_line_num, Some(4));
    assert_eq!(lines[1].new_line_num, Some(4));
    assert_eq!(lines[2].tag, DiffLineTag::Delete);
    assert_eq!(lines[2].old_line_num, Some(5));
    assert_eq!(lines[3].tag, DiffLineTag::Insert);
    assert_eq!(lines[3].new_line_num, Some(5));
    assert_eq!(lines[3].content, "here");
    assert_eq!(lines[4].old_line_num, None);
    assert_eq!(lines[4].new_line_num, None);
}

#[test]
fn commit_rows_show_short_sha_and_first_line() {
    let commits = vec![PrCommit {
        sha: "0123456789abcdef".to_string(),
        message: "Fix it\n\nlong text".to_string(),
        author_name: "Bob".to_string(),
        author: Some("bob".to_string()),
        date: "2024-01-01T00:00:00Z".to_string(),
    }];
    let rows = build_commit_rows(&commits);
    assert_eq!(rows.len(), 1);
    match &rows[0] {
        CommitRow::Commit { short_sha, title, author_name, author, date } => {
            assert_eq!(short_sha, "0123456");
            assert_eq!(title, "Fix it");
            assert_eq!(author_name, "Bob");
            assert_eq!(author.as_deref(), Some("bob"));
            assert_eq!(date, "2024-01-01T00:00:00Z");
        }
    }
}

#[test]
fn conversation_starts_with_header_and_body() {
    let rows = build_conversation_rows(&pr(), &detail(Some("Description"), vec![], vec![]));
    assert_eq!(rows.len(), 2);
    assert!(matches!(&rows[0], ConversationRow::Header { number: 7, .. }));
    assert!(matches!(&rows[1], ConversationRow::Body { body, .. } if body == "Description"));
}

#[test]
fn blank_description_is_left_out() {
    let rows = build_conversation_rows(&pr(), &detail(Some("  \n"), vec![], vec![]));
    assert_eq!(rows.len(), 1);
}

#[test]
fn comments_and_reviews_sorted_by_time() {
    let rows = build_conversation_rows(
        &pr(),
        &detail(
            None,
            vec![comment("c2", "2024-01-03"), comment("c1", "2024-01-01")],
            vec![
                review("r1", "ok", ReviewState::Approved, "2024-01-02"),
                review("r2", "   ", ReviewState::Commented, "2024-01-00"),
                review("r3", "", ReviewState::ChangesRequested, "2024-01-03"),
            ],
        ),
    );
    let authors: Vec<String> = rows
        .iter()
        .filter_map(|r| match r {
            ConversationRow::Comment { author, .. } => Some(author.clone()),
            _ => None,
        })
        .collect();
    assert_eq!(authors, vec!["c1", "r1", "c2", "r3"]);
}
