use august::pr_api::{
    bearer_header, endpoint_url, parse_comments, parse_commits, parse_files, parse_reviews, ApiComment, ApiCommit, ApiFile,
    ApiReview, PrEndpoint,
};
use august::pr_detail::{PrFileStatus, ReviewState};

fn s(x: &str) -> Option<String> {
    Some(x.to_string())
}

#[test]
fn comments_without_login_are_skipped() {
    let items = vec![
        ApiComment { login: s("alice"), body: s("hi"), created_at: s("2024-01-01T00:00:00Z") },
        ApiComment { login: None, body: s("ghost"), created_at: None },
        ApiComment { login: s("bob"), body: None, created_at: None },
    ];
    let out = parse_comments(&items);
    assert_eq!(out.len(), 2);
    assert_eq!(out[0].author, "alice");
    assert_eq!(out[0].body, "hi");
    assert_eq!(out[0].created_at, "2024-01-01T00:00:00Z");
    assert_eq!(out[1].author, "bob");
    assert_eq!(out[1].body, "");
    assert_eq!(out[1].created_at, "");
}

#[test]
fn reviews_map_states() {
    let items = vec![
        ApiReview { login: s("a"), body: s("ok"), submitted_at: s("t1"), state: s("APPROVED") },
        ApiReview { login: s("b"), body: None, submitted_at: None, state: s("CHANGES_REQUESTED") },
        ApiReview { login: s("c"), body: None, submitted_at: None, state: s("COMMENTED") },
        ApiReview { login: s("d"), body: None, submitted_at: None, state: s("DISMISSED") },
        ApiReview { login: s("e"), body: None, submitted_at: None, state: None },
        ApiReview { login: None, body: None, submitted_at: None, state: s("APPROVED") },
    ];
    let out = parse_reviews(&items);
    assert_eq!(out.len(), 5);
    assert_eq!(out[0].state, ReviewState::Approved);
    assert_eq!(out[0].created_at, "t1");
    assert_eq!(out[1].state, ReviewState::ChangesRequested);
    assert_eq!(out[2].state, ReviewState::Commented);
    assert_eq!(out[3].state, ReviewState::Dismissed);
    assert_eq!(out[4].state, ReviewState::Pending);
}

#[test]
fn commits_need_a_hash() {
    let items = vec![
        ApiCommit {
            sha: s("abcdef123"),
            message: s("Fix\n\nbody"),
            author_name: s("Alice"),
            author_login: s("alice"),
            date: s("2024-02-02"),
        },
        ApiCommit { sha: None, message: s("lost"), author_name: None, author_login: None, date: None },
        ApiCommit { sha: s("ff"), message: None, author_name: None, author_login: None, date: None },
    ];
    let out = parse_commits(&items);
    assert_eq!(out.len(), 2);
    assert_eq!(out[0].sha, "abcdef123");
    assert_eq!(out[0].author, Some("alice".to_string()));
    assert_eq!(out[0].author_name, "Alice");
    assert_eq!(out[1].author, None);
    assert_eq!(out[1].message, "");
}

#[test]
fn files_default_status_and_counts() {
    let items = vec![
        ApiFile {
            filename: s("a.rs"),
            status: s("added"),
            additions: Some(3),
            deletions: Some(0),
            patch: s("@@ -0,0 +1,3 @@"),
            previous_filename: None,
        },
        ApiFile { filename: s("b.rs"), status: s("weird"), additions: None, deletions: None, patch: None, previous_filename: s("c.rs") },
        ApiFile { filename: None, status: s("removed"), additions: Some(1), deletions: Some(1), patch: None, previous_filename: None },
        ApiFile { filename: s("d.rs"), status: s("renamed"), additions: None, deletions: Some(2), patch: None, previous_filename: None },
    ];
    let out = parse_files(&items);
    assert_eq!(out.len(), 3);
    assert_eq!(out[0].status, PrFileStatus::Added);
    assert_eq!(out[0].additions, 3);
    assert_eq!(out[0].patch.as_deref(), Some("@@ -0,0 +1,3 @@"));
    assert_eq!(out[1].status, PrFileStatus::Modified);
    assert_eq!(out[1].additions, 0);
    assert_eq!(out[1].previous_filename.as_deref(), Some("c.rs"));
    assert_eq!(out[2].status, PrFileStatus::Renamed);
    assert_eq!(out[2].deletions, 2);
}

#[test]
fn endpoint_addresses_name_owner_repo_and_number() {
    assert_eq!(
        endpoint_url("octo", "august", 42, PrEndpoint::Body),
        "https://api.github.com/repos/octo/august/pulls/42"
    );
    assert_eq!(
        endpoint_url("octo", "august", 42, PrEndpoint::Comments),
        "https://api.github.com/repos/octo/august/issues/42/comments?per_page=100"
    );
    assert_eq!(
        endpoint_url("octo", "august", 42, PrEndpoint::Reviews),
        "https://api.github.com/repos/octo/august/pulls/42/reviews?per_page=100"
    );
    assert_eq!(
        endpoint_url("octo", "august", 7, PrEndpoint::Commits),
        "https://api.github.com/repos/octo/august/pulls/7/commits?per_page=250"
    );
    assert_eq!(
        endpoint_url("a", "b", 0, PrEndpoint::Files),
        "https://api.github.com/repos/a/b/pulls/0/files?per_page=100"
    );
}

#[test]
fn bearer_header_prefixes_token() {
    assert_eq!(bearer_header("abc123"), "Bearer abc123");
    assert_eq!(bearer_header(""), "Bearer ");
}
