use august::editor_diff::DiffLineTag;
use august::file_diff::{parse_hunk_header, parse_patch, patch_to_editor_diff_lines, DiffLineKind};

#[test]
fn test_parse_patch_basic() {
    let patch = "@@ -1,3 +1,4 @@\n context\n-removed\n+added\n+new line\n context end";
    let lines = parse_patch(patch);

    assert_eq!(lines.len(), 6);
    assert_eq!(lines[0].kind, DiffLineKind::Header);
    assert_eq!(lines[1].kind, DiffLineKind::Context);
    assert_eq!(lines[1].content, "context");
    assert_eq!(lines[2].kind, DiffLineKind::Deletion);
    assert_eq!(lines[2].content, "removed");
    assert_eq!(lines[3].kind, DiffLineKind::Addition);
    assert_eq!(lines[3].content, "added");
    assert_eq!(lines[4].kind, DiffLineKind::Addition);
    assert_eq!(lines[4].content, "new line");
    assert_eq!(lines[5].kind, DiffLineKind::Context);
    assert_eq!(lines[5].content, "context end");
}

#[test]
fn test_parse_patch_line_numbers() {
    let patch = "@@ -10,2 +20,3 @@\n context\n+added";
    let lines = parse_patch(patch);

    assert_eq!(lines[1].line_number_old, Some(10));
    assert_eq!(lines[1].line_number_new, Some(20));
    assert_eq!(lines[2].line_number_old, None);
    assert_eq!(lines[2].line_number_new, Some(21));
}

#[test]
fn test_parse_hunk_header() {
    assert_eq!(parse_hunk_header("@@ -1,3 +1,4 @@"), Some((1, 1)));
    assert_eq!(parse_hunk_header("@@ -10,5 +20,7 @@ fn main()"), Some((10, 20)));
    assert_eq!(parse_hunk_header("not a header"), None);
}

#[test]
fn test_parse_patch_empty() {
    let lines = parse_patch("");
    assert!(lines.is_empty() || lines.len() == 1);
}

#[test]
fn test_parse_patch_multiple_hunks() {
    let patch = "@@ -1,2 +1,2 @@\n-old\n+new\n@@ -10,2 +10,2 @@\n-old2\n+new2";
    let lines = parse_patch(patch);

    let headers: Vec<_> = lines.iter().filter(|l| l.kind == DiffLineKind::Header).collect();
    assert_eq!(headers.len(), 2);
}

#[test]
fn test_patch_to_editor_skips_headers() {
    let patch = "@@ -1,2 +1,3 @@\n context\n-removed\n+added\n+new";
    let (_content, diff_lines, _map) = patch_to_editor_diff_lines(patch);

    assert!(diff_lines.iter().all(|l| l.tag != DiffLineTag::Equal || l.content != "@@ -1,2 +1,3 @@"));
    assert_eq!(diff_lines.len(), 4);
}

#[test]
fn test_patch_to_editor_content_string() {
    let patch = "@@ -1,2 +1,2 @@\n context\n-removed\n+added";
    let (content, _diff_lines, _map) = patch_to_editor_diff_lines(patch);

    assert_eq!(content, "context\nremoved\nadded");
}

#[test]
fn test_patch_to_editor_tag_mapping() {
    let patch = "@@ -1,3 +1,3 @@\n context\n-removed\n+added";
    let (_content, diff_lines, _map) = patch_to_editor_diff_lines(patch);

    assert_eq!(diff_lines[0].tag, DiffLineTag::Equal);
    assert_eq!(diff_lines[1].tag, DiffLineTag::Delete);
    assert_eq!(diff_lines[2].tag, DiffLineTag::Insert);
}

#[test]
fn test_patch_to_editor_line_numbers() {
    let patch = "@@ -10,2 +20,2 @@\n context\n-removed";
    let (_content, diff_lines, _map) = patch_to_editor_diff_lines(patch);

    assert_eq!(diff_lines[0].old_line_num, Some(10));
    assert_eq!(diff_lines[0].new_line_num, Some(20));
    assert_eq!(diff_lines[1].old_line_num, Some(11));
    assert_eq!(diff_lines[1].new_line_num, None);
}

#[test]
fn test_patch_to_editor_buffer_line_map() {
    let patch = "@@ -1,2 +1,3 @@\n context\n-removed\n+added\n+new";
    let (_content, _diff_lines, map) = patch_to_editor_diff_lines(patch);

    assert_eq!(map, vec![Some(0), Some(1), Some(2), Some(3)]);
}

#[test]
fn test_patch_to_editor_multiple_hunks() {
    let patch = "@@ -1,1 +1,1 @@\n-old1\n+new1\n@@ -10,1 +10,1 @@\n-old2\n+new2";
    let (_content, diff_lines, map) = patch_to_editor_diff_lines(patch);

    assert_eq!(diff_lines.len(), 4);
    assert_eq!(map, vec![Some(0), Some(1), Some(2), Some(3)]);
}

#[test]
fn hunk_header_without_counts() {
    assert_eq!(parse_hunk_header("@@ -5 +7 @@"), Some((5, 7)));
}

#[test]
fn hunk_header_accepts_plus_sign_in_number() {
    assert_eq!(parse_hunk_header("@@ -+3,1 ++4,1 @@"), Some((3, 4)));
}

#[test]
fn hunk_header_with_bad_number_is_refused() {
    assert_eq!(parse_hunk_header("@@ -x,1 +1,1 @@"), None);
    assert_eq!(parse_hunk_header("@@ -1,1 1,1 @@"), None);
}

#[test]
fn lines_before_first_hunk_count_from_zero() {
    let lines = parse_patch(" stray\n@@ -3,1 +4,1 @@\n same");
    assert_eq!(lines[0].kind, DiffLineKind::Context);
    assert_eq!(lines[0].line_number_old, Some(0));
    assert_eq!(lines[0].line_number_new, Some(0));
    assert_eq!(lines[2].line_number_old, Some(3));
    assert_eq!(lines[2].line_number_new, Some(4));
}

#[test]
fn deletion_and_addition_counters_move_apart() {
    let lines = parse_patch("@@ -1,2 +1,2 @@\n-a\n-b\n+c\n d");
    assert_eq!(lines[1].line_number_old, Some(1));
    assert_eq!(lines[2].line_number_old, Some(2));
    assert_eq!(lines[3].line_number_new, Some(1));
    assert_eq!(lines[4].line_number_old, Some(3));
    assert_eq!(lines[4].line_number_new, Some(2));
}

#[test]
fn editor_lines_keep_patch_text() {
    let (content, diff_lines, map) = patch_to_editor_diff_lines("@@ -1,1 +1,1 @@\n-x\n+y");
    assert_eq!(content, "x\ny");
    assert_eq!(diff_lines[0].content, "x");
    assert_eq!(diff_lines[1].content, "y");
    assert_eq!(map.len(), 2);
}
