use august::diff_mode::{compute_display_lines, inject_inline_comments, is_section_expanded, CommentAttachment, DiffDisplayLine, InlineComment};
use august::editor_diff::{make_diff_line, DiffLine, DiffLineTag};

fn equal(n: usize) -> DiffLine {
    make_diff_line(DiffLineTag::Equal, Some(n), Some(n), "same")
}

fn lines_with_change_at(total: usize, changed: usize) -> Vec<DiffLine> {
    (1..=total)
        .map(|n| if n == changed { make_diff_line(DiffLineTag::Insert, None, Some(n), "new") } else { equal(n) })
        .collect()
}

fn kinds(rows: &[DiffDisplayLine]) -> Vec<&'static str> {
    rows.iter()
        .map(|r| match r {
            DiffDisplayLine::Line { .. } => "line",
            DiffDisplayLine::Collapsed { .. } => "collapsed",
            DiffDisplayLine::CommentRow { .. } => "comment",
        })
        .collect()
}

#[test]
fn make_diff_line_keeps_fields() {
    let l = make_diff_line(DiffLineTag::Delete, Some(3), None, "x");
    assert_eq!(l.tag, DiffLineTag::Delete);
    assert_eq!(l.old_line_num, Some(3));
    assert_eq!(l.new_line_num, None);
    assert_eq!(l.content, "x");
}

#[test]
fn far_unchanged_lines_collapse() {
    let lines = lines_with_change_at(20, 10);
    let rows = compute_display_lines(&lines, &[], 3, None);
    assert_eq!(kinds(&rows), vec!["collapsed", "line", "line", "line", "line", "line", "line", "line", "collapsed"]);
    match &rows[0] {
        DiffDisplayLine::Collapsed { start_idx, end_idx, count } => {
            assert_eq!((*start_idx, *end_idx, *count), (0, 6, 6));
        }
        _ => panic!("expected a collapsed row"),
    }
    match &rows[8] {
        DiffDisplayLine::Collapsed { start_idx, end_idx, count } => {
            assert_eq!((*start_idx, *end_idx, *count), (13, 20, 7));
        }
        _ => panic!("expected a collapsed row"),
    }
}

#[test]
fn expanded_section_shows_its_lines() {
    let lines = lines_with_change_at(20, 10);
    let rows = compute_display_lines(&lines, &[(0, 6)], 3, None);
    assert_eq!(rows.len(), 6 + 7 + 1);
    assert!(matches!(&rows[0], DiffDisplayLine::Line { buffer_line: Some(0), .. }));
}

#[test]
fn no_changes_means_one_collapsed_row() {
    let lines: Vec<DiffLine> = (1..=5).map(equal).collect();
    let rows = compute_display_lines(&lines, &[], 3, None);
    assert_eq!(kinds(&rows), vec!["collapsed"]);
}

#[test]
fn buffer_map_gives_buffer_lines() {
    let lines = lines_with_change_at(2, 1);
    let map = vec![Some(7), None];
    let rows = compute_display_lines(&lines, &[], 3, Some(&map));
    assert!(matches!(&rows[0], DiffDisplayLine::Line { buffer_line: Some(7), .. }));
    assert!(matches!(&rows[1], DiffDisplayLine::Line { buffer_line: None, .. }));
}

#[test]
fn section_expansion_lookup() {
    assert!(is_section_expanded(2, 5, &[(0, 1), (2, 5)]));
    assert!(!is_section_expanded(2, 4, &[(0, 1), (2, 5)]));
    assert!(!is_section_expanded(0, 0, &[]));
}

#[test]
fn comments_go_under_their_line() {
    let lines = vec![equal(1), make_diff_line(DiffLineTag::Delete, Some(2), None, "old"), make_diff_line(DiffLineTag::Insert, None, Some(2), "new")];
    let mut rows = compute_display_lines(&lines, &[], 3, None);
    let atts = vec![
        CommentAttachment {
            line: 2,
            side: "LEFT".to_string(),
            comments: vec![InlineComment { author: "ann".to_string(), body: "why\nremoved".to_string(), created_at: "2024-05-06T07:08:09Z".to_string(), is_pending: false }],
        },
        CommentAttachment {
            line: 2,
            side: "RIGHT".to_string(),
            comments: vec![InlineComment { author: "You".to_string(), body: String::new(), created_at: String::new(), is_pending: true }],
        },
    ];
    inject_inline_comments(&mut rows, &atts);
    assert_eq!(kinds(&rows), vec!["line", "line", "comment", "comment", "comment", "line", "comment", "comment"]);
    match &rows[2] {
        DiffDisplayLine::CommentRow { text, is_first_line, is_pending } => {
            assert_eq!(text, "@ann (2024-05-06)");
            assert!(*is_first_line);
            assert!(!*is_pending);
        }
        _ => panic!("expected a comment row"),
    }
    assert!(matches!(&rows[3], DiffDisplayLine::CommentRow { text, .. } if text == "  why"));
    assert!(matches!(&rows[4], DiffDisplayLine::CommentRow { text, .. } if text == "  removed"));
    assert!(matches!(&rows[6], DiffDisplayLine::CommentRow { text, is_pending: true, .. } if text == "You (draft)"));
    assert!(matches!(&rows[7], DiffDisplayLine::CommentRow { text, .. } if text.is_empty()));
}

#[test]
fn comments_on_missing_lines_are_dropped() {
    let mut rows = compute_display_lines(&[equal(1)], &[], 3, None);
    let before = rows.len();
    inject_inline_comments(
        &mut rows,
        &[CommentAttachment { line: 9, side: "RIGHT".to_string(), comments: vec![InlineComment { author: "a".to_string(), body: "b".to_string(), created_at: "2024-01-01".to_string(), is_pending: false }] }],
    );
    assert_eq!(rows.len(), before);
}

fn shown_lines(rows: &[DiffDisplayLine]) -> Vec<u64> {
    rows.iter()
        .filter_map(|r| match r {
            DiffDisplayLine::Line { line, .. } => line.new_line_num.map(|n| n as u64),
            _ => None,
        })
        .collect()
}

#[test]
fn wider_context_hides_no_line_and_folds_no_more_runs() {
    let mut lines = lines_with_change_at(40, 10);
    lines[29] = make_diff_line(DiffLineTag::Insert, None, Some(30), "new");
    let mut previous: Option<(Vec<u64>, usize)> = None;
    for context in [0usize, 1, 3, 9, 12] {
        let rows = compute_display_lines(&lines, &[], context, None);
        let shown = shown_lines(&rows);
        let folded = kinds(&rows).iter().filter(|k| **k == "collapsed").count();
        if let Some((before, folded_before)) = &previous {
            assert!(before.iter().all(|n| shown.contains(n)));
            assert!(folded <= *folded_before);
        }
        previous = Some((shown, folded));
    }
}
