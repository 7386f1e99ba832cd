use august::editor_diff::{make_diff_line, DiffLineTag};
use august::editor_layout::{
    collapsed_label, cursor_row, diff_number_maxima, decimal_text, diff_prefix, gutter_number_text, line_number_label, number_columns,
    number_right_aligned, scroll_for_cursor, selection_rows, visible_lines, editor_tab_label, RowSelection,
};
use august::editor_motion::Selection;

#[test]
fn decimal_text_matches_format() {
    for n in [0u64, 7, 10, 99, 100, 12345, u64::MAX] {
        assert_eq!(decimal_text(n), format!("{}", n));
        assert_eq!(decimal_text(n).parse::<u64>().unwrap(), n);
    }
}

#[test]
fn numbers_right_aligned_like_format() {
    assert_eq!(number_right_aligned(7, 4), format!("{:>4}", 7));
    assert_eq!(number_right_aligned(12345, 4), format!("{:>4}", 12345));
    assert_eq!(line_number_label(42), "  42");
    assert_eq!(gutter_number_text(Some(5), 3), "  5");
    assert_eq!(gutter_number_text(None, 3), "   ");
    assert_eq!(number_columns(7, 3), 3);
    assert_eq!(number_columns(12345, 4), 5);
}

#[test]
fn diff_marks_and_collapsed_label() {
    assert_eq!(diff_prefix(DiffLineTag::Insert), '+');
    assert_eq!(diff_prefix(DiffLineTag::Delete), '-');
    assert_eq!(diff_prefix(DiffLineTag::Equal), ' ');
    assert_eq!(collapsed_label(12), format!("··· {} lines ···", 12));
}

#[test]
fn visible_lines_drop_trailing_breaks_and_number_from_one() {
    let lines: Vec<String> = vec!["a\n".into(), "b\n\n".into(), "c".into(), "d\n".into()];
    let v = visible_lines(&lines, 1, 2);
    assert_eq!(v, vec![(2, "b".to_string()), (3, "c".to_string())]);
    let v = visible_lines(&lines, 3, 5);
    assert_eq!(v, vec![(4, "d".to_string())]);
    assert!(visible_lines(&lines, 9, 5).is_empty());
}

#[test]
fn cursor_row_and_scrolling() {
    assert_eq!(cursor_row(12, 10, 5), Some(2));
    assert_eq!(cursor_row(15, 10, 5), None);
    assert_eq!(cursor_row(9, 10, 5), None);
    assert_eq!(scroll_for_cursor(3, 10, 30), 3);
    assert_eq!(scroll_for_cursor(45, 10, 30), 16);
    assert_eq!(scroll_for_cursor(20, 10, 30), 10);
}

#[test]
fn selection_rows_cover_selected_lines() {
    let rows = vec![(1, "hello".to_string()), (2, "".to_string()), (3, "world".to_string())];
    let mut sel = Selection::new(2, 3);
    sel.update(0, 1);
    let r = selection_rows(&rows, &sel);
    assert_eq!(
        r,
        vec![
            RowSelection { row: 0, start_col: 1, end_col: 5 },
            RowSelection { row: 1, start_col: 0, end_col: 0 },
            RowSelection { row: 2, start_col: 0, end_col: 3 },
        ]
    );
    assert!(selection_rows(&rows, &Selection::new(0, 2)).is_empty());
}

#[test]
fn diff_number_maxima_take_largest_of_each_side() {
    let lines = vec![
        make_diff_line(DiffLineTag::Equal, Some(3), Some(3), "a"),
        make_diff_line(DiffLineTag::Delete, Some(9), None, "b"),
        make_diff_line(DiffLineTag::Insert, None, Some(12), "c"),
    ];
    assert_eq!(diff_number_maxima(&lines), (9, 12));
    assert_eq!(diff_number_maxima(&[]), (0, 0));
}

#[test]
fn editor_tab_titles() {
    assert_eq!(editor_tab_label(true, Some("main.rs"), true), "Diff");
    assert_eq!(editor_tab_label(false, None, false), "Untitled");
    assert_eq!(editor_tab_label(false, Some("main.rs"), false), "main.rs");
    assert_eq!(editor_tab_label(false, Some("main.rs"), true), "main.rs*");
}
