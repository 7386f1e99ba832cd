use august::terminal_layout::{
    ansi_draw_color, batch_line, cursor_layout, screen_runs, selection_line_ranges, AnsiColor, Cell, CursorInfo,
    CursorShape, DisplayCursor, DrawColor, SelectionLineRange, TermCursorShape,
};

fn cell(c: char, fg: u64) -> Cell {
    Cell { c, wide_spacer: false, fg, bg: None, bold: false }
}

#[test]
fn ansi_colors_map_to_palette_cube_and_grays() {
    assert_eq!(ansi_draw_color(AnsiColor::Named(3)), Some(DrawColor::Palette(3)));
    assert_eq!(ansi_draw_color(AnsiColor::Foreground), Some(DrawColor::DefaultForeground));
    assert_eq!(ansi_draw_color(AnsiColor::OtherNamed), None);
    assert_eq!(ansi_draw_color(AnsiColor::Indexed(7)), Some(DrawColor::Palette(7)));
    assert_eq!(ansi_draw_color(AnsiColor::Indexed(16)), Some(DrawColor::Rgb(0, 0, 0)));
    // 196 = 16 + 180: red level 5, green 0, blue 0
    assert_eq!(ansi_draw_color(AnsiColor::Indexed(196)), Some(DrawColor::Rgb(255, 0, 0)));
    // 110 = 16 + 94: levels 2, 3, 4
    assert_eq!(ansi_draw_color(AnsiColor::Indexed(110)), Some(DrawColor::Rgb(135, 175, 215)));
    assert_eq!(ansi_draw_color(AnsiColor::Indexed(232)), Some(DrawColor::Rgb(8, 8, 8)));
    assert_eq!(ansi_draw_color(AnsiColor::Indexed(255)), Some(DrawColor::Rgb(238, 238, 238)));
    assert_eq!(ansi_draw_color(AnsiColor::Spec(1, 2, 3)), Some(DrawColor::Rgb(1, 2, 3)));
}

#[test]
fn cursor_visibility_shape_and_character() {
    assert_eq!(
        cursor_layout(2, 5, 24, TermCursorShape::Block, true, 'x'),
        Some(CursorInfo { line: 2, col: 5, shape: CursorShape::Block, focused: true, ch: Some('x') })
    );
    assert_eq!(cursor_layout(2, 5, 24, TermCursorShape::Block, true, ' ').unwrap().ch, None);
    assert_eq!(cursor_layout(2, 5, 24, TermCursorShape::Beam, true, 'x').unwrap().shape, CursorShape::Bar);
    assert_eq!(cursor_layout(2, 5, 24, TermCursorShape::Beam, false, 'x').unwrap().shape, CursorShape::Hollow);
    assert_eq!(cursor_layout(-1, 0, 24, TermCursorShape::Block, true, 'x'), None);
    assert_eq!(cursor_layout(24, 0, 24, TermCursorShape::Block, true, 'x'), None);
    assert_eq!(cursor_layout(0, 0, 24, TermCursorShape::Hidden, true, 'x'), None);
    let d = DisplayCursor::from(-3, 4, 5);
    assert_eq!((d.line, d.col), (2, 4));
}

#[test]
fn selection_spans_lines_between_its_ends() {
    let r = selection_line_ranges(4, 0, 1, 3, 2, 5, 10);
    assert_eq!(
        r,
        vec![
            SelectionLineRange { line: 1, start_col: 3, end_col: 9 },
            SelectionLineRange { line: 2, start_col: 0, end_col: 5 },
        ]
    );
    // scrolled back two lines: screen line 3 is terminal line 1
    let r = selection_line_ranges(4, 2, 1, 3, 1, 4, 10);
    assert_eq!(r, vec![SelectionLineRange { line: 3, start_col: 3, end_col: 4 }]);
}

#[test]
fn runs_split_on_style_and_skip_cursor_and_spacers() {
    let mut cells = vec![cell('a', 1), cell('\0', 1), cell('b', 2), cell('c', 2), cell('d', 2)];
    cells[3].wide_spacer = true;
    let runs = batch_line(&cells, 0, Some(4));
    assert_eq!(runs.len(), 2);
    assert_eq!((runs[0].col, runs[0].text.as_str(), runs[0].cell_count), (0, "a ", 2));
    assert_eq!((runs[1].col, runs[1].text.as_str(), runs[1].cell_count), (2, "b", 1));
    let joined: String = runs.iter().map(|r| r.text.as_str()).collect();
    assert_eq!(joined, "a b");
}

#[test]
fn screen_runs_leave_block_cursor_cell() {
    let rows = vec![vec![cell('x', 1), cell('y', 1)], vec![cell('p', 1), cell('q', 1)]];
    let cursor = cursor_layout(1, 0, 2, TermCursorShape::Block, true, 'p');
    let runs = screen_runs(&rows, cursor);
    let shown: Vec<(i32, usize, String)> = runs.iter().map(|r| (r.line, r.col, r.text.clone())).collect();
    assert_eq!(shown, vec![(0, 0, "xy".to_string()), (1, 1, "q".to_string())]);
    let bar = cursor_layout(1, 0, 2, TermCursorShape::Beam, true, 'p');
    assert_eq!(screen_runs(&rows, bar).len(), 2);
    assert_eq!(screen_runs(&rows, bar)[1].text, "pq");
}
