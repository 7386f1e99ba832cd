//! What a terminal view draws, decided from the terminal's screen: the
//! colour an ANSI colour names, the cursor, the selected part of each line,
//! and the runs of characters that share a style.
use vstd::prelude::*;

verus! {

// ---------------------------------------------------------------------------
// Colours
// ---------------------------------------------------------------------------

/// An ANSI colour as a terminal cell carries it.
#[derive(Clone, Copy, Debug, PartialEq, Eq, Structural)]
pub enum AnsiColor {
    /// One of the sixteen named colours, by its number.
    Named(u8),
    /// The default foreground.
    Foreground,
    /// The default background.
    Background,
    /// Another named colour (cursor, dim and other special colours).
    OtherNamed,
    /// A colour given as red, green and blue.
    Spec(u8, u8, u8),
    /// A colour of the 256-colour palette.
    Indexed(u8),
}

/// The colour to draw: one of the sixteen palette colours, an RGB colour,
/// or the theme's default foreground or background.
#[derive(Clone, Copy, Debug, PartialEq, Eq, Structural)]
pub enum DrawColor {
    Palette(u8),
    Rgb(u8, u8, u8),
    DefaultForeground,
    DefaultBackground,
}

/// A level of the 6x6x6 colour cube: 0, or 55 + 40 times the level.
pub open spec fn cube_level(v: int) -> int {
    if v > 0 {
        v * 40 + 55
    } else {
        0
    }
}

/// The colour an ANSI colour names: named colours 0 to 15 and palette
/// entries below 16 are palette colours; entries 16 to 231 form the colour
/// cube; the rest are 24 greys from 8 in steps of 10; special named colours
/// other than the default foreground and background name none.
pub open spec fn draw_color(c: AnsiColor) -> Option<DrawColor> {
    match c {
        AnsiColor::Named(i) => if i < 16 {
            Some(DrawColor::Palette(i))
        } else {
            None
        },
        AnsiColor::Foreground => Some(DrawColor::DefaultForeground),
        AnsiColor::Background => Some(DrawColor::DefaultBackground),
        AnsiColor::OtherNamed => None,
        AnsiColor::Spec(r, g, b) => Some(DrawColor::Rgb(r, g, b)),
        AnsiColor::Indexed(i) => if i < 16 {
            Some(DrawColor::Palette(i))
        } else if i < 232 {
            let k = i - 16;
            Some(
                DrawColor::Rgb(
                    cube_level(k / 36) as u8,
                    cube_level((k / 6) % 6) as u8,
                    cube_level(k % 6) as u8,
                ),
            )
        } else {
            let gray = ((i - 232) * 10 + 8) as u8;
            Some(DrawColor::Rgb(gray, gray, gray))
        },
    }
}

/// The colour an ANSI colour names.
pub fn ansi_draw_color(c: AnsiColor) -> (r: Option<DrawColor>)
    ensures
        r == draw_color(c),
{
    match c {
        AnsiColor::Named(i) => if i < 16 {
            Some(DrawColor::Palette(i))
        } else {
            None
        },
        AnsiColor::Foreground => Some(DrawColor::DefaultForeground),
        AnsiColor::Background => Some(DrawColor::DefaultBackground),
        AnsiColor::OtherNamed => None,
        AnsiColor::Spec(r, g, b) => Some(DrawColor::Rgb(r, g, b)),
        AnsiColor::Indexed(i) => {
            if i < 16 {
                Some(DrawColor::Palette(i))
            } else if i < 232 {
                let k = i - 16;
                assert(k / 36 <= 5 && (k / 6) % 6 <= 5 && k % 6 <= 5) by (nonlinear_arith)
                    requires
                        k < 216,
                ;
                let r = if k / 36 > 0 { (k / 36) * 40 + 55 } else { 0 };
                let g = if (k / 6) % 6 > 0 { ((k / 6) % 6) * 40 + 55 } else { 0 };
                let b = if k % 6 > 0 { (k % 6) * 40 + 55 } else { 0 };
                Some(DrawColor::Rgb(r, g, b))
            } else {
                let gray = (i - 232) * 10 + 8;
                Some(DrawColor::Rgb(gray, gray, gray))
            }
        },
    }
}

// ---------------------------------------------------------------------------
// The cursor
// ---------------------------------------------------------------------------

/// The shape the terminal asks for its cursor.
#[derive(Clone, Copy, Debug, PartialEq, Eq, Structural)]
pub enum TermCursorShape {
    Block,
    Underline,
    Beam,
    HollowBlock,
    Hidden,
}

/// The shape the cursor is drawn with.
#[derive(Clone, Copy, Debug, PartialEq, Eq, Structural)]
pub enum CursorShape {
    Block,
    Underline,
    Bar,
    Hollow,
}

/// The cursor as drawn: its screen line and column, its shape, whether it
/// takes the caret colour (the view has the focus), and the character a
/// block cursor shows.
#[derive(Clone, Copy, Debug, PartialEq, Eq, Structural)]
pub struct CursorInfo {
    pub line: i32,
    pub col: usize,
    pub shape: CursorShape,
    pub focused: bool,
    pub ch: Option<char>,
}

/// A cursor position of the terminal moved onto the screen as the view is
/// scrolled back by `display_offset` lines.
#[derive(Clone, Copy, Debug, PartialEq, Eq, Structural)]
pub struct DisplayCursor {
    pub line: i32,
    pub col: usize,
}

impl DisplayCursor {
    /// The screen position of a terminal position.
    pub fn from(line: i32, col: usize, display_offset: usize) -> (r: DisplayCursor)
        requires
            display_offset <= i32::MAX,
            line + display_offset <= i32::MAX,
        ensures
            r.line == line + display_offset,
            r.col == col,
    {
        DisplayCursor { line: line + (display_offset as i32), col }
    }
}

/// The shape a cursor is drawn with: hollow without the focus, else the
/// shape the terminal asks for.
pub open spec fn drawn_shape(shape: TermCursorShape, focused: bool) -> CursorShape {
    if !focused {
        CursorShape::Hollow
    } else {
        match shape {
            TermCursorShape::Underline => CursorShape::Underline,
            TermCursorShape::Beam => CursorShape::Bar,
            TermCursorShape::HollowBlock => CursorShape::Hollow,
            _ => CursorShape::Block,
        }
    }
}

/// The cursor to draw at screen line `line` and column `col` over a cell
/// holding `under`: none when it is off the screen's `screen_lines` lines
/// or hidden; a block cursor shows the character under it unless that is
/// blank.
pub open spec fn cursor_spec(line: i32, col: usize, screen_lines: usize, shape: TermCursorShape, focused: bool, under: char) -> Option<
    CursorInfo,
> {
    if 0 <= line < screen_lines && shape != TermCursorShape::Hidden {
        let s = drawn_shape(shape, focused);
        Some(
            CursorInfo {
                line,
                col,
                shape: s,
                focused,
                ch: if s == CursorShape::Block && under != '\0' && under != ' ' {
                    Some(under)
                } else {
                    None
                },
            },
        )
    } else {
        None
    }
}

/// The cursor to draw.
pub fn cursor_layout(line: i32, col: usize, screen_lines: usize, shape: TermCursorShape, focused: bool, under: char) -> (r: Option<
    CursorInfo,
>)
    ensures
        r == cursor_spec(line, col, screen_lines, shape, focused, under),
{
    if line < 0 || (line as usize) >= screen_lines || shape == TermCursorShape::Hidden {
        return None;
    }
    let s = if !focused {
        CursorShape::Hollow
    } else {
        match shape {
            TermCursorShape::Underline => CursorShape::Underline,
            TermCursorShape::Beam => CursorShape::Bar,
            TermCursorShape::HollowBlock => CursorShape::Hollow,
            _ => CursorShape::Block,
        }
    };
    let ch = if s == CursorShape::Block && under != '\0' && under != ' ' {
        Some(under)
    } else {
        None
    };
    Some(CursorInfo { line, col, shape: s, focused, ch })
}

// ---------------------------------------------------------------------------
// The selection
// ---------------------------------------------------------------------------

/// The selected columns of one screen line, first to last.
#[derive(Clone, Copy, Debug, PartialEq, Eq, Structural)]
pub struct SelectionLineRange {
    pub line: i32,
    pub start_col: usize,
    pub end_col: usize,
}

/// The selected part of screen line `idx`, whose terminal line is
/// `idx - display_offset`: none outside the selection's lines; from the
/// selection's first column on its first line, else from column 0; to its
/// last column on its last line, else to the last of `cols` columns.
pub open spec fn line_selection(
    idx: int,
    display_offset: int,
    start_line: i32,
    start_col: usize,
    end_line: i32,
    end_col: usize,
    cols: usize,
) -> Option<SelectionLineRange> {
    let g = idx - display_offset;
    if g < start_line || g > end_line {
        None
    } else {
        Some(
            SelectionLineRange {
                line: idx as i32,
                start_col: if g == start_line {
                    start_col
                } else {
                    0
                },
                end_col: if g == end_line {
                    end_col
                } else {
                    (cols - 1) as usize
                },
            },
        )
    }
}

/// The selected parts of screen lines `0` to `n`, in order.
pub open spec fn selection_spec(
    n: int,
    display_offset: int,
    start_line: i32,
    start_col: usize,
    end_line: i32,
    end_col: usize,
    cols: usize,
) -> Seq<SelectionLineRange>
    decreases n,
{
    if n <= 0 {
        Seq::empty()
    } else {
        let rest = selection_spec(n - 1, display_offset, start_line, start_col, end_line, end_col, cols);
        match line_selection(n - 1, display_offset, start_line, start_col, end_line, end_col, cols) {
            Some(r) => rest.push(r),
            None => rest,
        }
    }
}

/// The selected part of each visible line.
pub fn selection_line_ranges(
    screen_lines: usize,
    display_offset: usize,
    start_line: i32,
    start_col: usize,
    end_line: i32,
    end_col: usize,
    cols: usize,
) -> (r: Vec<SelectionLineRange>)
    requires
        screen_lines <= i32::MAX,
        display_offset <= i32::MAX,
        cols >= 1,
    ensures
        r@ == selection_spec(
            screen_lines as int,
            display_offset as int,
            start_line,
            start_col,
            end_line,
            end_col,
            cols,
        ),
{
    let mut r: Vec<SelectionLineRange> = Vec::new();
    let mut idx: usize = 0;
    while idx < screen_lines
        invariant
            idx <= screen_lines <= i32::MAX,
            display_offset <= i32::MAX,
            cols >= 1,
            r@ == selection_spec(idx as int, display_offset as int, start_line, start_col, end_line, end_col, cols),
        decreases screen_lines - idx,
    {
        let g: i32 = (idx as i32) - (display_offset as i32);
        if !(g < start_line || g > end_line) {
            let s = if g == start_line {
                start_col
            } else {
                0
            };
            let e = if g == end_line {
                end_col
            } else {
                cols - 1
            };
            r.push(SelectionLineRange { line: idx as i32, start_col: s, end_col: e });
        }
        idx = idx + 1;
    }
    r
}

// ---------------------------------------------------------------------------
// Runs of text
// ---------------------------------------------------------------------------

/// A cell of the screen: its character, whether it only holds the second
/// half of a wide character, and its style, with its colours given by keys
/// that are equal exactly when the drawn colours are.
#[derive(Clone, Copy, Debug)]
pub struct Cell {
    pub c: char,
    pub wide_spacer: bool,
    pub fg: u64,
    pub bg: Option<u64>,
    pub bold: bool,
}

/// Characters of one line that share a style, drawn together from column
/// `col` over `cell_count` cells.
#[derive(Clone, Debug)]
pub struct TextRun {
    pub line: i32,
    pub col: usize,
    pub text: String,
    pub cell_count: usize,
    pub fg: u64,
    pub bg: Option<u64>,
    pub bold: bool,
}

pub struct RunView {
    pub line: i32,
    pub col: int,
    pub text: Seq<char>,
    pub cells: int,
    pub fg: u64,
    pub bg: Option<u64>,
    pub bold: bool,
}

pub open spec fn run_view(r: TextRun) -> RunView {
    RunView { line: r.line, col: r.col as int, text: r.text@, cells: r.cell_count as int, fg: r.fg, bg: r.bg, bold: r.bold }
}

pub open spec fn run_views(v: Seq<TextRun>) -> Seq<RunView> {
    v.map_values(|r: TextRun| run_view(r))
}

/// The character a cell shows: a space for an empty cell.
pub open spec fn shown(c: char) -> char {
    if c == '\0' {
        ' '
    } else {
        c
    }
}

/// The runs of a line from column `i` on, after the finished runs `done`
/// and the open run `cur`: the second halves of wide characters are
/// skipped; the cell under a block cursor ends the open run and is not
/// drawn; a cell joins the open run when its style matches, else it starts
/// a new one.
pub open spec fn runs_from(
    cells: Seq<Cell>,
    line: i32,
    cursor_col: Option<usize>,
    i: int,
    done: Seq<RunView>,
    cur: Option<RunView>,
) -> Seq<RunView>
    decreases cells.len() - i,
{
    if i < 0 || i >= cells.len() {
        match cur {
            Some(r) => done.push(r),
            None => done,
        }
    } else {
        let cell = cells[i];
        if cell.wide_spacer {
            runs_from(cells, line, cursor_col, i + 1, done, cur)
        } else if cursor_col == Some(i as usize) {
            runs_from(
                cells,
                line,
                cursor_col,
                i + 1,
                match cur {
                    Some(r) => done.push(r),
                    None => done,
                },
                None,
            )
        } else {
            let fresh = RunView {
                line,
                col: i,
                text: seq![shown(cell.c)],
                cells: 1,
                fg: cell.fg,
                bg: cell.bg,
                bold: cell.bold,
            };
            match cur {
                Some(r) => if r.fg == cell.fg && r.bg == cell.bg && r.bold == cell.bold {
                    runs_from(
                        cells,
                        line,
                        cursor_col,
                        i + 1,
                        done,
                        Some(RunView { text: r.text.push(shown(cell.c)), cells: r.cells + 1, ..r }),
                    )
                } else {
                    runs_from(cells, line, cursor_col, i + 1, done.push(r), Some(fresh))
                },
                None => runs_from(cells, line, cursor_col, i + 1, done, Some(fresh)),
            }
        }
    }
}

/// The runs of a line.
pub open spec fn line_runs(cells: Seq<Cell>, line: i32, cursor_col: Option<usize>) -> Seq<RunView> {
    runs_from(cells, line, cursor_col, 0, Seq::empty(), None)
}

fn flush(out: &mut Vec<TextRun>, cur: Option<TextRun>)
    ensures
        run_views(final(out)@) == match cur {
            Some(r) => run_views(old(out)@).push(run_view(r)),
            None => run_views(old(out)@),
        },
{
    match cur {
        Some(r) => {
            let ghost rv = run_view(r);
            out.push(r);
            assert(run_views(out@) =~= run_views(old(out)@).push(rv));
        },
        None => {},
    }
}

/// The runs of screen line `line`, whose cells are `cells`; `cursor_col`
/// is the column of a block cursor on this line.
pub fn batch_line(cells: &[Cell], line: i32, cursor_col: Option<usize>) -> (r: Vec<TextRun>)
    ensures
        run_views(r@) == line_runs(cells@, line, cursor_col),
{
    let mut out: Vec<TextRun> = Vec::new();
    let mut cur: Option<TextRun> = None;
    let mut i: usize = 0;
    assert(run_views(out@) =~= Seq::<RunView>::empty());
    while i < cells.len()
        invariant
            i <= cells.len(),
            runs_from(
                cells@,
                line,
                cursor_col,
                i as int,
                run_views(out@),
                match cur {
                    Some(r) => Some(run_view(r)),
                    None => None,
                },
            ) == line_runs(cells@, line, cursor_col),
            cur matches Some(r) ==> r.cell_count <= i,
        decreases cells.len() - i,
    {
        let cell = cells[i];
        if cell.wide_spacer {
            i = i + 1;
            continue;
        }
        if cursor_col == Some(i) {
            let taken = cur;
            cur = None;
            flush(&mut out, taken);
            i = i + 1;
            continue;
        }
        let ch = if cell.c == '\0' {
            ' '
        } else {
            cell.c
        };
        let taken = cur;
        cur = None;
        match taken {
            Some(mut r) => {
                if r.fg == cell.fg && r.bg == cell.bg && r.bold == cell.bold {
                    let ghost rv = run_view(r);
                    crate::text::push_char(&mut r.text, ch);
                    r.cell_count = r.cell_count + 1;
                    assert(run_view(r) == RunView { text: rv.text.push(shown(cell.c)), cells: rv.cells + 1, ..rv });
                    cur = Some(r);
                } else {
                    flush(&mut out, Some(r));
                    let mut text = String::new();
                    crate::text::push_char(&mut text, ch);
                    assert(text@ =~= seq![ch]);
                    cur = Some(TextRun { line, col: i, text, cell_count: 1, fg: cell.fg, bg: cell.bg, bold: cell.bold });
                }
            },
            None => {
                let mut text = String::new();
                crate::text::push_char(&mut text, ch);
                assert(text@ =~= seq![ch]);
                cur = Some(TextRun { line, col: i, text, cell_count: 1, fg: cell.fg, bg: cell.bg, bold: cell.bold });
            },
        }
        i = i + 1;
    }
    flush(&mut out, cur);
    out
}

/// The text of runs, one after another.
pub open spec fn all_text(rs: Seq<RunView>) -> Seq<char>
    decreases rs.len(),
{
    if rs.len() == 0 {
        Seq::empty()
    } else {
        all_text(rs.drop_last()) + rs.last().text
    }
}

/// The characters a line shows from column `i` on: every cell but the
/// second halves of wide characters and the cell under a block cursor.
pub open spec fn visible_from(cells: Seq<Cell>, cursor_col: Option<usize>, i: int) -> Seq<char>
    decreases cells.len() - i,
{
    if i < 0 || i >= cells.len() {
        Seq::empty()
    } else if cells[i].wide_spacer || cursor_col == Some(i as usize) {
        visible_from(cells, cursor_col, i + 1)
    } else {
        seq![shown(cells[i].c)] + visible_from(cells, cursor_col, i + 1)
    }
}

pub open spec fn open_text(cur: Option<RunView>) -> Seq<char> {
    match cur {
        Some(r) => r.text,
        None => Seq::empty(),
    }
}

proof fn lemma_all_text_push(rs: Seq<RunView>, r: RunView)
    ensures
        all_text(rs.push(r)) == all_text(rs) + r.text,
{
    assert(rs.push(r).drop_last() =~= rs);
}

proof fn lemma_runs_text(cells: Seq<Cell>, line: i32, cursor_col: Option<usize>, i: int, done: Seq<RunView>, cur: Option<RunView>)
    requires
        0 <= i,
    ensures
        all_text(runs_from(cells, line, cursor_col, i, done, cur)) == all_text(done) + open_text(cur) + visible_from(
            cells,
            cursor_col,
            i,
        ),
    decreases cells.len() - i,
{
    if i >= cells.len() {
        match cur {
            Some(r) => {
                lemma_all_text_push(done, r);
            },
            None => {},
        }
        assert(all_text(done) + open_text(cur) + Seq::<char>::empty() =~= all_text(done) + open_text(cur));
    } else {
        let cell = cells[i];
        if cell.wide_spacer {
            lemma_runs_text(cells, line, cursor_col, i + 1, done, cur);
        } else if cursor_col == Some(i as usize) {
            let done2 = match cur {
                Some(r) => done.push(r),
                None => done,
            };
            lemma_runs_text(cells, line, cursor_col, i + 1, done2, None);
            match cur {
                Some(r) => {
                    lemma_all_text_push(done, r);
                },
                None => {},
            }
            assert(all_text(done2) + open_text(None) + visible_from(cells, cursor_col, i + 1) =~= all_text(done)
                + open_text(cur) + visible_from(cells, cursor_col, i));
        } else {
            let fresh = RunView {
                line,
                col: i,
                text: seq![shown(cell.c)],
                cells: 1,
                fg: cell.fg,
                bg: cell.bg,
                bold: cell.bold,
            };
            let rest = visible_from(cells, cursor_col, i + 1);
            match cur {
                Some(r) => {
                    if r.fg == cell.fg && r.bg == cell.bg && r.bold == cell.bold {
                        let r2 = RunView { text: r.text.push(shown(cell.c)), cells: r.cells + 1, ..r };
                        lemma_runs_text(cells, line, cursor_col, i + 1, done, Some(r2));
                        assert(all_text(done) + r2.text + rest =~= all_text(done) + r.text + (seq![shown(cell.c)]
                            + rest));
                    } else {
                        lemma_runs_text(cells, line, cursor_col, i + 1, done.push(r), Some(fresh));
                        lemma_all_text_push(done, r);
                        assert(all_text(done.push(r)) + fresh.text + rest =~= all_text(done) + r.text + (seq![
                            shown(cell.c),
                        ] + rest));
                    }
                },
                None => {
                    lemma_runs_text(cells, line, cursor_col, i + 1, done, Some(fresh));
                    assert(all_text(done) + fresh.text + rest =~= all_text(done) + Seq::<char>::empty() + (seq![
                        shown(cell.c),
                    ] + rest));
                },
            }
        }
    }
}

/// The runs of a line show, one after another, exactly the characters of
/// its cells, blanks for empty cells, without the second halves of wide
/// characters and without the cell under a block cursor.
pub proof fn law_runs_show_visible_characters(cells: Seq<Cell>, line: i32, cursor_col: Option<usize>)
    ensures
        all_text(line_runs(cells, line, cursor_col)) == visible_from(cells, cursor_col, 0),
{
    lemma_runs_text(cells, line, cursor_col, 0, Seq::empty(), None);
    assert(all_text(Seq::<RunView>::empty()) + open_text(None) + visible_from(cells, cursor_col, 0) =~= visible_from(
        cells,
        cursor_col,
        0,
    ));
}

/// The column of the block cursor on screen line `idx`, if it is there.
pub open spec fn block_cursor_col(cursor: Option<CursorInfo>, idx: int) -> Option<usize> {
    match cursor {
        Some(cu) => if cu.line == idx && cu.shape == CursorShape::Block {
            Some(cu.col)
        } else {
            None
        },
        None => None,
    }
}

/// The runs of the first `n` screen lines, line after line.
pub open spec fn screen_runs_spec(rows: Seq<Vec<Cell>>, cursor: Option<CursorInfo>, n: int) -> Seq<RunView>
    decreases n,
{
    if n <= 0 {
        Seq::empty()
    } else {
        screen_runs_spec(rows, cursor, n - 1) + line_runs(rows[n - 1]@, (n - 1) as i32, block_cursor_col(cursor, n - 1))
    }
}

/// The runs of the whole screen, line after line; the block cursor's cell
/// is left to the cursor.
pub fn screen_runs(rows: &[Vec<Cell>], cursor: Option<CursorInfo>) -> (r: Vec<TextRun>)
    requires
        rows.len() <= i32::MAX,
    ensures
        run_views(r@) == screen_runs_spec(rows@, cursor, rows.len() as int),
{
    let mut out: Vec<TextRun> = Vec::new();
    let mut idx: usize = 0;
    assert(run_views(out@) =~= Seq::<RunView>::empty());
    while idx < rows.len()
        invariant
            idx <= rows.len() <= i32::MAX,
            run_views(out@) == screen_runs_spec(rows@, cursor, idx as int),
        decreases rows.len() - idx,
    {
        let line = idx as i32;
        let cc = match cursor {
            Some(cu) => if cu.line == line && cu.shape == CursorShape::Block {
                Some(cu.col)
            } else {
                None
            },
            None => None,
        };
        let mut runs = batch_line(rows[idx].as_slice(), line, cc);
        let ghost before = run_views(out@);
        let ghost rv = run_views(runs@);
        out.append(&mut runs);
        assert(run_views(out@) =~= before + rv);
        idx = idx + 1;
    }
    out
}

} // verus!
