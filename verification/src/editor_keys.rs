//! What a key press does in the text editor: the cursor moves it makes over
//! the lines of the buffer, and the edits and commands it asks for.
use vstd::prelude::*;
use crate::editor_motion::{pos_le, Selection};
use crate::terminal_input::KeyStroke;
use crate::text::{chars_are, chars_of};

verus! {

/// Where a mouse selection stands.
#[derive(Clone, Copy, Debug, PartialEq, Eq, Structural)]
pub enum SelectionPhase {
    Idle,
    Selecting,
    Ended,
}

/// The cursor of the editor and its selection.
#[derive(Clone, Copy, Debug)]
pub struct EditorCursor {
    pub line: usize,
    pub col: usize,
    pub selection: Option<Selection>,
    pub phase: SelectionPhase,
}

/// What the editor does besides moving the cursor.
#[derive(Clone, Debug)]
pub enum EditorCommand {
    /// Nothing to do.
    Nothing,
    /// The cursor moved: redraw.
    Redraw,
    /// Save the buffer.
    Save,
    /// Undo the last edit and restore the cursor it recorded.
    Undo,
    /// Redo the last undone edit.
    Redo,
    /// Move the cursor to the start of the previous word.
    WordLeft,
    /// Move the cursor past the next word.
    WordRight,
    /// Delete the selection, or else the character before the cursor.
    DeleteBackward,
    /// Delete the selection, or else the character after the cursor.
    DeleteForward,
    /// Insert text at the cursor, replacing the selection.
    Insert(String),
}

pub enum CommandView {
    Nothing,
    Redraw,
    Save,
    Undo,
    Redo,
    WordLeft,
    WordRight,
    DeleteBackward,
    DeleteForward,
    Insert(Seq<char>),
}

impl View for EditorCommand {
    type V = CommandView;

    open spec fn view(&self) -> CommandView {
        match self {
            EditorCommand::Nothing => CommandView::Nothing,
            EditorCommand::Redraw => CommandView::Redraw,
            EditorCommand::Save => CommandView::Save,
            EditorCommand::Undo => CommandView::Undo,
            EditorCommand::Redo => CommandView::Redo,
            EditorCommand::WordLeft => CommandView::WordLeft,
            EditorCommand::WordRight => CommandView::WordRight,
            EditorCommand::DeleteBackward => CommandView::DeleteBackward,
            EditorCommand::DeleteForward => CommandView::DeleteForward,
            EditorCommand::Insert(t) => CommandView::Insert(t@),
        }
    }
}

/// The number of lines a page key moves.
pub const PAGE_LINES: usize = 20;

/// The cursor with no selection.
pub open spec fn cleared(c: EditorCursor) -> EditorCursor {
    EditorCursor { selection: None, phase: SelectionPhase::Idle, ..c }
}

/// The cursor put back inside the buffer whose lines have lengths
/// `lens`: on the last line at most, and within its line.
pub open spec fn clamp_spec(c: EditorCursor, lens: Seq<usize>) -> EditorCursor {
    if lens.len() == 0 {
        EditorCursor { line: 0, col: 0, ..c }
    } else {
        let line = if c.line >= lens.len() {
            (lens.len() - 1) as usize
        } else {
            c.line
        };
        EditorCursor { line, col: if c.col > lens[line as int] { lens[line as int] } else { c.col }, ..c }
    }
}

/// The start and the end of a selection, in document order.
pub open spec fn sel_start(s: Selection) -> (usize, usize) {
    if pos_le((s.anchor_line, s.anchor_col), (s.end_line, s.end_col)) {
        (s.anchor_line, s.anchor_col)
    } else {
        (s.end_line, s.end_col)
    }
}

pub open spec fn sel_end(s: Selection) -> (usize, usize) {
    if pos_le((s.anchor_line, s.anchor_col), (s.end_line, s.end_col)) {
        (s.end_line, s.end_col)
    } else {
        (s.anchor_line, s.anchor_col)
    }
}

pub open spec fn sel_nonempty(s: Option<Selection>) -> bool {
    s matches Some(x) && !(x.anchor_line == x.end_line && x.anchor_col == x.end_col)
}

/// The span a selection covers, earlier point first; `None` when there is
/// no selection or it covers nothing.
pub open spec fn selected_range_spec(s: Option<Selection>) -> Option<((usize, usize), (usize, usize))> {
    if sel_nonempty(s) {
        Some((sel_start(s->0), sel_end(s->0)))
    } else {
        None
    }
}

/// The span of text a copy takes: that of a selection that covers
/// something, earlier point first.
pub fn selected_range(selection: &Option<Selection>) -> (r: Option<((usize, usize), (usize, usize))>)
    ensures
        r == selected_range_spec(*selection),
{
    match selection {
        Some(s) => {
            if s.is_empty() {
                None
            } else {
                Some(s.normalized())
            }
        },
        None => None,
    }
}

/// Takes the selection away before its text is deleted: the span to delete
/// when it covered something, with the cursor moved to the span's start and
/// selecting ended; otherwise `None`, the cursor where it was.
pub fn take_selection(cursor: &mut EditorCursor) -> (r: Option<((usize, usize), (usize, usize))>)
    ensures
        r == selected_range_spec(old(cursor).selection),
        final(cursor).selection is None,
        r matches Some(span) ==> final(cursor).line == span.0.0 && final(cursor).col == span.0.1
            && final(cursor).phase == SelectionPhase::Idle,
        r is None ==> final(cursor).line == old(cursor).line && final(cursor).col == old(cursor).col
            && final(cursor).phase == old(cursor).phase,
{
    let r = selected_range(&cursor.selection);
    cursor.selection = None;
    if let Some(span) = r {
        cursor.line = span.0.0;
        cursor.col = span.0.1;
        cursor.phase = SelectionPhase::Idle;
    }
    r
}

/// A cursor on a line of the buffer.
pub open spec fn cursor_valid(c: EditorCursor, lens: Seq<usize>) -> bool {
    c.line < lens.len()
}

/// The cursor and command after the navigation key `key` (`"up"`,
/// `"down"`, `"left"`, `"right"`, `"home"`, `"end"`, `"pageup"`,
/// `"pagedown"`); `None` for any other key.
pub open spec fn navigate(c: EditorCursor, key: Seq<char>, lens: Seq<usize>) -> Option<(EditorCursor, CommandView)> {
    let n = lens.len();
    if key == "up"@ {
        let d = cleared(c);
        Some(if c.line > 0 {
            (clamp_spec(EditorCursor { line: (c.line - 1) as usize, ..d }, lens), CommandView::Redraw)
        } else {
            (d, CommandView::Nothing)
        })
    } else if key == "down"@ {
        let d = cleared(c);
        Some(if c.line + 1 < n {
            (clamp_spec(EditorCursor { line: (c.line + 1) as usize, ..d }, lens), CommandView::Redraw)
        } else {
            (d, CommandView::Nothing)
        })
    } else if key == "left"@ {
        Some(if sel_nonempty(c.selection) {
            let st = sel_start(c.selection->0);
            (EditorCursor { line: st.0, col: st.1, selection: None, phase: SelectionPhase::Idle }, CommandView::Redraw)
        } else {
            let d = cleared(c);
            if c.col > 0 {
                (EditorCursor { col: (c.col - 1) as usize, ..d }, CommandView::Redraw)
            } else if c.line > 0 {
                (EditorCursor { line: (c.line - 1) as usize, col: lens[c.line - 1], ..d }, CommandView::Redraw)
            } else {
                (d, CommandView::Nothing)
            }
        })
    } else if key == "right"@ {
        Some(if sel_nonempty(c.selection) {
            let en = sel_end(c.selection->0);
            (EditorCursor { line: en.0, col: en.1, selection: None, phase: SelectionPhase::Idle }, CommandView::Redraw)
        } else {
            let d = cleared(c);
            if c.col < lens[c.line as int] {
                (EditorCursor { col: (c.col + 1) as usize, ..d }, CommandView::Redraw)
            } else if c.line + 1 < n {
                (EditorCursor { line: (c.line + 1) as usize, col: 0, ..d }, CommandView::Redraw)
            } else {
                (d, CommandView::Nothing)
            }
        })
    } else if key == "home"@ {
        Some((EditorCursor { col: 0, ..cleared(c) }, CommandView::Redraw))
    } else if key == "end"@ {
        Some((EditorCursor { col: lens[c.line as int], ..cleared(c) }, CommandView::Redraw))
    } else if key == "pageup"@ {
        let line = if c.line >= PAGE_LINES {
            (c.line - PAGE_LINES) as usize
        } else {
            0usize
        };
        Some((clamp_spec(EditorCursor { line, ..cleared(c) }, lens), CommandView::Redraw))
    } else if key == "pagedown"@ {
        let last = if n > 0 {
            n - 1
        } else {
            0
        };
        let line = if c.line + PAGE_LINES < last {
            (c.line + PAGE_LINES) as usize
        } else {
            last as usize
        };
        Some((clamp_spec(EditorCursor { line, ..cleared(c) }, lens), CommandView::Redraw))
    } else {
        None
    }
}

/// The cursor and command after a key press in an editor over lines of
/// lengths `lens`: nothing in a read-only editor; command-S saves,
/// command-Z undoes, command-shift-Z redoes; alt with left or right moves
/// by words; the navigation keys move the cursor; backspace and delete
/// delete; enter inserts a line break and tab four spaces; any other key
/// that types text inserts it unless control or command is held.
pub open spec fn key_outcome(
    c: EditorCursor,
    key: Seq<char>,
    key_char: Option<Seq<char>>,
    control: bool,
    alt: bool,
    shift: bool,
    platform: bool,
    lens: Seq<usize>,
    read_only: bool,
) -> (EditorCursor, CommandView) {
    if read_only {
        (c, CommandView::Nothing)
    } else if platform && key == "s"@ {
        (c, CommandView::Save)
    } else if platform && !shift && key == "z"@ {
        (c, CommandView::Undo)
    } else if platform && shift && key == "z"@ {
        (c, CommandView::Redo)
    } else if alt && key == "left"@ {
        (cleared(c), CommandView::WordLeft)
    } else if alt && key == "right"@ {
        (cleared(c), CommandView::WordRight)
    } else if navigate(c, key, lens) is Some {
        navigate(c, key, lens)->0
    } else if key == "backspace"@ {
        (c, CommandView::DeleteBackward)
    } else if key == "delete"@ {
        (c, CommandView::DeleteForward)
    } else if key == "enter"@ {
        (c, CommandView::Insert(seq!['\n']))
    } else if key == "tab"@ {
        (c, CommandView::Insert(seq![' ', ' ', ' ', ' ']))
    } else {
        match key_char {
            Some(t) => if t.len() > 0 && !control && !platform {
                (c, CommandView::Insert(t))
            } else {
                (c, CommandView::Nothing)
            },
            None => (c, CommandView::Nothing),
        }
    }
}

/// Puts the cursor back inside the buffer whose lines have lengths
/// `line_lens`.
pub fn clamp_cursor(cursor: &mut EditorCursor, line_lens: &[usize])
    ensures
        *final(cursor) == clamp_spec(*old(cursor), line_lens@),
{
    if line_lens.len() == 0 {
        cursor.line = 0;
        cursor.col = 0;
        return ;
    }
    if cursor.line >= line_lens.len() {
        cursor.line = line_lens.len() - 1;
    }
    let len = line_lens[cursor.line];
    if cursor.col > len {
        cursor.col = len;
    }
}

fn clear_selection(cursor: &mut EditorCursor)
    ensures
        *final(cursor) == cleared(*old(cursor)),
{
    cursor.selection = None;
    cursor.phase = SelectionPhase::Idle;
}

/// Moves the cursor for a navigation key; `None`, with the cursor left
/// alone, for any other key.
fn navigate_key(cursor: &mut EditorCursor, key: &Vec<char>, line_lens: &[usize]) -> (r: Option<EditorCommand>)
    requires
        cursor_valid(*old(cursor), line_lens@),
    ensures
        match navigate(*old(cursor), key@, line_lens@) {
            Some((c, cmd)) => *final(cursor) == c && (r matches Some(x) && x@ == cmd),
            None => r is None && *final(cursor) == *old(cursor),
        },
{
    let n = line_lens.len();
    if chars_are(key, "up") {
        clear_selection(cursor);
        if cursor.line > 0 {
            cursor.line = cursor.line - 1;
            clamp_cursor(cursor, line_lens);
            Some(EditorCommand::Redraw)
        } else {
            Some(EditorCommand::Nothing)
        }
    } else if chars_are(key, "down") {
        clear_selection(cursor);
        if cursor.line + 1 < n {
            cursor.line = cursor.line + 1;
            clamp_cursor(cursor, line_lens);
            Some(EditorCommand::Redraw)
        } else {
            Some(EditorCommand::Nothing)
        }
    } else if chars_are(key, "left") {
        let sel = cursor.selection;
        cursor.selection = None;
        match sel {
            Some(s) => {
                if !s.is_empty() {
                    let (start, _) = s.normalized();
                    cursor.line = start.0;
                    cursor.col = start.1;
                    cursor.phase = SelectionPhase::Idle;
                    return Some(EditorCommand::Redraw);
                }
            },
            None => {},
        }
        cursor.phase = SelectionPhase::Idle;
        if cursor.col > 0 {
            cursor.col = cursor.col - 1;
            Some(EditorCommand::Redraw)
        } else if cursor.line > 0 {
            cursor.line = cursor.line - 1;
            cursor.col = line_lens[cursor.line];
            Some(EditorCommand::Redraw)
        } else {
            Some(EditorCommand::Nothing)
        }
    } else if chars_are(key, "right") {
        let sel = cursor.selection;
        cursor.selection = None;
        match sel {
            Some(s) => {
                if !s.is_empty() {
                    let (_, end) = s.normalized();
                    cursor.line = end.0;
                    cursor.col = end.1;
                    cursor.phase = SelectionPhase::Idle;
                    return Some(EditorCommand::Redraw);
                }
            },
            None => {},
        }
        cursor.phase = SelectionPhase::Idle;
        let len = line_lens[cursor.line];
        if cursor.col < len {
            cursor.col = cursor.col + 1;
            Some(EditorCommand::Redraw)
        } else if cursor.line + 1 < n {
            cursor.line = cursor.line + 1;
            cursor.col = 0;
            Some(EditorCommand::Redraw)
        } else {
            Some(EditorCommand::Nothing)
        }
    } else if chars_are(key, "home") {
        clear_selection(cursor);
        cursor.col = 0;
        Some(EditorCommand::Redraw)
    } else if chars_are(key, "end") {
        clear_selection(cursor);
        cursor.col = line_lens[cursor.line];
        Some(EditorCommand::Redraw)
    } else if chars_are(key, "pageup") {
        clear_selection(cursor);
        cursor.line = if cursor.line >= PAGE_LINES {
            cursor.line - PAGE_LINES
        } else {
            0
        };
        clamp_cursor(cursor, line_lens);
        Some(EditorCommand::Redraw)
    } else if chars_are(key, "pagedown") {
        clear_selection(cursor);
        let last = if n > 0 {
            n - 1
        } else {
            0
        };
        cursor.line = if cursor.line < last && last - cursor.line > PAGE_LINES {
            cursor.line + PAGE_LINES
        } else {
            last
        };
        clamp_cursor(cursor, line_lens);
        Some(EditorCommand::Redraw)
    } else {
        None
    }
}

/// Handles a key press in an editor over lines of lengths `line_lens`:
/// moves the cursor as `key_outcome` says and gives the command it names
/// for the editor to carry out on the buffer.
pub fn handle_editor_key(cursor: &mut EditorCursor, key: &KeyStroke, line_lens: &[usize], read_only: bool) -> (r:
    EditorCommand)
    requires
        cursor_valid(*old(cursor), line_lens@),
    ensures
        ({
            let (c, cmd) = key_outcome(
                *old(cursor),
                key.key@,
                match &key.key_char {
                    Some(t) => Some(t@),
                    None => None,
                },
                key.control,
                key.alt,
                key.shift,
                key.platform,
                line_lens@,
                read_only,
            );
            *final(cursor) == c && r@ == cmd
        }),
{
    if read_only {
        return EditorCommand::Nothing;
    }
    let k = chars_of(key.key.as_str());
    if key.platform && chars_are(&k, "s") {
        return EditorCommand::Save;
    }
    if key.platform && !key.shift && chars_are(&k, "z") {
        return EditorCommand::Undo;
    }
    if key.platform && key.shift && chars_are(&k, "z") {
        return EditorCommand::Redo;
    }
    if key.alt && chars_are(&k, "left") {
        clear_selection(cursor);
        return EditorCommand::WordLeft;
    }
    if key.alt && chars_are(&k, "right") {
        clear_selection(cursor);
        return EditorCommand::WordRight;
    }
    match navigate_key(cursor, &k, line_lens) {
        Some(cmd) => {
            return cmd;
        },
        None => {},
    }
    if chars_are(&k, "backspace") {
        EditorCommand::DeleteBackward
    } else if chars_are(&k, "delete") {
        EditorCommand::DeleteForward
    } else if chars_are(&k, "enter") {
        let mut t = String::new();
        t.append("\n");
        proof {
            reveal_strlit("\n");
        }
        assert(t@ =~= seq!['\n']);
        EditorCommand::Insert(t)
    } else if chars_are(&k, "tab") {
        let mut t = String::new();
        t.append("    ");
        proof {
            reveal_strlit("    ");
        }
        assert(t@ =~= seq![' ', ' ', ' ', ' ']);
        EditorCommand::Insert(t)
    } else {
        match &key.key_char {
            Some(t) => {
                if t.as_str().unicode_len() > 0 && !key.control && !key.platform {
                    EditorCommand::Insert(t.clone())
                } else {
                    EditorCommand::Nothing
                }
            },
            None => EditorCommand::Nothing,
        }
    }
}

/// The cursor after typing `text` at `(line, col)`: one line down and back
/// to the start for each line break, one column on for any other
/// character.
pub open spec fn after_typing(line: int, col: int, text: Seq<char>) -> (int, int)
    decreases text.len(),
{
    if text.len() == 0 {
        (line, col)
    } else {
        let p = after_typing(line, col, text.drop_last());
        if text.last() == '\n' {
            (p.0 + 1, 0)
        } else {
            (p.0, p.1 + 1)
        }
    }
}

/// The cursor after inserting `text` at `(line, col)`.
pub fn cursor_after_insert(line: usize, col: usize, text: &str) -> (r: (usize, usize))
    requires
        line + text@.len() <= usize::MAX,
        col + text@.len() <= usize::MAX,
    ensures
        (r.0 as int, r.1 as int) == after_typing(line as int, col as int, text@),
{
    let t = chars_of(text);
    let mut l = line;
    let mut c = col;
    let mut i: usize = 0;
    while i < t.len()
        invariant
            i <= t.len(),
            t@ == text@,
            line + t.len() <= usize::MAX,
            col + t.len() <= usize::MAX,
            (l as int, c as int) == after_typing(line as int, col as int, t@.take(i as int)),
            l <= line + i,
            c <= col + i,
        decreases t.len() - i,
    {
        assert(t@.take(i + 1).drop_last() =~= t@.take(i as int));
        if t[i] == '\n' {
            l = l + 1;
            c = 0;
        } else {
            c = c + 1;
        }
        i = i + 1;
    }
    assert(t@.take(t.len() as int) =~= t@);
    (l, c)
}

/// Where the cursor goes when the character before it is deleted: one
/// column back, or to the end of the line above when it is at the start of
/// a line; `None` at the very start, where nothing is deleted.
pub fn backspace_target(line: usize, col: usize, line_lens: &[usize]) -> (r: Option<(usize, usize)>)
    requires
        line < line_lens@.len(),
    ensures
        r == if col > 0 {
            Some((line, (col - 1) as usize))
        } else if line > 0 {
            Some(((line - 1) as usize, line_lens@[line - 1]))
        } else {
            None::<(usize, usize)>
        },
{
    if col > 0 {
        Some((line, col - 1))
    } else if line > 0 {
        Some((line - 1, line_lens[line - 1]))
    } else {
        None
    }
}

/// Whether there is a character after the cursor to delete: one on its
/// line, or the line break before a next line.
pub fn can_delete_forward(line: usize, col: usize, line_lens: &[usize]) -> (b: bool)
    requires
        line < line_lens@.len(),
    ensures
        b == (col < line_lens@[line as int] || line + 1 < line_lens@.len()),
{
    col < line_lens[line] || line + 1 < line_lens.len()
}

/// A cursor on a line of the buffer and within that line.
pub open spec fn cursor_in_buffer(c: EditorCursor, lens: Seq<usize>) -> bool {
    c.line < lens.len() && c.col <= lens[c.line as int]
}

/// A navigation key leaves a cursor that is inside the buffer, with no
/// selection to jump to, inside the buffer.
pub proof fn law_navigation_stays_in_buffer(c: EditorCursor, key: Seq<char>, lens: Seq<usize>)
    requires
        cursor_in_buffer(c, lens),
        !sel_nonempty(c.selection),
    ensures
        navigate(c, key, lens) matches Some((d, _)) ==> cursor_in_buffer(d, lens),
{
}

/// The key names the editor reacts to, as characters.
proof fn lemma_key_names()
    ensures
        seq!['l', 'e', 'f', 't'] == "left"@,
        seq!['r', 'i', 'g', 'h', 't'] == "right"@,
        seq!['u', 'p'] == "up"@,
        seq!['d', 'o', 'w', 'n'] == "down"@,
        seq!['h', 'o', 'm', 'e'] == "home"@,
        seq!['e', 'n', 'd'] == "end"@,
        "s"@ == seq!['s'],
        "z"@ == seq!['z'],
{
    reveal_strlit("left");
    reveal_strlit("right");
    reveal_strlit("up");
    reveal_strlit("down");
    reveal_strlit("home");
    reveal_strlit("end");
    reveal_strlit("s");
    reveal_strlit("z");
    assert(seq!['l', 'e', 'f', 't'] =~= "left"@);
    assert(seq!['r', 'i', 'g', 'h', 't'] =~= "right"@);
    assert(seq!['u', 'p'] =~= "up"@);
    assert(seq!['d', 'o', 'w', 'n'] =~= "down"@);
    assert(seq!['h', 'o', 'm', 'e'] =~= "home"@);
    assert(seq!['e', 'n', 'd'] =~= "end"@);
    assert("s"@ =~= seq!['s']);
    assert("z"@ =~= seq!['z']);
}

/// With a selection that covers something, right (without alt) ends the
/// selection with the cursor on its later end and left on its earlier end,
/// in document order; so the two land on different points.
pub proof fn law_arrows_collapse_selection(
    c: EditorCursor,
    s: Selection,
    key_char: Option<Seq<char>>,
    control: bool,
    shift: bool,
    platform: bool,
    lens: Seq<usize>,
)
    requires
        c.selection == Some(s),
        !(s.anchor_line == s.end_line && s.anchor_col == s.end_col),
    ensures
        ({
            let a = (s.anchor_line, s.anchor_col);
            let e = (s.end_line, s.end_col);
            let (r, rc) = key_outcome(c, seq!['r', 'i', 'g', 'h', 't'], key_char, control, false, shift, platform, lens, false);
            let (l, lc) = key_outcome(c, seq!['l', 'e', 'f', 't'], key_char, control, false, shift, platform, lens, false);
            &&& r.selection is None && l.selection is None
            &&& ((r.line, r.col) == a || (r.line, r.col) == e)
            &&& pos_le(a, (r.line, r.col)) && pos_le(e, (r.line, r.col))
            &&& ((l.line, l.col) == a || (l.line, l.col) == e)
            &&& pos_le((l.line, l.col), a) && pos_le((l.line, l.col), e)
            &&& (l.line, l.col) != (r.line, r.col)
        }),
{
    lemma_key_names();
}

/// The cursor keys on a cursor inside the buffer with nothing selected:
/// home goes to the start of the line and end to its end; up and down go
/// to the line above or below, keeping the column where that line is long
/// enough; left and right go one character back or forward, across line
/// ends. Every one of them leaves nothing selected.
pub proof fn law_cursor_keys(
    c: EditorCursor,
    key_char: Option<Seq<char>>,
    control: bool,
    shift: bool,
    platform: bool,
    lens: Seq<usize>,
)
    requires
        c.line < lens.len() <= usize::MAX,
        c.col <= lens[c.line as int],
        !sel_nonempty(c.selection),
    ensures
        ({
            let home = key_outcome(c, seq!['h', 'o', 'm', 'e'], key_char, control, false, shift, platform, lens, false).0;
            home.line == c.line && home.col == 0 && home.selection is None
        }),
        ({
            let end = key_outcome(c, seq!['e', 'n', 'd'], key_char, control, false, shift, platform, lens, false).0;
            end.line == c.line && end.col == lens[c.line as int] && end.selection is None
        }),
        ({
            let up = key_outcome(c, seq!['u', 'p'], key_char, control, false, shift, platform, lens, false).0;
            &&& up.selection is None
            &&& c.line > 0 ==> up.line == c.line - 1 && up.col == (if c.col <= lens[c.line - 1] {
                c.col
            } else {
                lens[c.line - 1]
            })
            &&& c.line == 0 ==> up.line == 0 && up.col == c.col
        }),
        ({
            let down = key_outcome(c, seq!['d', 'o', 'w', 'n'], key_char, control, false, shift, platform, lens, false).0;
            &&& down.selection is None
            &&& c.line + 1 < lens.len() ==> down.line == c.line + 1 && down.col == (if c.col <= lens[c.line + 1] {
                c.col
            } else {
                lens[c.line + 1]
            })
            &&& c.line + 1 == lens.len() ==> down.line == c.line && down.col == c.col
        }),
        ({
            let left = key_outcome(c, seq!['l', 'e', 'f', 't'], key_char, control, false, shift, platform, lens, false).0;
            &&& left.selection is None
            &&& c.col > 0 ==> left.line == c.line && left.col == c.col - 1
            &&& c.col == 0 && c.line > 0 ==> left.line == c.line - 1 && left.col == lens[c.line - 1]
        }),
        ({
            let right = key_outcome(c, seq!['r', 'i', 'g', 'h', 't'], key_char, control, false, shift, platform, lens, false).0;
            &&& right.selection is None
            &&& c.col < lens[c.line as int] ==> right.line == c.line && right.col == c.col + 1
            &&& c.col == lens[c.line as int] && c.line + 1 < lens.len() ==> right.line == c.line + 1 && right.col == 0
        }),
{
    lemma_key_names();
}

/// A read-only editor ignores every key.
pub proof fn law_read_only_ignores_keys(
    c: EditorCursor,
    key: Seq<char>,
    key_char: Option<Seq<char>>,
    control: bool,
    alt: bool,
    shift: bool,
    platform: bool,
    lens: Seq<usize>,
)
    ensures
        key_outcome(c, key, key_char, control, alt, shift, platform, lens, true) == (c, CommandView::Nothing),
{
}

/// The editing keys leave the cursor where it is and ask for their edit:
/// backspace deletes backward, delete forward, enter inserts a line break,
/// tab four blanks, and a one-character key that types text inserts that
/// text unless control or command is held; command-S saves, command-Z
/// undoes and command-shift-Z redoes.
pub proof fn law_editing_keys(
    c: EditorCursor,
    k: char,
    key_char: Option<Seq<char>>,
    control: bool,
    shift: bool,
    platform: bool,
    lens: Seq<usize>,
)
    ensures
        key_outcome(c, seq!['b', 'a', 'c', 'k', 's', 'p', 'a', 'c', 'e'], key_char, control, false, shift, false, lens, false)
            == (c, CommandView::DeleteBackward),
        key_outcome(c, seq!['d', 'e', 'l', 'e', 't', 'e'], key_char, control, false, shift, false, lens, false) == (
            c,
            CommandView::DeleteForward,
        ),
        key_outcome(c, seq!['e', 'n', 't', 'e', 'r'], key_char, control, false, shift, false, lens, false) == (
            c,
            CommandView::Insert(seq!['\n']),
        ),
        key_outcome(c, seq!['t', 'a', 'b'], key_char, control, false, shift, false, lens, false) == (
            c,
            CommandView::Insert(seq![' ', ' ', ' ', ' ']),
        ),
        (key_char matches Some(t) && t.len() > 0) && !control ==> key_outcome(c, seq![k], key_char, control, false, shift, false, lens, false)
            == (c, CommandView::Insert(key_char->0)),
        key_outcome(c, seq!['s'], key_char, control, false, shift, true, lens, false) == (c, CommandView::Save),
        key_outcome(c, seq!['z'], key_char, control, false, false, true, lens, false) == (c, CommandView::Undo),
        key_outcome(c, seq!['z'], key_char, control, false, true, true, lens, false) == (c, CommandView::Redo),
{
    lemma_key_names();
    reveal_strlit("backspace");
    reveal_strlit("delete");
    reveal_strlit("enter");
    reveal_strlit("tab");
    reveal_strlit("pageup");
    reveal_strlit("pagedown");
    assert(seq!['b', 'a', 'c', 'k', 's', 'p', 'a', 'c', 'e'] =~= "backspace"@);
    assert(seq!['d', 'e', 'l', 'e', 't', 'e'] =~= "delete"@);
    assert(seq!['e', 'n', 't', 'e', 'r'] =~= "enter"@);
    assert(seq!['t', 'a', 'b'] =~= "tab"@);
    assert("pageup"@.len() == 6);
    assert("pagedown"@.len() == 8);
    assert("backspace"@.len() == 9);
    assert(seq!['z'][0] != seq!['s'][0]);
    assert(seq!['z'] != "s"@);
    assert(seq![k].len() == 1);
    assert(navigate(c, seq![k], lens) is None);
    assert(seq![k] != "backspace"@ && seq![k] != "delete"@ && seq![k] != "enter"@ && seq![k] != "tab"@);
}

/// Page up moves twenty lines up, or to the first line; page down twenty
/// lines down, or to the last line; both keep the column where the line
/// reached is long enough and leave nothing selected.
pub proof fn law_page_keys(
    c: EditorCursor,
    key_char: Option<Seq<char>>,
    control: bool,
    shift: bool,
    platform: bool,
    lens: Seq<usize>,
)
    requires
        c.line < lens.len() <= usize::MAX,
    ensures
        ({
            let up = key_outcome(c, seq!['p', 'a', 'g', 'e', 'u', 'p'], key_char, control, false, shift, platform, lens, false).0;
            let line = if c.line >= 20 {
                c.line - 20
            } else {
                0
            };
            &&& up.line == line && up.selection is None
            &&& up.col == (if c.col <= lens[line] {
                c.col
            } else {
                lens[line]
            })
        }),
        ({
            let down = key_outcome(c, seq!['p', 'a', 'g', 'e', 'd', 'o', 'w', 'n'], key_char, control, false, shift, platform, lens, false).0;
            let line = if c.line + 20 < lens.len() - 1 {
                c.line + 20
            } else {
                lens.len() - 1
            };
            &&& down.line == line && down.selection is None
            &&& down.col == (if c.col <= lens[line] {
                c.col
            } else {
                lens[line]
            })
        }),
{
    lemma_key_names();
    reveal_strlit("pageup");
    reveal_strlit("pagedown");
    assert(seq!['p', 'a', 'g', 'e', 'u', 'p'] =~= "pageup"@);
    assert(seq!['p', 'a', 'g', 'e', 'd', 'o', 'w', 'n'] =~= "pagedown"@);
}

} // verus!
