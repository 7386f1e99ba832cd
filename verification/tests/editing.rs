use august::editor_keys::{
    backspace_target, can_delete_forward, clamp_cursor, cursor_after_insert, handle_editor_key, selected_range,
    take_selection, EditorCommand,
    EditorCursor, SelectionPhase,
};
use august::editor_motion::{is_word_char, move_word_left, move_word_right, Selection};
use august::terminal_input::{key_to_input, KeyStroke};

fn key(name: &str) -> KeyStroke {
    KeyStroke { key: name.to_string(), key_char: None, control: false, alt: false, shift: false, platform: false }
}

fn cursor(line: usize, col: usize) -> EditorCursor {
    EditorCursor { line, col, selection: None, phase: SelectionPhase::Idle }
}

fn chars(s: &str) -> Vec<char> {
    s.chars().collect()
}

#[test]
fn word_characters() {
    assert!(is_word_char('a'));
    assert!(is_word_char('_'));
    assert!(is_word_char('9'));
    assert!(is_word_char('é'));
    assert!(!is_word_char(' '));
    assert!(!is_word_char('-'));
}

#[test]
fn word_left_moves_to_word_starts() {
    let t = chars("foo bar_baz  qux");
    assert_eq!(move_word_left(&t, 16, false), 13);
    assert_eq!(move_word_left(&t, 13, false), 4);
    assert_eq!(move_word_left(&t, 4, false), 0);
    assert_eq!(move_word_left(&t, 0, false), 0);
}

#[test]
fn word_left_at_line_start_goes_to_previous_line_end() {
    let t = chars("ab\ncd");
    assert_eq!(move_word_left(&t, 3, true), 2);
}

#[test]
fn word_right_moves_past_words() {
    let t = chars("foo bar_baz  qux");
    assert_eq!(move_word_right(&t, 0), 4);
    assert_eq!(move_word_right(&t, 4), 13);
    assert_eq!(move_word_right(&t, 13), 16);
    assert_eq!(move_word_right(&t, 16), 16);
}

#[test]
fn word_right_from_line_end_skips_to_next_word() {
    let t = chars("ab\n  cd");
    assert_eq!(move_word_right(&t, 2), 5);
}

#[test]
fn selection_normalizes() {
    let mut s = Selection::new(3, 4);
    assert!(s.is_empty());
    s.update(1, 2);
    assert!(!s.is_empty());
    assert_eq!(s.normalized(), ((1, 2), (3, 4)));
}

#[test]
fn terminal_keys() {
    let mut k = key("c");
    k.control = true;
    assert_eq!(key_to_input(&k, false), "\u{3}");
    assert_eq!(key_to_input(&key("enter"), false), "\r");
    assert_eq!(key_to_input(&key("up"), false), "\u{1b}[A");
    assert_eq!(key_to_input(&key("up"), true), "\u{1b}OA");
    let mut l = key("left");
    l.alt = true;
    assert_eq!(key_to_input(&l, true), "\u{1b}b");
    assert_eq!(key_to_input(&key("f5"), false), "\u{1b}[15~");
    let mut a = key("a");
    a.key_char = Some("A".to_string());
    assert_eq!(key_to_input(&a, false), "A");
    assert_eq!(key_to_input(&key("x"), false), "x");
    assert_eq!(key_to_input(&key("capslock"), false), "");
    let mut tab = key("tab");
    tab.shift = true;
    assert_eq!(key_to_input(&tab, false), "\u{1b}[Z");
}

#[test]
fn arrow_keys_move_over_lines() {
    let lens = [5usize, 2, 4];
    let mut c = cursor(1, 2);
    assert!(matches!(handle_editor_key(&mut c, &key("up"), &lens, false), EditorCommand::Redraw));
    assert_eq!((c.line, c.col), (0, 2));
    let mut c = cursor(0, 5);
    handle_editor_key(&mut c, &key("down"), &lens, false);
    assert_eq!((c.line, c.col), (1, 2));
    let mut c = cursor(1, 0);
    handle_editor_key(&mut c, &key("left"), &lens, false);
    assert_eq!((c.line, c.col), (0, 5));
    let mut c = cursor(1, 2);
    handle_editor_key(&mut c, &key("right"), &lens, false);
    assert_eq!((c.line, c.col), (2, 0));
    let mut c = cursor(2, 4);
    assert!(matches!(handle_editor_key(&mut c, &key("right"), &lens, false), EditorCommand::Nothing));
    assert_eq!((c.line, c.col), (2, 4));
}

#[test]
fn home_end_and_page_keys() {
    let lens = [5usize, 2, 4];
    let mut c = cursor(2, 1);
    handle_editor_key(&mut c, &key("end"), &lens, false);
    assert_eq!(c.col, 4);
    handle_editor_key(&mut c, &key("home"), &lens, false);
    assert_eq!(c.col, 0);
    let mut c = cursor(2, 4);
    handle_editor_key(&mut c, &key("pageup"), &lens, false);
    assert_eq!((c.line, c.col), (0, 4));
    let mut c = cursor(0, 5);
    handle_editor_key(&mut c, &key("pagedown"), &lens, false);
    assert_eq!((c.line, c.col), (2, 4));
}

#[test]
fn left_with_selection_jumps_to_its_start() {
    let lens = [5usize, 5];
    let mut c = cursor(1, 3);
    c.selection = Some(Selection { anchor_line: 1, anchor_col: 3, end_line: 0, end_col: 1 });
    c.phase = SelectionPhase::Ended;
    handle_editor_key(&mut c, &key("left"), &lens, false);
    assert_eq!((c.line, c.col), (0, 1));
    assert!(c.selection.is_none());
    assert_eq!(c.phase, SelectionPhase::Idle);
}

#[test]
fn command_keys() {
    let lens = [3usize];
    let mut c = cursor(0, 1);
    let mut s = key("s");
    s.platform = true;
    assert!(matches!(handle_editor_key(&mut c, &s, &lens, false), EditorCommand::Save));
    let mut z = key("z");
    z.platform = true;
    assert!(matches!(handle_editor_key(&mut c, &z, &lens, false), EditorCommand::Undo));
    z.shift = true;
    assert!(matches!(handle_editor_key(&mut c, &z, &lens, false), EditorCommand::Redo));
    assert!(matches!(handle_editor_key(&mut c, &key("backspace"), &lens, false), EditorCommand::DeleteBackward));
    assert!(matches!(handle_editor_key(&mut c, &key("delete"), &lens, false), EditorCommand::DeleteForward));
    let mut w = key("left");
    w.alt = true;
    assert!(matches!(handle_editor_key(&mut c, &w, &lens, false), EditorCommand::WordLeft));
}

#[test]
fn typing_inserts_text() {
    let lens = [3usize];
    let mut c = cursor(0, 1);
    assert!(matches!(handle_editor_key(&mut c, &key("enter"), &lens, false), EditorCommand::Insert(t) if t == "\n"));
    assert!(matches!(handle_editor_key(&mut c, &key("tab"), &lens, false), EditorCommand::Insert(t) if t == "    "));
    let mut x = key("x");
    x.key_char = Some("x".to_string());
    assert!(matches!(handle_editor_key(&mut c, &x, &lens, false), EditorCommand::Insert(t) if t == "x"));
    x.control = true;
    assert!(matches!(handle_editor_key(&mut c, &x, &lens, false), EditorCommand::Nothing));
}

#[test]
fn read_only_editor_ignores_keys() {
    let lens = [3usize, 3];
    let mut c = cursor(1, 1);
    assert!(matches!(handle_editor_key(&mut c, &key("up"), &lens, true), EditorCommand::Nothing));
    assert_eq!((c.line, c.col), (1, 1));
}

#[test]
fn cursor_moves_over_inserted_text() {
    assert_eq!(cursor_after_insert(0, 2, "ab\ncd"), (1, 2));
    assert_eq!(cursor_after_insert(4, 0, "xyz"), (4, 3));
    assert_eq!(cursor_after_insert(4, 7, ""), (4, 7));
}

#[test]
fn deleting_around_the_cursor() {
    assert_eq!(backspace_target(1, 0, &[3, 4]), Some((0, 3)));
    assert_eq!(backspace_target(1, 2, &[3, 4]), Some((1, 1)));
    assert_eq!(backspace_target(0, 0, &[3, 4]), None);
    assert!(!can_delete_forward(0, 3, &[3]));
    assert!(can_delete_forward(0, 3, &[3, 1]));
    assert!(can_delete_forward(0, 1, &[3]));
}

#[test]
fn clamping_puts_cursor_back() {
    let mut c = cursor(9, 9);
    clamp_cursor(&mut c, &[2, 5]);
    assert_eq!((c.line, c.col), (1, 5));
    let mut c = cursor(3, 3);
    clamp_cursor(&mut c, &[]);
    assert_eq!((c.line, c.col), (0, 0));
}

#[test]
fn selected_range_orders_points_and_skips_empty() {
    let mut backwards = Selection::new(3, 4);
    backwards.update(1, 2);
    assert_eq!(selected_range(&Some(backwards)), Some(((1, 2), (3, 4))));
    assert_eq!(selected_range(&Some(Selection::new(2, 2))), None);
    assert_eq!(selected_range(&None), None);
}

#[test]
fn take_selection_moves_cursor_to_span_start() {
    let mut sel = Selection::new(0, 5);
    sel.update(2, 1);
    let mut c = EditorCursor { line: 2, col: 1, selection: Some(sel), phase: SelectionPhase::Ended };
    assert_eq!(take_selection(&mut c), Some(((0, 5), (2, 1))));
    assert_eq!((c.line, c.col), (0, 5));
    assert!(c.selection.is_none());
    assert_eq!(c.phase, SelectionPhase::Idle);

    let mut d = EditorCursor { line: 1, col: 1, selection: Some(Selection::new(1, 1)), phase: SelectionPhase::Ended };
    assert_eq!(take_selection(&mut d), None);
    assert_eq!((d.line, d.col), (1, 1));
    assert!(d.selection.is_none());
    assert_eq!(d.phase, SelectionPhase::Ended);
}
