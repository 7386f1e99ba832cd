//! The bytes a terminal receives for a key press.
use vstd::prelude::*;
use crate::text::{byte_len, chars_of, code_point, range_eq};

verus! {

/// A key press: the key's name, the text it types, if any, and the
/// modifiers held (`platform` is the command key).
#[derive(Clone, Debug)]
pub struct KeyStroke {
    pub key: String,
    pub key_char: Option<String>,
    pub control: bool,
    pub alt: bool,
    pub shift: bool,
    pub platform: bool,
}

pub open spec fn is_ascii_alpha(c: char) -> bool {
    (0x41 <= (c as int) <= 0x5a) || (0x61 <= (c as int) <= 0x7a)
}

/// The control character for a letter: `Ctrl+A` is 1, `Ctrl+Z` is 26.
pub open spec fn control_code(c: char) -> int {
    if (c as int) <= 0x5a {
        (c as int) - 0x40
    } else {
        (c as int) - 0x60
    }
}

/// The escape sequence for a named key, if it is one the terminal knows.
/// Cursor keys use their application form when `app_cursor` is set.
pub open spec fn special_key(key: Seq<char>, alt: bool, shift: bool, app_cursor: bool) -> Option<Seq<char>> {
    if key == "enter"@ {
        Some("\r"@)
    } else if key == "backspace"@ {
        Some(if alt { "\x1b\x7f"@ } else { "\x7f"@ })
    } else if key == "tab"@ {
        Some(if shift { "\x1b[Z"@ } else { "\t"@ })
    } else if key == "escape"@ {
        Some("\x1b"@)
    } else if key == "up"@ {
        Some(if app_cursor { "\x1bOA"@ } else { "\x1b[A"@ })
    } else if key == "down"@ {
        Some(if app_cursor { "\x1bOB"@ } else { "\x1b[B"@ })
    } else if key == "right"@ {
        Some(if alt { "\x1bf"@ } else if app_cursor { "\x1bOC"@ } else { "\x1b[C"@ })
    } else if key == "left"@ {
        Some(if alt { "\x1bb"@ } else if app_cursor { "\x1bOD"@ } else { "\x1b[D"@ })
    } else if key == "home"@ {
        Some(if app_cursor { "\x1bOH"@ } else { "\x1b[H"@ })
    } else if key == "end"@ {
        Some(if app_cursor { "\x1bOF"@ } else { "\x1b[F"@ })
    } else if key == "pageup"@ {
        Some("\x1b[5~"@)
    } else if key == "pagedown"@ {
        Some("\x1b[6~"@)
    } else if key == "delete"@ {
        Some("\x1b[3~"@)
    } else if key == "insert"@ {
        Some("\x1b[2~"@)
    } else if key == "space"@ {
        Some(" "@)
    } else if key == "f1"@ {
        Some("\x1bOP"@)
    } else if key == "f2"@ {
        Some("\x1bOQ"@)
    } else if key == "f3"@ {
        Some("\x1bOR"@)
    } else if key == "f4"@ {
        Some("\x1bOS"@)
    } else if key == "f5"@ {
        Some("\x1b[15~"@)
    } else if key == "f6"@ {
        Some("\x1b[17~"@)
    } else if key == "f7"@ {
        Some("\x1b[18~"@)
    } else if key == "f8"@ {
        Some("\x1b[19~"@)
    } else if key == "f9"@ {
        Some("\x1b[20~"@)
    } else if key == "f10"@ {
        Some("\x1b[21~"@)
    } else if key == "f11"@ {
        Some("\x1b[23~"@)
    } else if key == "f12"@ {
        Some("\x1b[24~"@)
    } else {
        None
    }
}

/// What the terminal receives for a key press: the control character for
/// `Ctrl` and a letter, the escape sequence of a named key, else the typed
/// text, else the key itself when it is one byte long, else nothing.
pub open spec fn key_input_spec(
    key: Seq<char>,
    key_char: Option<Seq<char>>,
    control: bool,
    alt: bool,
    shift: bool,
    app_cursor: bool,
) -> Seq<char> {
    if control && key.len() == 1 && is_ascii_alpha(key[0]) {
        seq![control_code(key[0]) as char]
    } else {
        match special_key(key, alt, shift, app_cursor) {
            Some(out) => out,
            None => match key_char {
                Some(kc) if kc.len() > 0 => kc,
                _ => if byte_len(key) == 1 {
                    key
                } else {
                    Seq::empty()
                },
            },
        }
    }
}

/// Whether the key's name is `name`.
fn key_is(key: &Vec<char>, name: &str) -> (b: bool)
    ensures
        b == (key@ == name@),
{
    let n = chars_of(name);
    let b = range_eq(key, 0, key.len(), &n);
    assert(key@.subrange(0, key.len() as int) =~= key@);
    b
}

/// The text to send to the terminal for a key press.
pub fn key_to_input(keystroke: &KeyStroke, app_cursor: bool) -> (r: String)
    ensures
        r@ == key_input_spec(
            keystroke.key@,
            match &keystroke.key_char {
                Some(kc) => Some(kc@),
                None => None,
            },
            keystroke.control,
            keystroke.alt,
            keystroke.shift,
            app_cursor,
        ),
{
    let key = chars_of(keystroke.key.as_str());
    let alt = keystroke.alt;
    let shift = keystroke.shift;
    if keystroke.control && key.len() == 1 {
        let c = key[0];
        let v = code_point(c);
        if (0x41 <= v && v <= 0x5a) || (0x61 <= v && v <= 0x7a) {
            let lower = if v <= 0x5a { v + 0x20 } else { v };
            let code = lower - 0x60;
            let ch = (code as u8) as char;
            assert(ch == control_code(c) as char);
            let mut s = String::new();
            let one = vec![ch];
            crate::text::append_chars(&mut s, &one, 0, 1);
            assert(s@ =~= seq![control_code(c) as char]);
            return s;
        }
    }
    let out: Option<&str> = if key_is(&key, "enter") {
        Some("\r")
    } else if key_is(&key, "backspace") {
        if alt { Some("\x1b\x7f") } else { Some("\x7f") }
    } else if key_is(&key, "tab") {
        if shift { Some("\x1b[Z") } else { Some("\t") }
    } else if key_is(&key, "escape") {
        Some("\x1b")
    } else if key_is(&key, "up") {
        if app_cursor { Some("\x1bOA") } else { Some("\x1b[A") }
    } else if key_is(&key, "down") {
        if app_cursor { Some("\x1bOB") } else { Some("\x1b[B") }
    } else if key_is(&key, "right") {
        if alt { Some("\x1bf") } else if app_cursor { Some("\x1bOC") } else { Some("\x1b[C") }
    } else if key_is(&key, "left") {
        if alt { Some("\x1bb") } else if app_cursor { Some("\x1bOD") } else { Some("\x1b[D") }
    } else if key_is(&key, "home") {
        if app_cursor { Some("\x1bOH") } else { Some("\x1b[H") }
    } else if key_is(&key, "end") {
        if app_cursor { Some("\x1bOF") } else { Some("\x1b[F") }
    } else if key_is(&key, "pageup") {
        Some("\x1b[5~")
    } else if key_is(&key, "pagedown") {
        Some("\x1b[6~")
    } else if key_is(&key, "delete") {
        Some("\x1b[3~")
    } else if key_is(&key, "insert") {
        Some("\x1b[2~")
    } else if key_is(&key, "space") {
        Some(" ")
    } else if key_is(&key, "f1") {
        Some("\x1bOP")
    } else if key_is(&key, "f2") {
        Some("\x1bOQ")
    } else if key_is(&key, "f3") {
        Some("\x1bOR")
    } else if key_is(&key, "f4") {
        Some("\x1bOS")
    } else if key_is(&key, "f5") {
        Some("\x1b[15~")
    } else if key_is(&key, "f6") {
        Some("\x1b[17~")
    } else if key_is(&key, "f7") {
        Some("\x1b[18~")
    } else if key_is(&key, "f8") {
        Some("\x1b[19~")
    } else if key_is(&key, "f9") {
        Some("\x1b[20~")
    } else if key_is(&key, "f10") {
        Some("\x1b[21~")
    } else if key_is(&key, "f11") {
        Some("\x1b[23~")
    } else if key_is(&key, "f12") {
        Some("\x1b[24~")
    } else {
        None
    };
    assert(match out {
        Some(o) => special_key(key@, alt, shift, app_cursor) == Some(o@),
        None => special_key(key@, alt, shift, app_cursor) is None,
    });
    if let Some(o) = out {
        return o.to_owned();
    }
    if let Some(kc) = &keystroke.key_char {
        let kcs = chars_of(kc.as_str());
        if kcs.len() > 0 {
            return kc.clone();
        }
    }
    if key.len() == 1 {
        let v = code_point(key[0]);
        proof {
            assert(key@.drop_last() =~= Seq::<char>::empty());
            assert(byte_len(key@) == byte_len(key@.drop_last()) + crate::text::utf8_width(key@.last()));
            assert(byte_len(Seq::<char>::empty()) == 0);
        }
        if v < 0x80 {
            return keystroke.key.clone();
        }
    } else {
        proof {
            if key.len() > 1 {
                crate::text::lemma_byte_len_at_least(key@);
            } else {
                assert(key@ =~= Seq::<char>::empty());
                assert(byte_len(key@) == 0);
            }
        }
    }
    String::new()
}


// ---------------------------------------------------------------------------
// Laws
// ---------------------------------------------------------------------------

/// The byte sequence of `ESC [ x`, the normal form of a cursor key.
pub open spec fn csi(x: char) -> Seq<char> {
    seq!['\x1b', '[', x]
}

/// The byte sequence of `ESC O x`, the application form of a cursor key.
pub open spec fn ss3(x: char) -> Seq<char> {
    seq!['\x1b', 'O', x]
}

/// The arrow keys send `ESC [ A`, `ESC [ B`, `ESC [ C`, `ESC [ D` for up,
/// down, right and left in normal cursor mode and `ESC O` with the same
/// letter in application cursor mode, whatever text the key carries and
/// whether control or shift is held; alt turns right and left into the
/// word moves `ESC f` and `ESC b` in either mode.
pub proof fn law_arrow_keys(key_char: Option<Seq<char>>, control: bool, alt: bool, shift: bool)
    ensures
        key_input_spec(seq!['u', 'p'], key_char, control, alt, shift, false) == csi('A'),
        key_input_spec(seq!['d', 'o', 'w', 'n'], key_char, control, alt, shift, false) == csi('B'),
        key_input_spec(seq!['u', 'p'], key_char, control, alt, shift, true) == ss3('A'),
        key_input_spec(seq!['d', 'o', 'w', 'n'], key_char, control, alt, shift, true) == ss3('B'),
        !alt ==> key_input_spec(seq!['r', 'i', 'g', 'h', 't'], key_char, control, alt, shift, false) == csi('C'),
        !alt ==> key_input_spec(seq!['l', 'e', 'f', 't'], key_char, control, alt, shift, false) == csi('D'),
        !alt ==> key_input_spec(seq!['r', 'i', 'g', 'h', 't'], key_char, control, alt, shift, true) == ss3('C'),
        !alt ==> key_input_spec(seq!['l', 'e', 'f', 't'], key_char, control, alt, shift, true) == ss3('D'),
        alt ==> key_input_spec(seq!['r', 'i', 'g', 'h', 't'], key_char, control, alt, shift, false) == seq!['\x1b', 'f'],
        alt ==> key_input_spec(seq!['l', 'e', 'f', 't'], key_char, control, alt, shift, false) == seq!['\x1b', 'b'],
        alt ==> key_input_spec(seq!['r', 'i', 'g', 'h', 't'], key_char, control, alt, shift, true) == seq!['\x1b', 'f'],
        alt ==> key_input_spec(seq!['l', 'e', 'f', 't'], key_char, control, alt, shift, true) == seq!['\x1b', 'b'],
{
    reveal_strlit("enter");
    reveal_strlit("backspace");
    reveal_strlit("tab");
    reveal_strlit("escape");
    reveal_strlit("up");
    reveal_strlit("down");
    reveal_strlit("right");
    reveal_strlit("left");
    reveal_strlit("home");
    reveal_strlit("end");
    reveal_strlit("pageup");
    reveal_strlit("pagedown");
    reveal_strlit("delete");
    reveal_strlit("insert");
    reveal_strlit("space");
    reveal_strlit("f1");
    reveal_strlit("f2");
    reveal_strlit("f3");
    reveal_strlit("f4");
    reveal_strlit("f5");
    reveal_strlit("f6");
    reveal_strlit("f7");
    reveal_strlit("f8");
    reveal_strlit("f9");
    reveal_strlit("f10");
    reveal_strlit("f11");
    reveal_strlit("f12");
    reveal_strlit("\r");
    reveal_strlit("\x7f");
    reveal_strlit("\x1b\x7f");
    reveal_strlit("\t");
    reveal_strlit("\x1b[Z");
    reveal_strlit("\x1b");
    reveal_strlit("\x1bOA");
    reveal_strlit("\x1b[A");
    reveal_strlit("\x1bOB");
    reveal_strlit("\x1b[B");
    reveal_strlit("\x1bf");
    reveal_strlit("\x1bOC");
    reveal_strlit("\x1b[C");
    reveal_strlit("\x1bb");
    reveal_strlit("\x1bOD");
    reveal_strlit("\x1b[D");
    reveal_strlit("\x1bOH");
    reveal_strlit("\x1b[H");
    reveal_strlit("\x1bOF");
    reveal_strlit("\x1b[F");
    reveal_strlit("\x1b[5~");
    reveal_strlit("\x1b[6~");
    reveal_strlit("\x1b[3~");
    reveal_strlit("\x1b[2~");
    reveal_strlit(" ");
    reveal_strlit("\x1bOP");
    reveal_strlit("\x1bOQ");
    reveal_strlit("\x1bOR");
    reveal_strlit("\x1bOS");
    reveal_strlit("\x1b[15~");
    reveal_strlit("\x1b[17~");
    reveal_strlit("\x1b[18~");
    reveal_strlit("\x1b[19~");
    reveal_strlit("\x1b[20~");
    reveal_strlit("\x1b[21~");
    reveal_strlit("\x1b[23~");
    reveal_strlit("\x1b[24~");
    assert(seq!['e', 'n', 't', 'e', 'r'] =~= "enter"@);
    assert(seq!['b', 'a', 'c', 'k', 's', 'p', 'a', 'c', 'e'] =~= "backspace"@);
    assert(seq!['t', 'a', 'b'] =~= "tab"@);
    assert(seq!['e', 's', 'c', 'a', 'p', 'e'] =~= "escape"@);
    assert(seq!['u', 'p'] =~= "up"@);
    assert(seq!['d', 'o', 'w', 'n'] =~= "down"@);
    assert(seq!['r', 'i', 'g', 'h', 't'] =~= "right"@);
    assert(seq!['l', 'e', 'f', 't'] =~= "left"@);
    assert(seq!['h', 'o', 'm', 'e'] =~= "home"@);
    assert(seq!['e', 'n', 'd'] =~= "end"@);
    assert(seq!['p', 'a', 'g', 'e', 'u', 'p'] =~= "pageup"@);
    assert(seq!['p', 'a', 'g', 'e', 'd', 'o', 'w', 'n'] =~= "pagedown"@);
    assert(seq!['d', 'e', 'l', 'e', 't', 'e'] =~= "delete"@);
    assert(seq!['i', 'n', 's', 'e', 'r', 't'] =~= "insert"@);
    assert(seq!['s', 'p', 'a', 'c', 'e'] =~= "space"@);
    assert(seq!['f', '1'] =~= "f1"@);
    assert(seq!['f', '2'] =~= "f2"@);
    assert(seq!['f', '3'] =~= "f3"@);
    assert(seq!['f', '4'] =~= "f4"@);
    assert(seq!['f', '5'] =~= "f5"@);
    assert(seq!['f', '6'] =~= "f6"@);
    assert(seq!['f', '7'] =~= "f7"@);
    assert(seq!['f', '8'] =~= "f8"@);
    assert(seq!['f', '9'] =~= "f9"@);
    assert(seq!['f', '1', '0'] =~= "f10"@);
    assert(seq!['f', '1', '1'] =~= "f11"@);
    assert(seq!['f', '1', '2'] =~= "f12"@);
    assert(seq!['\r'] =~= "\r"@);
    assert(seq!['\x7f'] =~= "\x7f"@);
    assert(seq!['\x1b', '\x7f'] =~= "\x1b\x7f"@);
    assert(seq!['\t'] =~= "\t"@);
    assert(seq!['\x1b', '[', 'Z'] =~= "\x1b[Z"@);
    assert(seq!['\x1b'] =~= "\x1b"@);
    assert(seq!['\x1b', 'O', 'A'] =~= "\x1bOA"@);
    assert(seq!['\x1b', '[', 'A'] =~= "\x1b[A"@);
    assert(seq!['\x1b', 'O', 'B'] =~= "\x1bOB"@);
    assert(seq!['\x1b', '[', 'B'] =~= "\x1b[B"@);
    assert(seq!['\x1b', 'f'] =~= "\x1bf"@);
    assert(seq!['\x1b', 'O', 'C'] =~= "\x1bOC"@);
    assert(seq!['\x1b', '[', 'C'] =~= "\x1b[C"@);
    assert(seq!['\x1b', 'b'] =~= "\x1bb"@);
    assert(seq!['\x1b', 'O', 'D'] =~= "\x1bOD"@);
    assert(seq!['\x1b', '[', 'D'] =~= "\x1b[D"@);
    assert(seq!['\x1b', 'O', 'H'] =~= "\x1bOH"@);
    assert(seq!['\x1b', '[', 'H'] =~= "\x1b[H"@);
    assert(seq!['\x1b', 'O', 'F'] =~= "\x1bOF"@);
    assert(seq!['\x1b', '[', 'F'] =~= "\x1b[F"@);
    assert(seq!['\x1b', '[', '5', '~'] =~= "\x1b[5~"@);
    assert(seq!['\x1b', '[', '6', '~'] =~= "\x1b[6~"@);
    assert(seq!['\x1b', '[', '3', '~'] =~= "\x1b[3~"@);
    assert(seq!['\x1b', '[', '2', '~'] =~= "\x1b[2~"@);
    assert(seq![' '] =~= " "@);
    assert(seq!['\x1b', 'O', 'P'] =~= "\x1bOP"@);
    assert(seq!['\x1b', 'O', 'Q'] =~= "\x1bOQ"@);
    assert(seq!['\x1b', 'O', 'R'] =~= "\x1bOR"@);
    assert(seq!['\x1b', 'O', 'S'] =~= "\x1bOS"@);
    assert(seq!['\x1b', '[', '1', '5', '~'] =~= "\x1b[15~"@);
    assert(seq!['\x1b', '[', '1', '7', '~'] =~= "\x1b[17~"@);
    assert(seq!['\x1b', '[', '1', '8', '~'] =~= "\x1b[18~"@);
    assert(seq!['\x1b', '[', '1', '9', '~'] =~= "\x1b[19~"@);
    assert(seq!['\x1b', '[', '2', '0', '~'] =~= "\x1b[20~"@);
    assert(seq!['\x1b', '[', '2', '1', '~'] =~= "\x1b[21~"@);
    assert(seq!['\x1b', '[', '2', '3', '~'] =~= "\x1b[23~"@);
    assert(seq!['\x1b', '[', '2', '4', '~'] =~= "\x1b[24~"@);
}

/// The four arrow keys send four different sequences, in either cursor
/// mode and with or without alt.
pub proof fn law_arrow_keys_distinct(key_char: Option<Seq<char>>, control: bool, alt: bool, shift: bool, app_cursor: bool)
    ensures
        ({
            let u = key_input_spec(seq!['u', 'p'], key_char, control, alt, shift, app_cursor);
            let d = key_input_spec(seq!['d', 'o', 'w', 'n'], key_char, control, alt, shift, app_cursor);
            let r = key_input_spec(seq!['r', 'i', 'g', 'h', 't'], key_char, control, alt, shift, app_cursor);
            let l = key_input_spec(seq!['l', 'e', 'f', 't'], key_char, control, alt, shift, app_cursor);
            u != d && u != r && u != l && d != r && d != l && r != l
        }),
{
    law_arrow_keys(key_char, control, alt, shift);
    let u = key_input_spec(seq!['u', 'p'], key_char, control, alt, shift, app_cursor);
    let d = key_input_spec(seq!['d', 'o', 'w', 'n'], key_char, control, alt, shift, app_cursor);
    let r = key_input_spec(seq!['r', 'i', 'g', 'h', 't'], key_char, control, alt, shift, app_cursor);
    let l = key_input_spec(seq!['l', 'e', 'f', 't'], key_char, control, alt, shift, app_cursor);
    assert(u.len() == 3 && u[2] == 'A' && d.len() == 3 && d[2] == 'B');
    if alt {
        assert(r.len() == 2 && r[1] == 'f' && l.len() == 2 && l[1] == 'b');
    } else {
        assert(r.len() == 3 && r[2] == 'C' && l.len() == 3 && l[2] == 'D');
    }
}

/// The other named keys send their fixed sequences, whatever modifiers are
/// held but for those that change them: carriage return for enter, DEL for
/// backspace without alt, a tab without shift, a lone escape, `ESC [ H` and
/// `ESC [ F` for home and end (`ESC O H` and `ESC O F` in application
/// cursor mode), the `ESC [ n ~` forms for page up, page down, delete,
/// insert and F5 to F12, `ESC O P` to `ESC O S` for F1 to F4, and a blank
/// for space.
pub proof fn law_named_keys(key_char: Option<Seq<char>>, control: bool, alt: bool, shift: bool, app_cursor: bool)
    ensures
        key_input_spec(seq!['e', 'n', 't', 'e', 'r'], key_char, control, alt, shift, app_cursor) == seq!['\r'],
        !alt ==> key_input_spec(seq!['b', 'a', 'c', 'k', 's', 'p', 'a', 'c', 'e'], key_char, control, alt, shift, app_cursor) == seq!['\x7f'],
        !shift ==> key_input_spec(seq!['t', 'a', 'b'], key_char, control, alt, shift, app_cursor) == seq!['\t'],
        key_input_spec(seq!['e', 's', 'c', 'a', 'p', 'e'], key_char, control, alt, shift, app_cursor) == seq!['\x1b'],
        !app_cursor ==> key_input_spec(seq!['h', 'o', 'm', 'e'], key_char, control, alt, shift, app_cursor) == seq!['\x1b', '[', 'H'],
        key_input_spec(seq!['h', 'o', 'm', 'e'], key_char, control, alt, shift, true) == seq!['\x1b', 'O', 'H'],
        !app_cursor ==> key_input_spec(seq!['e', 'n', 'd'], key_char, control, alt, shift, app_cursor) == seq!['\x1b', '[', 'F'],
        key_input_spec(seq!['e', 'n', 'd'], key_char, control, alt, shift, true) == seq!['\x1b', 'O', 'F'],
        key_input_spec(seq!['p', 'a', 'g', 'e', 'u', 'p'], key_char, control, alt, shift, app_cursor) == seq!['\x1b', '[', '5', '~'],
        key_input_spec(seq!['p', 'a', 'g', 'e', 'd', 'o', 'w', 'n'], key_char, control, alt, shift, app_cursor) == seq!['\x1b', '[', '6', '~'],
        key_input_spec(seq!['d', 'e', 'l', 'e', 't', 'e'], key_char, control, alt, shift, app_cursor) == seq!['\x1b', '[', '3', '~'],
        key_input_spec(seq!['i', 'n', 's', 'e', 'r', 't'], key_char, control, alt, shift, app_cursor) == seq!['\x1b', '[', '2', '~'],
        key_input_spec(seq!['s', 'p', 'a', 'c', 'e'], key_char, control, alt, shift, app_cursor) == seq![' '],
        key_input_spec(seq!['f', '1'], key_char, control, alt, shift, app_cursor) == seq!['\x1b', 'O', 'P'],
        key_input_spec(seq!['f', '2'], key_char, control, alt, shift, app_cursor) == seq!['\x1b', 'O', 'Q'],
        key_input_spec(seq!['f', '3'], key_char, control, alt, shift, app_cursor) == seq!['\x1b', 'O', 'R'],
        key_input_spec(seq!['f', '4'], key_char, control, alt, shift, app_cursor) == seq!['\x1b', 'O', 'S'],
        key_input_spec(seq!['f', '5'], key_char, control, alt, shift, app_cursor) == seq!['\x1b', '[', '1', '5', '~'],
        key_input_spec(seq!['f', '6'], key_char, control, alt, shift, app_cursor) == seq!['\x1b', '[', '1', '7', '~'],
        key_input_spec(seq!['f', '7'], key_char, control, alt, shift, app_cursor) == seq!['\x1b', '[', '1', '8', '~'],
        key_input_spec(seq!['f', '8'], key_char, control, alt, shift, app_cursor) == seq!['\x1b', '[', '1', '9', '~'],
        key_input_spec(seq!['f', '9'], key_char, control, alt, shift, app_cursor) == seq!['\x1b', '[', '2', '0', '~'],
        key_input_spec(seq!['f', '1', '0'], key_char, control, alt, shift, app_cursor) == seq!['\x1b', '[', '2', '1', '~'],
        key_input_spec(seq!['f', '1', '1'], key_char, control, alt, shift, app_cursor) == seq!['\x1b', '[', '2', '3', '~'],
        key_input_spec(seq!['f', '1', '2'], key_char, control, alt, shift, app_cursor) == seq!['\x1b', '[', '2', '4', '~'],
{
    reveal_strlit("enter");
    reveal_strlit("backspace");
    reveal_strlit("tab");
    reveal_strlit("escape");
    reveal_strlit("up");
    reveal_strlit("down");
    reveal_strlit("right");
    reveal_strlit("left");
    reveal_strlit("home");
    reveal_strlit("end");
    reveal_strlit("pageup");
    reveal_strlit("pagedown");
    reveal_strlit("delete");
    reveal_strlit("insert");
    reveal_strlit("space");
    reveal_strlit("f1");
    reveal_strlit("f2");
    reveal_strlit("f3");
    reveal_strlit("f4");
    reveal_strlit("f5");
    reveal_strlit("f6");
    reveal_strlit("f7");
    reveal_strlit("f8");
    reveal_strlit("f9");
    reveal_strlit("f10");
    reveal_strlit("f11");
    reveal_strlit("f12");
    reveal_strlit("\r");
    reveal_strlit("\x7f");
    reveal_strlit("\x1b\x7f");
    reveal_strlit("\t");
    reveal_strlit("\x1b[Z");
    reveal_strlit("\x1b");
    reveal_strlit("\x1bOA");
    reveal_strlit("\x1b[A");
    reveal_strlit("\x1bOB");
    reveal_strlit("\x1b[B");
    reveal_strlit("\x1bf");
    reveal_strlit("\x1bOC");
    reveal_strlit("\x1b[C");
    reveal_strlit("\x1bb");
    reveal_strlit("\x1bOD");
    reveal_strlit("\x1b[D");
    reveal_strlit("\x1bOH");
    reveal_strlit("\x1b[H");
    reveal_strlit("\x1bOF");
    reveal_strlit("\x1b[F");
    reveal_strlit("\x1b[5~");
    reveal_strlit("\x1b[6~");
    reveal_strlit("\x1b[3~");
    reveal_strlit("\x1b[2~");
    reveal_strlit(" ");
    reveal_strlit("\x1bOP");
    reveal_strlit("\x1bOQ");
    reveal_strlit("\x1bOR");
    reveal_strlit("\x1bOS");
    reveal_strlit("\x1b[15~");
    reveal_strlit("\x1b[17~");
    reveal_strlit("\x1b[18~");
    reveal_strlit("\x1b[19~");
    reveal_strlit("\x1b[20~");
    reveal_strlit("\x1b[21~");
    reveal_strlit("\x1b[23~");
    reveal_strlit("\x1b[24~");
    assert(seq!['e', 'n', 't', 'e', 'r'] =~= "enter"@);
    assert(seq!['b', 'a', 'c', 'k', 's', 'p', 'a', 'c', 'e'] =~= "backspace"@);
    assert(seq!['t', 'a', 'b'] =~= "tab"@);
    assert(seq!['e', 's', 'c', 'a', 'p', 'e'] =~= "escape"@);
    assert(seq!['u', 'p'] =~= "up"@);
    assert(seq!['d', 'o', 'w', 'n'] =~= "down"@);
    assert(seq!['r', 'i', 'g', 'h', 't'] =~= "right"@);
    assert(seq!['l', 'e', 'f', 't'] =~= "left"@);
    assert(seq!['h', 'o', 'm', 'e'] =~= "home"@);
    assert(seq!['e', 'n', 'd'] =~= "end"@);
    assert(seq!['p', 'a', 'g', 'e', 'u', 'p'] =~= "pageup"@);
    assert(seq!['p', 'a', 'g', 'e', 'd', 'o', 'w', 'n'] =~= "pagedown"@);
    assert(seq!['d', 'e', 'l', 'e', 't', 'e'] =~= "delete"@);
    assert(seq!['i', 'n', 's', 'e', 'r', 't'] =~= "insert"@);
    assert(seq!['s', 'p', 'a', 'c', 'e'] =~= "space"@);
    assert(seq!['f', '1'] =~= "f1"@);
    assert(seq!['f', '2'] =~= "f2"@);
    assert(seq!['f', '3'] =~= "f3"@);
    assert(seq!['f', '4'] =~= "f4"@);
    assert(seq!['f', '5'] =~= "f5"@);
    assert(seq!['f', '6'] =~= "f6"@);
    assert(seq!['f', '7'] =~= "f7"@);
    assert(seq!['f', '8'] =~= "f8"@);
    assert(seq!['f', '9'] =~= "f9"@);
    assert(seq!['f', '1', '0'] =~= "f10"@);
    assert(seq!['f', '1', '1'] =~= "f11"@);
    assert(seq!['f', '1', '2'] =~= "f12"@);
    assert(seq!['\r'] =~= "\r"@);
    assert(seq!['\x7f'] =~= "\x7f"@);
    assert(seq!['\x1b', '\x7f'] =~= "\x1b\x7f"@);
    assert(seq!['\t'] =~= "\t"@);
    assert(seq!['\x1b', '[', 'Z'] =~= "\x1b[Z"@);
    assert(seq!['\x1b'] =~= "\x1b"@);
    assert(seq!['\x1b', 'O', 'A'] =~= "\x1bOA"@);
    assert(seq!['\x1b', '[', 'A'] =~= "\x1b[A"@);
    assert(seq!['\x1b', 'O', 'B'] =~= "\x1bOB"@);
    assert(seq!['\x1b', '[', 'B'] =~= "\x1b[B"@);
    assert(seq!['\x1b', 'f'] =~= "\x1bf"@);
    assert(seq!['\x1b', 'O', 'C'] =~= "\x1bOC"@);
    assert(seq!['\x1b', '[', 'C'] =~= "\x1b[C"@);
    assert(seq!['\x1b', 'b'] =~= "\x1bb"@);
    assert(seq!['\x1b', 'O', 'D'] =~= "\x1bOD"@);
    assert(seq!['\x1b', '[', 'D'] =~= "\x1b[D"@);
    assert(seq!['\x1b', 'O', 'H'] =~= "\x1bOH"@);
    assert(seq!['\x1b', '[', 'H'] =~= "\x1b[H"@);
    assert(seq!['\x1b', 'O', 'F'] =~= "\x1bOF"@);
    assert(seq!['\x1b', '[', 'F'] =~= "\x1b[F"@);
    assert(seq!['\x1b', '[', '5', '~'] =~= "\x1b[5~"@);
    assert(seq!['\x1b', '[', '6', '~'] =~= "\x1b[6~"@);
    assert(seq!['\x1b', '[', '3', '~'] =~= "\x1b[3~"@);
    assert(seq!['\x1b', '[', '2', '~'] =~= "\x1b[2~"@);
    assert(seq![' '] =~= " "@);
    assert(seq!['\x1b', 'O', 'P'] =~= "\x1bOP"@);
    assert(seq!['\x1b', 'O', 'Q'] =~= "\x1bOQ"@);
    assert(seq!['\x1b', 'O', 'R'] =~= "\x1bOR"@);
    assert(seq!['\x1b', 'O', 'S'] =~= "\x1bOS"@);
    assert(seq!['\x1b', '[', '1', '5', '~'] =~= "\x1b[15~"@);
    assert(seq!['\x1b', '[', '1', '7', '~'] =~= "\x1b[17~"@);
    assert(seq!['\x1b', '[', '1', '8', '~'] =~= "\x1b[18~"@);
    assert(seq!['\x1b', '[', '1', '9', '~'] =~= "\x1b[19~"@);
    assert(seq!['\x1b', '[', '2', '0', '~'] =~= "\x1b[20~"@);
    assert(seq!['\x1b', '[', '2', '1', '~'] =~= "\x1b[21~"@);
    assert(seq!['\x1b', '[', '2', '3', '~'] =~= "\x1b[23~"@);
    assert(seq!['\x1b', '[', '2', '4', '~'] =~= "\x1b[24~"@);
}

/// Control with the `k`-th letter of the alphabet (`k` from 0), small or
/// capital, sends the single control character `k + 1`: `Ctrl+A` is 1 and
/// `Ctrl+Z` is 26, whatever else is held.
pub proof fn law_control_letters(k: int, key_char: Option<Seq<char>>, alt: bool, shift: bool, app_cursor: bool)
    requires
        0 <= k < 26,
    ensures
        key_input_spec(seq![(0x61 + k) as char], key_char, true, alt, shift, app_cursor) == seq![(k + 1) as char],
        key_input_spec(seq![(0x41 + k) as char], key_char, true, alt, shift, app_cursor) == seq![(k + 1) as char],
{
    assert(seq![(0x61 + k) as char][0] == (0x61 + k) as char);
    assert(seq![(0x41 + k) as char][0] == (0x41 + k) as char);
}

/// Backspace with alt sends `ESC DEL`; tab with shift sends `ESC [ Z`.
pub proof fn law_modified_keys(key_char: Option<Seq<char>>, control: bool, shift: bool, alt: bool, app_cursor: bool)
    ensures
        alt ==> key_input_spec(seq!['b', 'a', 'c', 'k', 's', 'p', 'a', 'c', 'e'], key_char, control, alt, shift, app_cursor)
            == seq!['\x1b', '\x7f'],
        shift ==> key_input_spec(seq!['t', 'a', 'b'], key_char, control, alt, shift, app_cursor) == seq![
            '\x1b',
            '[',
            'Z',
        ],
{
    reveal_strlit("enter");
    reveal_strlit("backspace");
    reveal_strlit("tab");
    reveal_strlit("\x1b\x7f");
    reveal_strlit("\x1b[Z");
    assert(seq!['b', 'a', 'c', 'k', 's', 'p', 'a', 'c', 'e'] =~= "backspace"@);
    assert(seq!['t', 'a', 'b'] =~= "tab"@);
    assert(seq!['\x1b', '\x7f'] =~= "\x1b\x7f"@);
    assert(seq!['\x1b', '[', 'Z'] =~= "\x1b[Z"@);
}

/// A one-character key pressed without control sends the text it types
/// when it types any, else the key itself when it is an ASCII character.
pub proof fn law_character_keys(c: char, key_char: Option<Seq<char>>, alt: bool, shift: bool, app_cursor: bool)
    ensures
        ({
            let r = key_input_spec(seq![c], key_char, false, alt, shift, app_cursor);
            &&& (key_char matches Some(t) && t.len() > 0) ==> r == key_char->0
            &&& !(key_char matches Some(t) && t.len() > 0) && (c as int) < 0x80 ==> r == seq![c]
        }),
{
    reveal_strlit("enter");
    reveal_strlit("backspace");
    reveal_strlit("tab");
    reveal_strlit("escape");
    reveal_strlit("up");
    reveal_strlit("down");
    reveal_strlit("right");
    reveal_strlit("left");
    reveal_strlit("home");
    reveal_strlit("end");
    reveal_strlit("pageup");
    reveal_strlit("pagedown");
    reveal_strlit("delete");
    reveal_strlit("insert");
    reveal_strlit("space");
    reveal_strlit("f1");
    reveal_strlit("f2");
    reveal_strlit("f3");
    reveal_strlit("f4");
    reveal_strlit("f5");
    reveal_strlit("f6");
    reveal_strlit("f7");
    reveal_strlit("f8");
    reveal_strlit("f9");
    reveal_strlit("f10");
    reveal_strlit("f11");
    reveal_strlit("f12");
    assert("enter"@.len() == 5);
    assert("backspace"@.len() == 9);
    assert("tab"@.len() == 3);
    assert("escape"@.len() == 6);
    assert("up"@.len() == 2);
    assert("down"@.len() == 4);
    assert("right"@.len() == 5);
    assert("left"@.len() == 4);
    assert("home"@.len() == 4);
    assert("end"@.len() == 3);
    assert("pageup"@.len() == 6);
    assert("pagedown"@.len() == 8);
    assert("delete"@.len() == 6);
    assert("insert"@.len() == 6);
    assert("space"@.len() == 5);
    assert("f1"@.len() == 2);
    assert("f2"@.len() == 2);
    assert("f3"@.len() == 2);
    assert("f4"@.len() == 2);
    assert("f5"@.len() == 2);
    assert("f6"@.len() == 2);
    assert("f7"@.len() == 2);
    assert("f8"@.len() == 2);
    assert("f9"@.len() == 2);
    assert("f10"@.len() == 3);
    assert("f11"@.len() == 3);
    assert("f12"@.len() == 3);
    assert(special_key(seq![c], alt, shift, app_cursor) is None);
    assert(seq![c].drop_last() =~= Seq::<char>::empty());
    assert(byte_len(Seq::<char>::empty()) == 0);
    assert(seq![c].last() == c);
    assert((c as int) < 0x80 ==> byte_len(seq![c]) == 1);
}

} // verus!
