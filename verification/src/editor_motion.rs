//! Cursor movement and selections in the text editor.
use vstd::prelude::*;

verus! {

/// `char::is_alphanumeric`, Unicode's `Alphabetic` or `Numeric` property.
pub uninterp spec fn is_alphanumeric(c: char) -> bool;

/// `char::is_alphanumeric`: whether `c` is alphabetic or numeric in
/// Unicode.  The contract only names the result; the Unicode tables are
/// not written out.
#[verifier::external_body]
fn char_is_alphanumeric(c: char) -> (b: bool)
    ensures
        b == is_alphanumeric(c),
{
    c.is_alphanumeric()
}

/// Word characters: alphanumeric ones and `'_'`.
pub open spec fn word_char(c: char) -> bool {
    is_alphanumeric(c) || c == '_'
}

/// Whether a character belongs to a word: alphanumeric or underscore.
pub fn is_word_char(ch: char) -> (b: bool)
    ensures
        b == word_char(ch),
{
    char_is_alphanumeric(ch) || ch == '_'
}

/// The character at an offset of the text, if there is one.
pub open spec fn char_at(t: Seq<char>, o: int) -> Option<char> {
    if 0 <= o < t.len() {
        Some(t[o])
    } else {
        None
    }
}

/// Going left from `o` over characters that are neither word characters nor
/// newlines; a newline stops the walk just after it.
pub open spec fn skip_left(t: Seq<char>, o: int) -> int
    decreases o,
{
    if o <= 0 {
        o
    } else {
        match char_at(t, o) {
            None => o,
            Some(ch) => if ch == '\n' {
                o + 1
            } else if word_char(ch) {
                o
            } else {
                skip_left(t, o - 1)
            },
        }
    }
}

/// The start of the word that `o` lies in.
pub open spec fn word_start(t: Seq<char>, o: int) -> int
    decreases o,
{
    if o <= 0 {
        o
    } else {
        match char_at(t, o - 1) {
            None => o,
            Some(p) => if !word_char(p) {
                o
            } else {
                word_start(t, o - 1)
            },
        }
    }
}

/// Where a word-left move from `offset` ends: at a line start, the end of
/// the previous line; else at the start of the previous word on the same
/// line, or the start of the line.
pub open spec fn word_left_spec(t: Seq<char>, offset: int, at_line_start: bool) -> int {
    if offset == 0 {
        0
    } else if at_line_start {
        offset - 1
    } else {
        let o1 = skip_left(t, offset - 1);
        let o2 = if char_at(t, o1) == Some('\n') {
            o1 + 1
        } else {
            o1
        };
        if o2 > 0 && (char_at(t, o2) matches Some(c) && word_char(c)) {
            word_start(t, o2)
        } else {
            o2
        }
    }
}

proof fn lemma_skip_left_bound(t: Seq<char>, o: int)
    requires
        0 <= o,
    ensures
        0 <= skip_left(t, o) <= o + 1,
        skip_left(t, o) == o + 1 ==> o < t.len(),
    decreases o,
{
    if o > 0 {
        if let Some(ch) = char_at(t, o) {
            if ch != '\n' && !word_char(ch) {
                lemma_skip_left_bound(t, o - 1);
            }
        }
    }
}

proof fn lemma_word_start_bound(t: Seq<char>, o: int)
    requires
        0 <= o,
    ensures
        0 <= word_start(t, o) <= o,
    decreases o,
{
    if o > 0 {
        if let Some(p) = char_at(t, o - 1) {
            if word_char(p) {
                lemma_word_start_bound(t, o - 1);
            }
        }
    }
}

/// The offset a word-left move from `offset` ends at.  `at_line_start`
/// tells whether the cursor is in the first column.
pub fn move_word_left(text: &[char], offset: usize, at_line_start: bool) -> (r: usize)
    ensures
        r == word_left_spec(text@, offset as int, at_line_start),
{
    if offset == 0 {
        return 0;
    }
    if at_line_start {
        return offset - 1;
    }
    let mut o = offset - 1;
    proof {
        lemma_skip_left_bound(text@, o as int);
    }
    while o > 0
        invariant_except_break
            skip_left(text@, (offset - 1) as int) == skip_left(text@, o as int),
        ensures
            o as int == skip_left(text@, (offset - 1) as int),
        decreases o,
    {
        if o < text.len() {
            let ch = text[o];
            if ch == '\n' {
                o = o + 1;
                break;
            }
            if is_word_char(ch) {
                break;
            }
            o = o - 1;
        } else {
            break;
        }
    }
    proof {
        lemma_skip_left_bound(text@, (offset - 1) as int);
    }
    if o < text.len() && text[o] == '\n' {
        o = o + 1;
    }
    if o > 0 && o < text.len() && is_word_char(text[o]) {
        let ghost start = o;
        proof {
            lemma_word_start_bound(text@, o as int);
        }
        while o > 0
            invariant_except_break
                word_start(text@, start as int) == word_start(text@, o as int),
            ensures
                o as int == word_start(text@, start as int),
            decreases o,
        {
            if o - 1 < text.len() {
                if !is_word_char(text[o - 1]) {
                    break;
                }
                o = o - 1;
            } else {
                break;
            }
        }
    }
    o
}

/// Going right from `o` while `stop` does not hold of the character.
pub open spec fn skip_right(t: Seq<char>, o: int, stop: spec_fn(char) -> bool) -> int
    decreases t.len() - o,
{
    if o >= t.len() || o < 0 {
        o
    } else if stop(t[o]) {
        o
    } else {
        skip_right(t, o + 1, stop)
    }
}

/// Where a word-right move from `offset` ends: from a line end, at the
/// first word character or newline of the next line; else past the rest of
/// the current word and the non-word characters after it, but not past a
/// newline.
pub open spec fn word_right_spec(t: Seq<char>, offset: int) -> int {
    let stop_at_word = |c: char| c == '\n' || word_char(c);
    let stop_at_non_word = |c: char| c == '\n' || !word_char(c);
    if offset >= t.len() {
        offset
    } else if t[offset] == '\n' {
        skip_right(t, offset + 1, stop_at_word)
    } else {
        skip_right(t, skip_right(t, offset, stop_at_non_word), stop_at_word)
    }
}

proof fn lemma_skip_right_bound(t: Seq<char>, o: int, stop: spec_fn(char) -> bool)
    requires
        0 <= o <= t.len(),
    ensures
        o <= skip_right(t, o, stop) <= t.len(),
    decreases t.len() - o,
{
    if o < t.len() && !stop(t[o]) {
        lemma_skip_right_bound(t, o + 1, stop);
    }
}

/// The offset a word-right move from `offset` ends at.
pub fn move_word_right(text: &[char], offset: usize) -> (r: usize)
    ensures
        r == word_right_spec(text@, offset as int),
{
    let ghost stop_at_word = |c: char| c == '\n' || word_char(c);
    let ghost stop_at_non_word = |c: char| c == '\n' || !word_char(c);
    let total = text.len();
    if offset >= total {
        return offset;
    }
    let mut o = offset;
    if text[o] == '\n' {
        o = o + 1;
        while o < total
            invariant_except_break
                total == text.len(),
                offset < o <= total,
                skip_right(text@, offset + 1, stop_at_word) == skip_right(text@, o as int, stop_at_word),
                stop_at_word == (|c: char| c == '\n' || word_char(c)),
            ensures
                o as int == skip_right(text@, offset + 1, stop_at_word),
            decreases total - o,
        {
            let ch = text[o];
            if ch == '\n' || is_word_char(ch) {
                break;
            }
            o = o + 1;
        }
        return o;
    }
    while o < total
        invariant_except_break
            total == text.len(),
            offset <= o <= total,
            skip_right(text@, offset as int, stop_at_non_word) == skip_right(text@, o as int, stop_at_non_word),
            stop_at_non_word == (|c: char| c == '\n' || !word_char(c)),
        ensures
            offset <= o <= total,
            o as int == skip_right(text@, offset as int, stop_at_non_word),
        decreases total - o,
    {
        let ch = text[o];
        if ch == '\n' || !is_word_char(ch) {
            break;
        }
        o = o + 1;
    }
    let ghost mid = o;
    while o < total
        invariant_except_break
            total == text.len(),
            mid <= o <= total,
            skip_right(text@, mid as int, stop_at_word) == skip_right(text@, o as int, stop_at_word),
            stop_at_word == (|c: char| c == '\n' || word_char(c)),
        ensures
            o as int == skip_right(text@, mid as int, stop_at_word),
        decreases total - o,
    {
        let ch = text[o];
        if ch == '\n' {
            break;
        }
        if is_word_char(ch) {
            break;
        }
        o = o + 1;
    }
    o
}

// ---------------------------------------------------------------------------
// Selections
// ---------------------------------------------------------------------------

/// A selection from an anchor point to an end point, each `(line, col)`.
#[derive(Clone, Copy, Debug)]
pub struct Selection {
    pub anchor_line: usize,
    pub anchor_col: usize,
    pub end_line: usize,
    pub end_col: usize,
}

/// `(line, col)` positions in document order.
pub open spec fn pos_le(a: (usize, usize), b: (usize, usize)) -> bool {
    a.0 < b.0 || (a.0 == b.0 && a.1 <= b.1)
}

impl Selection {
    /// An empty selection at a point.
    pub fn new(line: usize, col: usize) -> (s: Self)
        ensures
            s.anchor_line == line && s.anchor_col == col,
            s.end_line == line && s.end_col == col,
    {
        Selection { anchor_line: line, anchor_col: col, end_line: line, end_col: col }
    }

    /// Moves the end point, keeping the anchor.
    pub fn update(&mut self, line: usize, col: usize)
        ensures
            final(self).anchor_line == old(self).anchor_line,
            final(self).anchor_col == old(self).anchor_col,
            final(self).end_line == line,
            final(self).end_col == col,
    {
        self.end_line = line;
        self.end_col = col;
    }

    /// The two points of the selection, the earlier first.
    pub fn normalized(&self) -> (r: ((usize, usize), (usize, usize)))
        ensures
            ({
                let start = (self.anchor_line, self.anchor_col);
                let end = (self.end_line, self.end_col);
                r == if pos_le(start, end) {
                    (start, end)
                } else {
                    (end, start)
                }
            }),
    {
        let start = (self.anchor_line, self.anchor_col);
        let end = (self.end_line, self.end_col);
        if self.anchor_line < self.end_line || (self.anchor_line == self.end_line && self.anchor_col <= self.end_col) {
            (start, end)
        } else {
            (end, start)
        }
    }

    /// Whether the selection covers nothing: anchor and end coincide.
    pub fn is_empty(&self) -> (b: bool)
        ensures
            b == (self.anchor_line == self.end_line && self.anchor_col == self.end_col),
    {
        self.anchor_line == self.end_line && self.anchor_col == self.end_col
    }
}

/// Law: the normalized points of a selection are in document order.
pub proof fn law_normalized_in_order(s: Selection)
    ensures
        ({
            let start = (s.anchor_line, s.anchor_col);
            let end = (s.end_line, s.end_col);
            let r = if pos_le(start, end) {
                (start, end)
            } else {
                (end, start)
            };
            pos_le(r.0, r.1) && (r.0 == start || r.0 == end) && (r.1 == start || r.1 == end)
        }),
{
}

} // verus!
