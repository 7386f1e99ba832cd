//! What an editor view shows of its buffer: the visible lines with their
//! numbers, the width of the number gutter, the screen line of the cursor,
//! the selected part of each visible line, the gutter text of a diff line,
//! and the scrolling that keeps the cursor in view.
use vstd::prelude::*;
use crate::editor_diff::{DiffLine, DiffLineTag};
use crate::editor_motion::{pos_le, Selection};
use crate::markdown_inline::byte_offset;
use crate::text::{all_digits, digit_value, digits_value, is_digit, parse_unsigned_spec, push_char, unsigned_digits};

verus! {

// ---------------------------------------------------------------------------
// Decimal numbers
// ---------------------------------------------------------------------------

/// The character of the decimal digit `d`.
pub open spec fn digit_of(d: int) -> char {
    (d + 0x30) as char
}

/// The decimal digits of `n`, as `{}` formats it.
pub open spec fn decimal_digits(n: nat) -> Seq<char>
    decreases n,
{
    if n < 10 {
        seq![digit_of(n as int)]
    } else {
        decimal_digits(n / 10).push(digit_of((n % 10) as int))
    }
}

fn digit_char(d: u64) -> (c: char)
    requires
        d < 10,
    ensures
        c == digit_of(d as int),
{
    if d == 0 {
        '0'
    } else if d == 1 {
        '1'
    } else if d == 2 {
        '2'
    } else if d == 3 {
        '3'
    } else if d == 4 {
        '4'
    } else if d == 5 {
        '5'
    } else if d == 6 {
        '6'
    } else if d == 7 {
        '7'
    } else if d == 8 {
        '8'
    } else {
        '9'
    }
}

fn push_decimal(out: &mut String, n: u64)
    ensures
        final(out)@ == old(out)@ + decimal_digits(n as nat),
    decreases n,
{
    if n < 10 {
        push_char(out, digit_char(n));
        assert(out@ =~= old(out)@ + decimal_digits(n as nat));
    } else {
        push_decimal(out, n / 10);
        push_char(out, digit_char(n % 10));
        assert(out@ =~= old(out)@ + decimal_digits(n as nat));
    }
}

/// The decimal text of `n`.
pub fn decimal_text(n: u64) -> (r: String)
    ensures
        r@ == decimal_digits(n as nat),
{
    let mut s = String::new();
    push_decimal(&mut s, n);
    assert(s@ =~= decimal_digits(n as nat));
    s
}

pub proof fn lemma_decimal_digits(n: nat)
    ensures
        decimal_digits(n).len() > 0,
        all_digits(decimal_digits(n)),
        decimal_digits(n)[0] != '+',
        digits_value(decimal_digits(n)) == n,
    decreases n,
{
    assert(digit_value(digit_of((n % 10) as int)) == n % 10);
    if n < 10 {
        assert(decimal_digits(n).drop_last() =~= Seq::<char>::empty());
        assert(digit_value(digit_of(n as int)) == n);
        assert(digits_value(decimal_digits(n).drop_last()) == 0);
        assert(decimal_digits(n).last() == digit_of(n as int));
    }
    if n >= 10 {
        lemma_decimal_digits(n / 10);
        assert(10 * (n / 10) + n % 10 == n);
        let d = decimal_digits(n);
        assert(d.drop_last() =~= decimal_digits(n / 10));
        assert forall|i: int| 0 <= i < d.len() implies is_digit(#[trigger] d[i]) by {
            if i < d.len() - 1 {
                assert(d[i] == decimal_digits(n / 10)[i]);
            }
        }
        assert(d[0] == decimal_digits(n / 10)[0]);
        assert(d.last() == digit_of((n % 10) as int));
        assert(digits_value(d) == 10 * digits_value(d.drop_last()) + digit_value(d.last()));
        assert(digits_value(d.drop_last()) == n / 10);
    }
}

/// Reading back the decimal text of a number gives the number.
pub proof fn law_decimal_reads_back(n: nat, max: int)
    requires
        n <= max,
    ensures
        parse_unsigned_spec(decimal_digits(n), max) == Some(n as int),
{
    lemma_decimal_digits(n);
    assert(unsigned_digits(decimal_digits(n)) == decimal_digits(n));
}

/// `s` right-aligned in `width` columns: spaces before it as needed.
pub open spec fn right_aligned(s: Seq<char>, width: int) -> Seq<char> {
    if s.len() < width {
        Seq::new((width - s.len()) as nat, |i: int| ' ') + s
    } else {
        s
    }
}

fn spaces(out: &mut String, n: usize)
    ensures
        final(out)@ == old(out)@ + Seq::new(n as nat, |i: int| ' '),
{
    let mut k: usize = 0;
    while k < n
        invariant
            k <= n,
            out@ == old(out)@ + Seq::new(k as nat, |i: int| ' '),
        decreases n - k,
    {
        push_char(out, ' ');
        k = k + 1;
        assert(out@ =~= old(out)@ + Seq::new(k as nat, |i: int| ' '));
    }
}

/// The decimal text of `n` right-aligned in `width` columns.
pub fn number_right_aligned(n: u64, width: usize) -> (r: String)
    ensures
        r@ == right_aligned(decimal_digits(n as nat), width as int),
{
    let digits = decimal_text(n);
    let len = digits.as_str().unicode_len();
    let mut out = String::new();
    if len < width {
        spaces(&mut out, width - len);
    }
    out.append(digits.as_str());
    assert(out@ =~= right_aligned(decimal_digits(n as nat), width as int));
    out
}

/// How many columns a number column takes: the digits of the largest
/// number, at least `min`.
pub fn number_columns(largest: u64, min: usize) -> (r: usize)
    ensures
        r == if decimal_digits(largest as nat).len() > min {
            decimal_digits(largest as nat).len() as int
        } else {
            min as int
        },
{
    let len = decimal_text(largest).as_str().unicode_len();
    if len > min {
        len
    } else {
        min
    }
}

// ---------------------------------------------------------------------------
// Gutter text
// ---------------------------------------------------------------------------

/// The number shown before a line of the document: right-aligned in four
/// columns.
pub fn line_number_label(line_num: u64) -> (r: String)
    ensures
        r@ == right_aligned(decimal_digits(line_num as nat), 4),
{
    number_right_aligned(line_num, 4)
}

/// A line number of a diff line in a column of `width`: blank for a line
/// the side lacks.
pub open spec fn gutter_number(n: Option<usize>, width: int) -> Seq<char> {
    match n {
        Some(v) => right_aligned(decimal_digits(v as nat), width),
        None => Seq::new(width as nat, |i: int| ' '),
    }
}

/// A line number of a diff line in a column of `width`.
pub fn gutter_number_text(n: Option<usize>, width: usize) -> (r: String)
    ensures
        r@ == gutter_number(n, width as int),
{
    match n {
        Some(v) => number_right_aligned(v as u64, width),
        None => {
            let mut out = String::new();
            spaces(&mut out, width);
            assert(out@ =~= Seq::new(width as nat, |i: int| ' '));
            out
        },
    }
}

/// The mark before a diff line: `+` for an added line, `-` for a removed
/// one, a blank for an unchanged one.
pub open spec fn diff_prefix_spec(tag: DiffLineTag) -> char {
    match tag {
        DiffLineTag::Insert => '+',
        DiffLineTag::Delete => '-',
        DiffLineTag::Equal => ' ',
    }
}

/// The mark before a diff line.
pub fn diff_prefix(tag: DiffLineTag) -> (c: char)
    ensures
        c == diff_prefix_spec(tag),
{
    match tag {
        DiffLineTag::Insert => '+',
        DiffLineTag::Delete => '-',
        DiffLineTag::Equal => ' ',
    }
}

/// The text of a collapsed run of unchanged lines.
pub open spec fn collapsed_label_spec(count: usize) -> Seq<char> {
    "\u{b7}\u{b7}\u{b7} "@ + decimal_digits(count as nat) + " lines \u{b7}\u{b7}\u{b7}"@
}

/// The text of a collapsed run of `count` unchanged lines.
pub fn collapsed_label(count: usize) -> (r: String)
    ensures
        r@ == collapsed_label_spec(count),
{
    let mut out = String::new();
    out.append("\u{b7}\u{b7}\u{b7} ");
    out.append(decimal_text(count as u64).as_str());
    out.append(" lines \u{b7}\u{b7}\u{b7}");
    out
}

/// The title of an editor tab: `Diff` for a diff, `Untitled` with no file,
/// else the file's name, marked with `*` while it has unsaved changes.
pub open spec fn editor_tab_label_spec(diff_mode: bool, file_name: Option<&str>, dirty: bool) -> Seq<char> {
    if diff_mode {
        "Diff"@
    } else {
        match file_name {
            None => "Untitled"@,
            Some(name) => if dirty {
                name@ + "*"@
            } else {
                name@
            },
        }
    }
}

/// The title of an editor tab.
pub fn editor_tab_label(diff_mode: bool, file_name: Option<&str>, dirty: bool) -> (r: String)
    ensures
        r@ == editor_tab_label_spec(diff_mode, file_name, dirty),
{
    let mut out = String::new();
    if diff_mode {
        out.append("Diff");
    } else {
        match file_name {
            None => out.append("Untitled"),
            Some(name) => {
                out.append(name);
                if dirty {
                    out.append("*");
                }
            },
        }
    }
    out
}

// ---------------------------------------------------------------------------
// The visible part of the document
// ---------------------------------------------------------------------------

/// A line without its trailing line breaks.
pub open spec fn without_newlines(s: Seq<char>) -> Seq<char>
    decreases s.len(),
{
    if s.len() > 0 && s.last() == '\n' {
        without_newlines(s.drop_last())
    } else {
        s
    }
}

/// How many lines show from line `scroll` on: at most `count`, and no
/// more than the document has after it.
pub open spec fn shown_count(n: int, scroll: int, count: int) -> int {
    if scroll >= n {
        0
    } else if n - scroll < count {
        n - scroll
    } else {
        count
    }
}

/// The lines shown from line `scroll` on in a view of `count` lines: each
/// with its number, counted from 1, and its text without trailing line
/// breaks.
pub open spec fn visible_lines_spec(lines: Seq<String>, scroll: int, count: int) -> Seq<(usize, Seq<char>)> {
    Seq::new(
        shown_count(lines.len() as int, scroll, count) as nat,
        |i: int| ((scroll + i + 1) as usize, without_newlines(lines[scroll + i]@)),
    )
}

fn strip_newlines(s: &String) -> (r: String)
    ensures
        r@ == without_newlines(s@),
{
    let cs = crate::text::chars_of(s.as_str());
    let mut end = cs.len();
    assert(cs@.take(end as int) =~= cs@);
    while end > 0 && cs[end - 1] == '\n'
        invariant
            end <= cs.len(),
            without_newlines(cs@) == without_newlines(cs@.take(end as int)),
        decreases end,
    {
        assert(cs@.take(end as int).drop_last() =~= cs@.take(end - 1));
        end = end - 1;
    }
    assert(cs@.take(end as int).len() == 0 || cs@.take(end as int).last() != '\n');
    let r = crate::text::string_of(&cs, 0, end);
    assert(r@ =~= cs@.take(end as int));
    assert(cs@ =~= s@);
    r
}

/// The lines shown from line `scroll_offset` on in a view of
/// `visible_count` lines.
pub fn visible_lines(lines: &[String], scroll_offset: usize, visible_count: usize) -> (r: Vec<(usize, String)>)
    requires
        scroll_offset + visible_count <= usize::MAX,
    ensures
        r@.len() == visible_lines_spec(lines@, scroll_offset as int, visible_count as int).len(),
        forall|i: int|
            0 <= i < r@.len() ==> r@[i].0 == visible_lines_spec(lines@, scroll_offset as int, visible_count as int)[i].0
                && r@[i].1@ == visible_lines_spec(lines@, scroll_offset as int, visible_count as int)[i].1,
{
    let ghost goal = visible_lines_spec(lines@, scroll_offset as int, visible_count as int);
    let mut r: Vec<(usize, String)> = Vec::new();
    let mut i: usize = 0;
    while i < visible_count
        invariant
            i <= visible_count,
            scroll_offset + visible_count <= usize::MAX,
            goal == visible_lines_spec(lines@, scroll_offset as int, visible_count as int),
            r@.len() == shown_count(lines@.len() as int, scroll_offset as int, i as int),
            forall|k: int| 0 <= k < r@.len() ==> #[trigger] r@[k].0 == goal[k].0 && r@[k].1@ == goal[k].1,
        decreases visible_count - i,
    {
        let line_idx = scroll_offset + i;
        if line_idx < lines.len() {
            let text = strip_newlines(&lines[line_idx]);
            let ghost k = r@.len() as int;
            assert(k == i);
            assert(goal.len() > i);
            assert(goal[k] == ((scroll_offset + k + 1) as usize, without_newlines(lines@[scroll_offset + k]@)));
            r.push((line_idx + 1, text));
            assert(r@[k].0 == goal[k].0 && r@[k].1@ == goal[k].1);
        }
        i = i + 1;
    }
    assert forall|k: int| 0 <= k < r@.len() implies r@[k].0 == goal[k].0 && r@[k].1@ == goal[k].1 by {
        assert(r@[k].0 == goal[k].0);
    }
    r
}

/// The screen row of the cursor in a view of `count` lines from line
/// `scroll` on, if it is in view.
pub open spec fn cursor_row_spec(cursor_line: usize, scroll: usize, count: usize) -> Option<usize> {
    if scroll <= cursor_line < scroll + count {
        Some((cursor_line - scroll) as usize)
    } else {
        None
    }
}

/// The screen row of the cursor, if it is in view.
pub fn cursor_row(cursor_line: usize, scroll_offset: usize, visible_count: usize) -> (r: Option<usize>)
    requires
        scroll_offset + visible_count <= usize::MAX,
    ensures
        r == cursor_row_spec(cursor_line, scroll_offset, visible_count),
{
    if cursor_line >= scroll_offset && cursor_line < scroll_offset + visible_count {
        Some(cursor_line - scroll_offset)
    } else {
        None
    }
}

/// The lines that keep the cursor in view: scrolled up to the cursor when
/// it is above the view, down to show it on the last row when it is below.
pub open spec fn scroll_for_cursor_spec(cursor_line: usize, scroll: usize, rows: usize) -> usize {
    if cursor_line < scroll {
        cursor_line
    } else if cursor_line >= scroll + rows {
        (cursor_line - rows + 1) as usize
    } else {
        scroll
    }
}

/// The first line shown once the view scrolls to keep the cursor in view.
pub fn scroll_for_cursor(cursor_line: usize, scroll_offset: usize, visible_rows: usize) -> (r: usize)
    requires
        scroll_offset + visible_rows <= usize::MAX,
        visible_rows >= 1,
    ensures
        r == scroll_for_cursor_spec(cursor_line, scroll_offset, visible_rows),
        r <= cursor_line < r + visible_rows,
{
    if cursor_line < scroll_offset {
        cursor_line
    } else if cursor_line >= scroll_offset + visible_rows {
        cursor_line - visible_rows + 1
    } else {
        scroll_offset
    }
}

/// The selected columns of one visible row.
#[derive(Clone, Copy, Debug, PartialEq, Eq, Structural)]
pub struct RowSelection {
    pub row: usize,
    pub start_col: usize,
    pub end_col: usize,
}

/// The selected part of visible row `idx`, showing line number `line_num`
/// whose text is `text`, for a selection from `start` to `end`: none off
/// the selected lines; from the selection's start on its first line, else
/// from 0; to its end on its last line, else to the end of the line; and
/// none when nothing is selected on the row, save a line break between
/// lines.
pub open spec fn row_selection(idx: int, line_num: usize, text: Seq<char>, start: (usize, usize), end: (usize, usize)) -> Option<
    RowSelection,
> {
    let line = line_num - 1;
    let len = byte_offset(text) as int;
    if line < start.0 || line > end.0 {
        None
    } else {
        let s: int = if line == start.0 {
            start.1 as int
        } else {
            0
        };
        let e: int = if line == end.0 {
            end.1 as int
        } else {
            len
        };
        if s < e || (line != end.0 && s <= len) {
            Some(
                RowSelection {
                    row: idx as usize,
                    start_col: s as usize,
                    end_col: if line == end.0 {
                        e as usize
                    } else if len > s {
                        len as usize
                    } else {
                        s as usize
                    },
                },
            )
        } else {
            None
        }
    }
}

/// The selected parts of the first `n` visible rows.
pub open spec fn rows_selection(rows: Seq<(usize, Seq<char>)>, start: (usize, usize), end: (usize, usize), n: int) -> Seq<
    RowSelection,
>
    decreases n,
{
    if n <= 0 {
        Seq::empty()
    } else {
        let rest = rows_selection(rows, start, end, n - 1);
        match row_selection(n - 1, rows[n - 1].0, rows[n - 1].1, start, end) {
            Some(r) => rest.push(r),
            None => rest,
        }
    }
}

/// The normalized ends of a selection.
pub open spec fn sel_ends(sel: Selection) -> ((usize, usize), (usize, usize)) {
    let a = (sel.anchor_line, sel.anchor_col);
    let b = (sel.end_line, sel.end_col);
    if pos_le(a, b) {
        (a, b)
    } else {
        (b, a)
    }
}

pub open spec fn row_views(rows: Seq<(usize, String)>) -> Seq<(usize, Seq<char>)> {
    rows.map_values(|r: (usize, String)| (r.0, r.1@))
}

/// The selected part of each visible row; nothing for an empty selection.
pub fn selection_rows(rows: &[(usize, String)], selection: &Selection) -> (r: Vec<RowSelection>)
    requires
        forall|i: int| 0 <= i < rows@.len() ==> (#[trigger] rows@[i]).0 >= 1,
    ensures
        r@ == if selection.anchor_line == selection.end_line && selection.anchor_col == selection.end_col {
            Seq::empty()
        } else {
            rows_selection(row_views(rows@), sel_ends(*selection).0, sel_ends(*selection).1, rows@.len() as int)
        },
{
    let mut r: Vec<RowSelection> = Vec::new();
    if selection.is_empty() {
        return r;
    }
    let (start, end) = selection.normalized();
    let ghost rv = row_views(rows@);
    let mut idx: usize = 0;
    while idx < rows.len()
        invariant
            idx <= rows.len(),
            rv == row_views(rows@),
            forall|i: int| 0 <= i < rows@.len() ==> (#[trigger] rows@[i]).0 >= 1,
            (start, end) == sel_ends(*selection),
            r@ == rows_selection(rv, start, end, idx as int),
        decreases rows.len() - idx,
    {
        let line_num = rows[idx].0;
        let line = line_num - 1;
        assert(rv[idx as int] == (rows@[idx as int].0, rows@[idx as int].1@));
        if !(line < start.0 || line > end.0) {
            let len = rows[idx].1.as_str().len();
            let s = if line == start.0 {
                start.1
            } else {
                0
            };
            let e = if line == end.0 {
                end.1
            } else {
                len
            };
            if s < e || (line != end.0 && s <= len) {
                let end_col = if line == end.0 {
                    e
                } else if len > s {
                    len
                } else {
                    s
                };
                r.push(RowSelection { row: idx, start_col: s, end_col });
            }
        }
        idx = idx + 1;
    }
    r
}

// ---------------------------------------------------------------------------
// Diff views
// ---------------------------------------------------------------------------

/// The largest of the numbers present among the first `n` of `nums`, or 0.
pub open spec fn largest_present(nums: Seq<Option<usize>>, n: int) -> usize
    decreases n,
{
    if n <= 0 {
        0
    } else {
        let m = largest_present(nums, n - 1);
        match nums[n - 1] {
            Some(v) => if v > m {
                v
            } else {
                m
            },
            None => m,
        }
    }
}

/// The largest old and new line numbers of a diff, which set the widths
/// of its number columns; 0 for a side with no numbers.
pub fn diff_number_maxima(lines: &[DiffLine]) -> (r: (usize, usize))
    ensures
        r.0 == largest_present(lines@.map_values(|l: DiffLine| l.old_line_num), lines@.len() as int),
        r.1 == largest_present(lines@.map_values(|l: DiffLine| l.new_line_num), lines@.len() as int),
{
    let ghost olds = lines@.map_values(|l: DiffLine| l.old_line_num);
    let ghost news = lines@.map_values(|l: DiffLine| l.new_line_num);
    let mut max_old: usize = 0;
    let mut max_new: usize = 0;
    let mut i: usize = 0;
    while i < lines.len()
        invariant
            i <= lines.len(),
            olds == lines@.map_values(|l: DiffLine| l.old_line_num),
            news == lines@.map_values(|l: DiffLine| l.new_line_num),
            max_old == largest_present(olds, i as int),
            max_new == largest_present(news, i as int),
        decreases lines.len() - i,
    {
        assert(olds[i as int] == lines@[i as int].old_line_num);
        assert(news[i as int] == lines@[i as int].new_line_num);
        match lines[i].old_line_num {
            Some(v) => if v > max_old {
                max_old = v;
            },
            None => {},
        }
        match lines[i].new_line_num {
            Some(v) => if v > max_new {
                max_new = v;
            },
            None => {},
        }
        i = i + 1;
    }
    (max_old, max_new)
}

} // verus!
