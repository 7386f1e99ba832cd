//! Character-level helpers shared by the parsers: line splitting, blank
//! tests, decimal parsing, byte offsets and lexicographic comparison.
use vstd::prelude::*;

verus! {

/// The characters of a string slice, in order.
pub fn chars_of(s: &str) -> (out: Vec<char>)
    ensures
        out@ == s@,
{
    let mut out: Vec<char> = Vec::new();
    for c in it: s.chars()
        invariant
            out@ == it.seq().take(it.index() as int),
    {
        out.push(c);
    }
    out
}

/// `String::push`: appends one character at the end of the string.
#[verifier::external_body]
pub(crate) fn push_char(s: &mut String, c: char)
    ensures
        final(s)@ == old(s)@.push(c),
{
    s.push(c);
}

/// A new string holding `chars[from..to]`.
pub fn string_of(chars: &Vec<char>, from: usize, to: usize) -> (out: String)
    requires
        from <= to <= chars.len(),
    ensures
        out@ == chars@.subrange(from as int, to as int),
{
    let mut out = String::new();
    let mut i = from;
    while i < to
        invariant
            from <= i <= to <= chars.len(),
            out@ == chars@.subrange(from as int, i as int),
        decreases to - i,
    {
        push_char(&mut out, chars[i]);
        i = i + 1;
        assert(out@ =~= chars@.subrange(from as int, i as int));
    }
    out
}

/// A new string holding all of `chars`.
pub fn string_of_all(chars: &Vec<char>) -> (out: String)
    ensures
        out@ == chars@,
{
    let out = string_of(chars, 0, chars.len());
    assert(chars@.subrange(0, chars@.len() as int) =~= chars@);
    out
}

/// Appends `chars[from..to]` to `out`.
pub fn append_chars(out: &mut String, chars: &Vec<char>, from: usize, to: usize)
    requires
        from <= to <= chars.len(),
    ensures
        final(out)@ == old(out)@ + chars@.subrange(from as int, to as int),
{
    let mut i = from;
    while i < to
        invariant
            from <= i <= to <= chars.len(),
            out@ == old(out)@ + chars@.subrange(from as int, i as int),
        decreases to - i,
    {
        push_char(out, chars[i]);
        i = i + 1;
        assert(out@ =~= old(out)@ + chars@.subrange(from as int, i as int));
    }
}

// ---------------------------------------------------------------------------
// Lines
// ---------------------------------------------------------------------------

/// A line with one trailing carriage return removed, if it has one.
pub open spec fn strip_cr(l: Seq<char>) -> Seq<char> {
    if l.len() > 0 && l.last() == '\r' {
        l.drop_last()
    } else {
        l
    }
}

/// The index of the first `'\n'` at or after `from`, or the length of `s`.
pub open spec fn line_end(s: Seq<char>, from: int) -> int
    decreases s.len() - from,
{
    if from >= s.len() {
        s.len() as int
    } else if s[from] == '\n' {
        from
    } else {
        line_end(s, from + 1)
    }
}

pub proof fn lemma_line_end(s: Seq<char>, from: int)
    requires
        0 <= from <= s.len(),
    ensures
        from <= line_end(s, from) <= s.len(),
        line_end(s, from) < s.len() ==> s[line_end(s, from)] == '\n',
        forall|i: int| from <= i < line_end(s, from) ==> s[i] != '\n',
    decreases s.len() - from,
{
    if from < s.len() && s[from] != '\n' {
        lemma_line_end(s, from + 1);
    }
}

/// The lines of `s` from position `from` on, as `str::lines` yields them:
/// split at each `'\n'`, one `'\r'` before a `'\n'` dropped, and no empty
/// line after a final `'\n'`.
pub open spec fn lines_from(s: Seq<char>, from: int) -> Seq<Seq<char>>
    decreases s.len() - from,
{
    if from < 0 || from >= s.len() {
        Seq::empty()
    } else {
        proof {
            lemma_line_end(s, from);
        }
        let e = line_end(s, from);
        if e >= s.len() {
            seq![s.subrange(from, s.len() as int)]
        } else {
            seq![strip_cr(s.subrange(from, e))] + lines_from(s, e + 1)
        }
    }
}

/// The lines of `s`, as `str::lines` yields them.
pub open spec fn lines_of(s: Seq<char>) -> Seq<Seq<char>> {
    lines_from(s, 0)
}

/// The pieces of `s` that the index pairs of `r` delimit.
pub open spec fn spans(s: Seq<char>, r: Seq<(usize, usize)>) -> Seq<Seq<char>> {
    Seq::new(r.len(), |k: int| s.subrange(r[k].0 as int, r[k].1 as int))
}

/// The start and end index of each line of `s`.
pub fn line_ranges(s: &Vec<char>) -> (r: Vec<(usize, usize)>)
    ensures
        spans(s@, r@) == lines_of(s@),
        forall|k: int| 0 <= k < r.len() ==> (#[trigger] r[k]).0 <= r[k].1 <= s.len(),
{
    let n = s.len();
    let mut r: Vec<(usize, usize)> = Vec::new();
    let mut pos: usize = 0;
    assert(spans(s@, r@) + lines_from(s@, 0) =~= lines_of(s@));
    while pos < n
        invariant
            n == s.len(),
            pos <= n,
            spans(s@, r@) + lines_from(s@, pos as int) == lines_of(s@),
            forall|k: int| 0 <= k < r.len() ==> (#[trigger] r[k]).0 <= r[k].1 <= s.len(),
        decreases n - pos,
    {
        let mut e = pos;
        while e < n && s[e] != '\n'
            invariant
                n == s.len(),
                pos <= e <= n,
                forall|i: int| pos <= i < e ==> s[i] != '\n',
            decreases n - e,
        {
            e = e + 1;
        }
        proof {
            lemma_line_end(s@, pos as int);
            assert(line_end(s@, pos as int) == e) by {
                if line_end(s@, pos as int) < e {
                    assert(s@[line_end(s@, pos as int)] == '\n');
                }
                if line_end(s@, pos as int) > e {
                    assert(s@[e as int] == '\n');
                }
            }
        }
        let ghost old_r = r@;
        if e == n {
            r.push((pos, n));
            proof {
                assert(lines_from(s@, pos as int) == seq![s@.subrange(pos as int, n as int)]);
                assert(spans(s@, r@) =~= spans(s@, old_r).push(s@.subrange(pos as int, n as int)));
                assert(lines_from(s@, n as int) =~= Seq::<Seq<char>>::empty());
                assert(spans(s@, r@) + lines_from(s@, n as int) =~= spans(s@, old_r) + lines_from(s@, pos as int));
            }
            pos = n;
        } else {
            let end = if e > pos && s[e - 1] == '\r' { e - 1 } else { e };
            r.push((pos, end));
            proof {
                let l = s@.subrange(pos as int, e as int);
                assert(strip_cr(l) =~= s@.subrange(pos as int, end as int));
                assert(lines_from(s@, pos as int) == seq![strip_cr(l)] + lines_from(s@, e + 1));
                assert(spans(s@, r@) =~= spans(s@, old_r).push(strip_cr(l)));
                assert(spans(s@, r@) + lines_from(s@, e + 1) =~= spans(s@, old_r) + lines_from(s@, pos as int));
            }
            pos = e + 1;
        }
    }
    proof {
        assert(lines_from(s@, pos as int) =~= Seq::<Seq<char>>::empty());
        assert(spans(s@, r@) + lines_from(s@, pos as int) =~= spans(s@, r@));
    }
    r
}


// ---------------------------------------------------------------------------
// Character classes
// ---------------------------------------------------------------------------

/// `char::is_whitespace`: the characters with the Unicode `White_Space`
/// property.
pub open spec fn is_white_space(c: char) -> bool {
    let v = c as int;
    ||| 0x09 <= v <= 0x0d
    ||| v == 0x20
    ||| v == 0x85
    ||| v == 0xa0
    ||| v == 0x1680
    ||| 0x2000 <= v <= 0x200a
    ||| v == 0x2028
    ||| v == 0x2029
    ||| v == 0x202f
    ||| v == 0x205f
    ||| v == 0x3000
}

/// The code point of a character.
pub fn code_point(c: char) -> (v: u32)
    ensures
        v == c as int,
{
    c as u32
}

pub fn is_white_space_char(c: char) -> (b: bool)
    ensures
        b == is_white_space(c),
{
    let v = code_point(c);
    (0x09 <= v && v <= 0x0d) || v == 0x20 || v == 0x85 || v == 0xa0 || v == 0x1680 || (0x2000
        <= v && v <= 0x200a) || v == 0x2028 || v == 0x2029 || v == 0x202f || v == 0x205f || v
        == 0x3000
}

/// The text is empty once surrounding white space is trimmed.
pub open spec fn is_blank_text(s: Seq<char>) -> bool {
    forall|i: int| 0 <= i < s.len() ==> is_white_space(#[trigger] s[i])
}

/// Whether `s.trim().is_empty()`.
pub fn is_blank(s: &Vec<char>) -> (b: bool)
    ensures
        b == is_blank_text(s@),
{
    let mut i: usize = 0;
    while i < s.len()
        invariant
            i <= s.len(),
            forall|j: int| 0 <= j < i ==> is_white_space(#[trigger] s@[j]),
        decreases s.len() - i,
    {
        if !is_white_space_char(s[i]) {
            return false;
        }
        i = i + 1;
    }
    true
}

// ---------------------------------------------------------------------------
// UTF-8 byte offsets
// ---------------------------------------------------------------------------

/// The number of bytes of the UTF-8 encoding of `c`.
pub open spec fn utf8_width(c: char) -> int {
    let v = c as int;
    if v < 0x80 {
        1
    } else if v < 0x800 {
        2
    } else if v < 0x10000 {
        3
    } else {
        4
    }
}

/// The number of bytes of the UTF-8 encoding of `s`.
pub open spec fn byte_len(s: Seq<char>) -> int
    decreases s.len(),
{
    if s.len() == 0 {
        0
    } else {
        byte_len(s.drop_last()) + utf8_width(s.last())
    }
}

pub proof fn lemma_byte_len_grows(s: Seq<char>, i: int)
    requires
        0 <= i < s.len(),
    ensures
        byte_len(s.take(i + 1)) == byte_len(s.take(i)) + utf8_width(s[i]),
        byte_len(s.take(i)) >= i,
{
    assert(s.take(i + 1).drop_last() =~= s.take(i));
    lemma_byte_len_at_least(s.take(i));
}

pub proof fn lemma_byte_len_at_least(s: Seq<char>)
    ensures
        byte_len(s) >= s.len(),
    decreases s.len(),
{
    if s.len() > 0 {
        lemma_byte_len_at_least(s.drop_last());
    }
}

pub proof fn lemma_byte_len_strictly_grows(s: Seq<char>, i: int, j: int)
    requires
        0 <= i < j <= s.len(),
    ensures
        byte_len(s.take(i)) < byte_len(s.take(j)),
    decreases j - i,
{
    lemma_byte_len_grows(s, j - 1);
    if i < j - 1 {
        lemma_byte_len_strictly_grows(s, i, j - 1);
    }
}

/// The number of leading characters of `s` that fill exactly `n` bytes of
/// its UTF-8 encoding, if `n` falls on a character boundary.
pub fn chars_in_bytes(s: &Vec<char>, n: usize) -> (r: Option<usize>)
    ensures
        match r {
            Some(j) => j <= s.len() && byte_len(s@.take(j as int)) == n,
            None => forall|j: int| 0 <= j <= s.len() ==> byte_len(#[trigger] s@.take(j)) != n,
        },
{
    let mut i: usize = 0;
    let mut bytes: usize = 0;
    assert(s@.take(0) =~= Seq::<char>::empty());
    while i < s.len() && bytes < n
        invariant
            i <= s.len(),
            bytes <= n,
            bytes == byte_len(s@.take(i as int)),
            forall|j: int| 0 <= j < i ==> byte_len(#[trigger] s@.take(j)) < n,
        decreases s.len() - i,
    {
        let v = code_point(s[i]);
        let w: usize = if v < 0x80 {
            1
        } else if v < 0x800 {
            2
        } else if v < 0x10000 {
            3
        } else {
            4
        };
        assert(w == utf8_width(s@[i as int]));
        proof {
            lemma_byte_len_grows(s@, i as int);
        }
        if w > n - bytes {
            proof {
                assert forall|j: int| 0 <= j <= s.len() implies byte_len(#[trigger] s@.take(j)) != n by {
                    if j > i + 1 {
                        lemma_byte_len_strictly_grows(s@, i + 1, j);
                    }
                }
            }
            return None;
        }
        bytes = bytes + w;
        i = i + 1;
    }
    if bytes == n {
        Some(i)
    } else {
        proof {
            assert forall|j: int| 0 <= j <= s.len() implies byte_len(#[trigger] s@.take(j)) != n by {
                if j > i {
                    lemma_byte_len_strictly_grows(s@, i as int, j);
                }
            }
        }
        None
    }
}

// ---------------------------------------------------------------------------
// Decimal numbers
// ---------------------------------------------------------------------------

pub open spec fn is_digit(c: char) -> bool {
    0x30 <= (c as int) <= 0x39
}

pub open spec fn digit_value(c: char) -> int {
    (c as int) - 0x30
}

/// The value of a string of decimal digits.
pub open spec fn digits_value(d: Seq<char>) -> int
    decreases d.len(),
{
    if d.len() == 0 {
        0
    } else {
        10 * digits_value(d.drop_last()) + digit_value(d.last())
    }
}

pub open spec fn all_digits(d: Seq<char>) -> bool {
    forall|i: int| 0 <= i < d.len() ==> is_digit(#[trigger] d[i])
}

/// The digits of an unsigned number: one leading `'+'` is allowed.
pub open spec fn unsigned_digits(s: Seq<char>) -> Seq<char> {
    if s.len() > 0 && s[0] == '+' {
        s.drop_first()
    } else {
        s
    }
}

/// What `str::parse` gives for an unsigned integer type whose largest value
/// is `max`: the value when the text is an optional `'+'` followed by at
/// least one decimal digit and the value fits.
pub open spec fn parse_unsigned_spec(s: Seq<char>, max: int) -> Option<int> {
    let d = unsigned_digits(s);
    if d.len() > 0 && all_digits(d) && digits_value(d) <= max {
        Some(digits_value(d))
    } else {
        None
    }
}

pub proof fn lemma_digits_step(d: Seq<char>, i: int)
    requires
        0 <= i < d.len(),
    ensures
        digits_value(d.take(i + 1)) == 10 * digits_value(d.take(i)) + digit_value(d[i]),
{
    assert(d.take(i + 1).drop_last() =~= d.take(i));
}

pub proof fn lemma_digits_monotone(d: Seq<char>, i: int, j: int)
    requires
        0 <= i <= j <= d.len(),
        all_digits(d),
    ensures
        digits_value(d.take(i)) <= digits_value(d.take(j)),
    decreases j - i,
{
    if i < j {
        lemma_digits_monotone(d, i, j - 1);
        lemma_digits_step(d, j - 1);
        lemma_digits_nonneg(d.take(j - 1));
        assert(is_digit(d[j - 1]));
    }
}

pub proof fn lemma_digits_nonneg(d: Seq<char>)
    requires
        all_digits(d),
    ensures
        digits_value(d) >= 0,
    decreases d.len(),
{
    if d.len() > 0 {
        assert(all_digits(d.drop_last()));
        lemma_digits_nonneg(d.drop_last());
        assert(is_digit(d[d.len() - 1]));
    }
}

/// Parses `s[from..to]` as `str::parse` parses an unsigned integer no larger
/// than `max`.
pub fn parse_unsigned(s: &Vec<char>, from: usize, to: usize, max: u64) -> (r: Option<u64>)
    requires
        from <= to <= s.len(),
    ensures
        match parse_unsigned_spec(s@.subrange(from as int, to as int), max as int) {
            Some(v) => r == Some(v as u64) && 0 <= v <= max,
            None => r is None,
        },
        r matches Some(v) ==> v <= max,
{
    let ghost t = s@.subrange(from as int, to as int);
    let start = if from < to && s[from] == '+' { from + 1 } else { from };
    let ghost d = unsigned_digits(t);
    assert(d =~= s@.subrange(start as int, to as int));
    if start == to {
        return None;
    }
    let mut v: u64 = 0;
    let mut i = start;
    assert(d.take(0) =~= Seq::<char>::empty());
    while i < to
        invariant
            from <= start <= i <= to <= s.len(),
            d == s@.subrange(start as int, to as int),
            d == unsigned_digits(s@.subrange(from as int, to as int)),
            forall|k: int| 0 <= k < i - start ==> is_digit(#[trigger] d[k]),
            v == digits_value(d.take(i - start)),
            v <= max,
        decreases to - i,
    {
        let c = s[i];
        assert(d[i - start] == c);
        if c < '0' || c > '9' {
            assert(!is_digit(d[i - start]));
            assert(!all_digits(d));
            return None;
        }
        let dig = (c as u32 - 0x30) as u64;
        assert(dig == digit_value(d[i - start]));
        proof {
            lemma_digits_step(d, i - start);
        }
        let next: u128 = (v as u128) * 10 + dig as u128;
        if next > max as u128 {
            proof {
                let k = (i - start) as int;
                let ghost_all = all_digits(d);
                if ghost_all {
                    lemma_digits_monotone(d, k + 1, d.len() as int);
                    assert(d.take(d.len() as int) =~= d);
                    assert(digits_value(d) > max);
                }
            }
            return None;
        }
        v = next as u64;
        i = i + 1;
    }
    assert(d.take(d.len() as int) =~= d);
    proof {
        lemma_digits_nonneg(d);
    }
    Some(v)
}

// ---------------------------------------------------------------------------
// Lexicographic order
// ---------------------------------------------------------------------------

/// `a <= b` in the order of `str`: character by character, by code point,
/// a proper prefix first.
pub open spec fn lex_le(a: Seq<char>, b: Seq<char>) -> bool
    decreases a.len(),
{
    if a.len() == 0 {
        true
    } else if b.len() == 0 {
        false
    } else if a[0] != b[0] {
        (a[0] as int) < (b[0] as int)
    } else {
        lex_le(a.drop_first(), b.drop_first())
    }
}

pub proof fn lemma_lex_total(a: Seq<char>, b: Seq<char>)
    ensures
        lex_le(a, b) || lex_le(b, a),
    decreases a.len(),
{
    if a.len() > 0 && b.len() > 0 && a[0] == b[0] {
        lemma_lex_total(a.drop_first(), b.drop_first());
    }
}

pub proof fn lemma_lex_trans(a: Seq<char>, b: Seq<char>, c: Seq<char>)
    requires
        lex_le(a, b),
        lex_le(b, c),
    ensures
        lex_le(a, c),
    decreases a.len(),
{
    if a.len() > 0 && b.len() > 0 && c.len() > 0 && a[0] == b[0] && b[0] == c[0] {
        lemma_lex_trans(a.drop_first(), b.drop_first(), c.drop_first());
    }
}

/// Whether `a <= b` in the order of `str`.
pub fn lex_le_chars(a: &Vec<char>, b: &Vec<char>) -> (r: bool)
    ensures
        r == lex_le(a@, b@),
{
    let mut i: usize = 0;
    assert(a@.skip(0) =~= a@);
    assert(b@.skip(0) =~= b@);
    while i < a.len() && i < b.len()
        invariant
            i <= a.len(),
            i <= b.len(),
            lex_le(a@, b@) == lex_le(a@.skip(i as int), b@.skip(i as int)),
        decreases a.len() - i,
    {
        assert(a@.skip(i as int)[0] == a@[i as int]);
        assert(b@.skip(i as int)[0] == b@[i as int]);
        if a[i] != b[i] {
            let r = a[i] < b[i];
            return r;
        }
        assert(a@.skip(i as int).drop_first() =~= a@.skip(i + 1));
        assert(b@.skip(i as int).drop_first() =~= b@.skip(i + 1));
        i = i + 1;
    }
    i == a.len()
}

// ---------------------------------------------------------------------------
// Prefixes, searching and splitting
// ---------------------------------------------------------------------------

/// Whether `s` begins with `p`.
pub open spec fn has_prefix(s: Seq<char>, p: Seq<char>) -> bool {
    p.len() <= s.len() && s.take(p.len() as int) == p
}

/// Whether `s` begins with the character `c`.
pub open spec fn starts_with_char(s: Seq<char>, c: char) -> bool {
    s.len() > 0 && s[0] == c
}

/// The index of the first `c` at or after `from`, or the length of `s`.
pub open spec fn find_char(s: Seq<char>, from: int, c: char) -> int
    decreases s.len() - from,
{
    if from >= s.len() {
        s.len() as int
    } else if s[from] == c {
        from
    } else {
        find_char(s, from + 1, c)
    }
}

pub proof fn lemma_find_char(s: Seq<char>, from: int, c: char)
    requires
        0 <= from <= s.len(),
    ensures
        from <= find_char(s, from, c) <= s.len(),
        find_char(s, from, c) < s.len() ==> s[find_char(s, from, c)] == c,
        forall|i: int| from <= i < find_char(s, from, c) ==> s[i] != c,
    decreases s.len() - from,
{
    if from < s.len() && s[from] != c {
        lemma_find_char(s, from + 1, c);
    }
}

/// The index of the first `c` in `s[from..to]`, or `to`.
pub fn find_char_in(s: &Vec<char>, from: usize, to: usize, c: char) -> (r: usize)
    requires
        from <= to <= s.len(),
    ensures
        r == from + find_char(s@.subrange(from as int, to as int), 0, c),
        from <= r <= to,
{
    let ghost t = s@.subrange(from as int, to as int);
    let mut i = from;
    while i < to && s[i] != c
        invariant
            from <= i <= to <= s.len(),
            t == s@.subrange(from as int, to as int),
            forall|k: int| from <= k < i ==> s@[k] != c,
        decreases to - i,
    {
        i = i + 1;
    }
    proof {
        lemma_find_char(t, 0, c);
        let f = find_char(t, 0, c);
        if f < i - from {
            assert(t[f] == s@[from + f]);
        }
        if f > i - from {
            assert(t[i - from] == s@[i as int]);
        }
    }
    i
}

/// The index of the first occurrence of `p` in `s` at or after `from`.
pub open spec fn find_seq(s: Seq<char>, p: Seq<char>, from: int) -> Option<int>
    decreases s.len() + 1 - from,
{
    if from < 0 || from + p.len() > s.len() {
        None
    } else if s.subrange(from, from + p.len()) == p {
        Some(from)
    } else {
        find_seq(s, p, from + 1)
    }
}

/// A copy of `s[from..to]`.
pub fn copy_range(s: &Vec<char>, from: usize, to: usize) -> (r: Vec<char>)
    requires
        from <= to <= s.len(),
    ensures
        r@ == s@.subrange(from as int, to as int),
{
    let mut r: Vec<char> = Vec::new();
    let mut i = from;
    while i < to
        invariant
            from <= i <= to <= s.len(),
            r@ == s@.subrange(from as int, i as int),
        decreases to - i,
    {
        r.push(s[i]);
        i = i + 1;
        assert(r@ =~= s@.subrange(from as int, i as int));
    }
    r
}

/// Whether `s[from..to]` equals `p`.
pub fn range_eq(s: &Vec<char>, from: usize, to: usize, p: &Vec<char>) -> (b: bool)
    requires
        from <= to <= s.len(),
    ensures
        b == (s@.subrange(from as int, to as int) == p@),
{
    if to - from != p.len() {
        return false;
    }
    let mut i: usize = 0;
    while i < p.len()
        invariant
            to - from == p.len(),
            from <= to <= s.len(),
            i <= p.len(),
            forall|k: int| 0 <= k < i ==> s@[from + k] == p@[k],
        decreases p.len() - i,
    {
        if s[from + i] != p[i] {
            assert(s@.subrange(from as int, to as int)[i as int] != p@[i as int]);
            return false;
        }
        i = i + 1;
    }
    assert(s@.subrange(from as int, to as int) =~= p@);
    true
}

/// Whether `s` begins with `p`.
pub fn has_prefix_chars(s: &Vec<char>, p: &Vec<char>) -> (b: bool)
    ensures
        b == has_prefix(s@, p@),
{
    if p.len() > s.len() {
        false
    } else {
        let b = range_eq(s, 0, p.len(), p);
        assert(s@.subrange(0, p.len() as int) =~= s@.take(p.len() as int));
        b
    }
}

/// The index of the first occurrence of `p` in `s` at or after `from`.
pub fn find_seq_chars(s: &Vec<char>, p: &Vec<char>, from: usize) -> (r: Option<usize>)
    requires
        from <= s.len(),
    ensures
        match find_seq(s@, p@, from as int) {
            Some(k) => r == Some(k as usize),
            None => r is None,
        },
{
    let mut i = from;
    loop
        invariant
            from <= i <= s.len(),
            find_seq(s@, p@, from as int) == find_seq(s@, p@, i as int),
        decreases s.len() - i,
    {
        if p.len() > s.len() - i {
            return None;
        }
        if range_eq(s, i, i + p.len(), p) {
            return Some(i);
        }
        if i == s.len() {
            assert(s@.subrange(i as int, i + p.len()) =~= p@);
            return None;
        }
        i = i + 1;
    }
}

/// The first `sep`-separated field of `s`.
pub open spec fn first_field(s: Seq<char>, sep: char) -> Seq<char> {
    s.take(find_char(s, 0, sep))
}

/// The first `sep`-separated field of `s`, as a copy.
pub fn first_field_of(s: &Vec<char>, sep: char) -> (r: Vec<char>)
    ensures
        r@ == first_field(s@, sep),
{
    let e = find_char_in(s, 0, s.len(), sep);
    assert(s@.subrange(0, s.len() as int) =~= s@);
    let r = copy_range(s, 0, e);
    assert(r@ =~= first_field(s@, sep));
    r
}

/// The leading characters of `s` that fill exactly its first `n` bytes, if
/// byte `n` is a character boundary.
pub open spec fn byte_prefix(s: Seq<char>, n: int) -> Option<Seq<char>> {
    if exists|j: int| 0 <= j <= s.len() && byte_len(s.take(j)) == n {
        Some(s.take(choose|j: int| 0 <= j <= s.len() && byte_len(s.take(j)) == n))
    } else {
        None
    }
}

/// The leading characters of `s` that fill exactly its first `n` bytes.
pub fn byte_prefix_of(s: &Vec<char>, n: usize) -> (r: Option<Vec<char>>)
    ensures
        match byte_prefix(s@, n as int) {
            Some(p) => r matches Some(v) && v@ == p,
            None => r is None,
        },
{
    match chars_in_bytes(s, n) {
        Some(j) => {
            proof {
                assert forall|i: int|
                    0 <= i <= s.len() && byte_len(s@.take(i)) == n implies i == j by {
                    if i < j {
                        lemma_byte_len_strictly_grows(s@, i, j as int);
                    }
                    if i > j {
                        lemma_byte_len_strictly_grows(s@, j as int, i);
                    }
                }
                assert(byte_len(s@.take(j as int)) == n);
            }
            let v = copy_range(s, 0, j);
            assert(v@ =~= s@.take(j as int));
            Some(v)
        },
        None => None,
    }
}

// ---------------------------------------------------------------------------
// Stable sorting by a text key
// ---------------------------------------------------------------------------

/// The first index from `from` on of an element that sorts after `x`.
pub open spec fn insert_index<A>(s: Seq<A>, le: spec_fn(A, A) -> bool, x: A, from: int) -> int
    decreases s.len() - from,
{
    if from >= s.len() {
        s.len() as int
    } else if !le(s[from], x) {
        from
    } else {
        insert_index(s, le, x, from + 1)
    }
}

/// `x` put into `s` before the first element that sorts after it.
pub open spec fn sorted_insert<A>(s: Seq<A>, le: spec_fn(A, A) -> bool, x: A) -> Seq<A> {
    s.insert(insert_index(s, le, x, 0), x)
}

/// The stable sort of `s` by the order `le`: elements that are equal in the
/// order keep their relative positions.
pub open spec fn stable_sort<A>(s: Seq<A>, le: spec_fn(A, A) -> bool) -> Seq<A>
    decreases s.len(),
{
    if s.len() == 0 {
        Seq::empty()
    } else {
        sorted_insert(stable_sort(s.drop_last(), le), le, s.last())
    }
}

pub proof fn lemma_insert_index_bound<A>(s: Seq<A>, le: spec_fn(A, A) -> bool, x: A, from: int)
    requires
        0 <= from <= s.len(),
    ensures
        from <= insert_index(s, le, x, from) <= s.len(),
        forall|j: int| from <= j < insert_index(s, le, x, from) ==> le(s[j], x),
        insert_index(s, le, x, from) < s.len() ==> !le(s[insert_index(s, le, x, from)], x),
    decreases s.len() - from,
{
    if from < s.len() && le(s[from], x) {
        lemma_insert_index_bound(s, le, x, from + 1);
    }
}

pub proof fn lemma_stable_sort_len<A>(s: Seq<A>, le: spec_fn(A, A) -> bool)
    ensures
        stable_sort(s, le).len() == s.len(),
    decreases s.len(),
{
    if s.len() > 0 {
        lemma_stable_sort_len(s.drop_last(), le);
        lemma_insert_index_bound(stable_sort(s.drop_last(), le), le, s.last(), 0);
    }
}

/// An order in which any two elements compare.
pub open spec fn total_order<A>(le: spec_fn(A, A) -> bool) -> bool {
    forall|a: A, b: A| #![trigger le(a, b)] le(a, b) || le(b, a)
}

/// An order that chains.
pub open spec fn transitive_order<A>(le: spec_fn(A, A) -> bool) -> bool {
    forall|a: A, b: A, c: A| #![trigger le(a, b), le(b, c)] le(a, b) && le(b, c) ==> le(a, c)
}

/// Every element is in order with every later one.
pub open spec fn sorted_by<A>(s: Seq<A>, le: spec_fn(A, A) -> bool) -> bool {
    forall|i: int, j: int| 0 <= i < j < s.len() ==> le(#[trigger] s[i], #[trigger] s[j])
}

/// The stable sort by a total, transitive order puts the elements in that
/// order, and it keeps every element, each as often as it was there.
pub proof fn law_stable_sort_sorts<A>(s: Seq<A>, le: spec_fn(A, A) -> bool)
    requires
        total_order(le),
        transitive_order(le),
    ensures
        sorted_by(stable_sort(s, le), le),
        stable_sort(s, le).to_multiset() == s.to_multiset(),
    decreases s.len(),
{
    broadcast use vstd::seq_lib::group_to_multiset_ensures;
    if s.len() > 0 {
        let r = stable_sort(s.drop_last(), le);
        let x = s.last();
        law_stable_sort_sorts(s.drop_last(), le);
        lemma_insert_index_bound(r, le, x, 0);
        let p = insert_index(r, le, x, 0);
        let q = r.insert(p, x);
        assert forall|i: int, j: int| 0 <= i < j < q.len() implies le(#[trigger] q[i], #[trigger] q[j]) by {
            if p < r.len() {
                assert(le(r[p], x) || le(x, r[p]));
            }
            if i < p && j < p {
                assert(q[i] == r[i] && q[j] == r[j]);
            } else if i < p && j == p {
                assert(q[i] == r[i]);
            } else if i < p && j > p {
                assert(q[i] == r[i] && q[j] == r[j - 1]);
                assert(le(r[i], r[j - 1]));
            } else if i == p {
                assert(q[j] == r[j - 1]);
                if j - 1 > p {
                    assert(le(r[p], r[j - 1]));
                }
            } else {
                assert(q[i] == r[i - 1] && q[j] == r[j - 1]);
            }
        }
        vstd::seq_lib::to_multiset_insert(r, p, x);
        assert(s =~= s.drop_last().push(x));
    }
}

/// Every element of the stable sort was an element of the input.
pub proof fn lemma_stable_sort_elements<A>(s: Seq<A>, le: spec_fn(A, A) -> bool)
    ensures
        forall|k: int|
            0 <= k < stable_sort(s, le).len() ==> exists|i: int| 0 <= i < s.len() && s[i] == #[trigger] stable_sort(s, le)[k],
    decreases s.len(),
{
    lemma_stable_sort_len(s, le);
    if s.len() > 0 {
        let r = stable_sort(s.drop_last(), le);
        let x = s.last();
        lemma_stable_sort_elements(s.drop_last(), le);
        lemma_insert_index_bound(r, le, x, 0);
        let p = insert_index(r, le, x, 0);
        assert forall|k: int| 0 <= k < stable_sort(s, le).len() implies exists|i: int|
            0 <= i < s.len() && s[i] == #[trigger] stable_sort(s, le)[k] by {
            let q = stable_sort(s, le);
            if k < p {
                let i = choose|i: int| 0 <= i < s.drop_last().len() && s.drop_last()[i] == #[trigger] r[k];
                assert(s[i] == q[k]);
            } else if k == p {
                assert(s[s.len() - 1] == q[k]);
            } else {
                let i = choose|i: int| 0 <= i < s.drop_last().len() && s.drop_last()[i] == #[trigger] r[k - 1];
                assert(s[i] == q[k]);
            }
        }
    }
}

// ---------------------------------------------------------------------------
// Case mapping
// ---------------------------------------------------------------------------

/// The lowercase form of a text under Unicode's default case mapping, as
/// `str::to_lowercase` gives it.
pub uninterp spec fn lowercase(s: Seq<char>) -> Seq<char>;

/// `str::to_lowercase`: the text mapped to lowercase; what the mapping is
/// for each character is left to the standard library and is not stated
/// here beyond its being a function of the text.
#[verifier::external_body]
pub(crate) fn to_lowercase(s: &str) -> (r: String)
    ensures
        r@ == lowercase(s@),
{
    s.to_lowercase()
}

/// Whether `s` equals the text `lit`.
pub fn chars_are(s: &Vec<char>, lit: &str) -> (b: bool)
    ensures
        b == (s@ == lit@),
{
    let n = chars_of(lit);
    let b = range_eq(s, 0, s.len(), &n);
    assert(s@.subrange(0, s.len() as int) =~= s@);
    b
}
} // verus!
