//! Pull-request details: the rows of the conversation and commit lists, the
//! directories of the changed files, and the patch of one file as diff lines.
use vstd::prelude::*;
use crate::editor_diff::{DiffLine, DiffLineTag, DiffLineView};
use crate::editor_layout::{decimal_digits, law_decimal_reads_back, lemma_decimal_digits};
use crate::text::{
    is_blank, is_blank_text, is_digit, lemma_find_char, lex_le, lex_le_chars, insert_index, lemma_insert_index_bound, sorted_insert,
    stable_sort, chars_in_bytes, byte_len, chars_of, copy_range, find_char, find_char_in, first_field, first_field_of,
    has_prefix, has_prefix_chars, line_ranges, lines_of, parse_unsigned, parse_unsigned_spec, spans,
    starts_with_char, string_of, string_of_all,
};

verus! {

/// The state of a pull request.
#[derive(Clone, Copy, Debug, PartialEq, Eq, Structural)]
pub enum PullRequestState {
    Open,
    Closed,
    Merged,
}

/// The verdict of a review.
#[derive(Clone, Copy, Debug, PartialEq, Eq, Structural)]
pub enum ReviewState {
    Approved,
    ChangesRequested,
    Commented,
    Dismissed,
    Pending,
}

/// How a pull request changed a file.
#[derive(Clone, Copy, Debug, PartialEq, Eq, Structural)]
pub enum PrFileStatus {
    Added,
    Modified,
    Removed,
    Renamed,
    Copied,
    Changed,
}

/// The summary of a pull request.
#[derive(Clone, Debug)]
pub struct PullRequest {
    pub number: u64,
    pub title: String,
    pub state: PullRequestState,
    pub draft: bool,
    pub author_login: String,
    pub base_ref: String,
    pub head_ref: String,
}

/// A comment on the conversation of a pull request.
#[derive(Clone, Debug)]
pub struct PrComment {
    pub author: String,
    pub body: String,
    pub created_at: String,
}

/// A review of a pull request.
#[derive(Clone, Debug)]
pub struct PrReview {
    pub author: String,
    pub body: String,
    pub state: ReviewState,
    pub created_at: String,
}

/// A commit of a pull request.
#[derive(Clone, Debug)]
pub struct PrCommit {
    pub sha: String,
    pub message: String,
    pub author_name: String,
    pub author: Option<String>,
    pub date: String,
}

/// A file that a pull request changes.
#[derive(Clone, Debug)]
pub struct PrFile {
    pub filename: String,
    pub status: PrFileStatus,
    pub additions: u64,
    pub deletions: u64,
    pub patch: Option<String>,
    pub previous_filename: Option<String>,
}

/// Everything loaded about one pull request.
#[derive(Clone, Debug)]
pub struct PrDetail {
    pub body: Option<String>,
    pub comments: Vec<PrComment>,
    pub reviews: Vec<PrReview>,
    pub commits: Vec<PrCommit>,
    pub files: Vec<PrFile>,
}

// ---------------------------------------------------------------------------
// Values the API reports as text
// ---------------------------------------------------------------------------

pub open spec fn chars_eq(s: Seq<char>, lit: Seq<char>) -> bool {
    s == lit
}

/// The review state named by the API: `APPROVED`, `CHANGES_REQUESTED`,
/// `COMMENTED`, `DISMISSED`; anything else is pending.
pub open spec fn review_state_spec(s: Seq<char>) -> ReviewState {
    if s == seq!['A', 'P', 'P', 'R', 'O', 'V', 'E', 'D'] {
        ReviewState::Approved
    } else if s == seq![
        'C', 'H', 'A', 'N', 'G', 'E', 'S', '_', 'R', 'E', 'Q', 'U', 'E', 'S', 'T', 'E', 'D',
    ] {
        ReviewState::ChangesRequested
    } else if s == seq!['C', 'O', 'M', 'M', 'E', 'N', 'T', 'E', 'D'] {
        ReviewState::Commented
    } else if s == seq!['D', 'I', 'S', 'M', 'I', 'S', 'S', 'E', 'D'] {
        ReviewState::Dismissed
    } else {
        ReviewState::Pending
    }
}

fn text_is(s: &Vec<char>, lit: Vec<char>) -> (b: bool)
    ensures
        b == (s@ == lit@),
{
    let b = crate::text::range_eq(s, 0, s.len(), &lit);
    assert(s@.subrange(0, s.len() as int) =~= s@);
    b
}

/// The review state for the state name the API reports.
pub fn review_state_from_api(state: &str) -> (r: ReviewState)
    ensures
        r == review_state_spec(state@),
{
    let s = chars_of(state);
    let approved = vec!['A', 'P', 'P', 'R', 'O', 'V', 'E', 'D'];
    let changes = vec!['C', 'H', 'A', 'N', 'G', 'E', 'S', '_', 'R', 'E', 'Q', 'U', 'E', 'S', 'T', 'E', 'D'];
    let commented = vec!['C', 'O', 'M', 'M', 'E', 'N', 'T', 'E', 'D'];
    let dismissed = vec!['D', 'I', 'S', 'M', 'I', 'S', 'S', 'E', 'D'];
    assert(approved@ =~= seq!['A', 'P', 'P', 'R', 'O', 'V', 'E', 'D']);
    assert(changes@ =~= seq![
        'C', 'H', 'A', 'N', 'G', 'E', 'S', '_', 'R', 'E', 'Q', 'U', 'E', 'S', 'T', 'E', 'D',
    ]);
    assert(commented@ =~= seq!['C', 'O', 'M', 'M', 'E', 'N', 'T', 'E', 'D']);
    assert(dismissed@ =~= seq!['D', 'I', 'S', 'M', 'I', 'S', 'S', 'E', 'D']);
    if text_is(&s, approved) {
        ReviewState::Approved
    } else if text_is(&s, changes) {
        ReviewState::ChangesRequested
    } else if text_is(&s, commented) {
        ReviewState::Commented
    } else if text_is(&s, dismissed) {
        ReviewState::Dismissed
    } else {
        ReviewState::Pending
    }
}

/// The file status named by the API: `added`, `removed`, `renamed`,
/// `copied`, `changed`; anything else is a modification.
pub open spec fn file_status_spec(s: Seq<char>) -> PrFileStatus {
    if s == seq!['a', 'd', 'd', 'e', 'd'] {
        PrFileStatus::Added
    } else if s == seq!['r', 'e', 'm', 'o', 'v', 'e', 'd'] {
        PrFileStatus::Removed
    } else if s == seq!['r', 'e', 'n', 'a', 'm', 'e', 'd'] {
        PrFileStatus::Renamed
    } else if s == seq!['c', 'o', 'p', 'i', 'e', 'd'] {
        PrFileStatus::Copied
    } else if s == seq!['c', 'h', 'a', 'n', 'g', 'e', 'd'] {
        PrFileStatus::Changed
    } else {
        PrFileStatus::Modified
    }
}

/// The file status for the status name the API reports.
pub fn file_status_from_api(status: &str) -> (r: PrFileStatus)
    ensures
        r == file_status_spec(status@),
{
    let s = chars_of(status);
    let added = vec!['a', 'd', 'd', 'e', 'd'];
    let removed = vec!['r', 'e', 'm', 'o', 'v', 'e', 'd'];
    let renamed = vec!['r', 'e', 'n', 'a', 'm', 'e', 'd'];
    let copied = vec!['c', 'o', 'p', 'i', 'e', 'd'];
    let changed = vec!['c', 'h', 'a', 'n', 'g', 'e', 'd'];
    assert(added@ =~= seq!['a', 'd', 'd', 'e', 'd']);
    assert(removed@ =~= seq!['r', 'e', 'm', 'o', 'v', 'e', 'd']);
    assert(renamed@ =~= seq!['r', 'e', 'n', 'a', 'm', 'e', 'd']);
    assert(copied@ =~= seq!['c', 'o', 'p', 'i', 'e', 'd']);
    assert(changed@ =~= seq!['c', 'h', 'a', 'n', 'g', 'e', 'd']);
    if text_is(&s, added) {
        PrFileStatus::Added
    } else if text_is(&s, removed) {
        PrFileStatus::Removed
    } else if text_is(&s, renamed) {
        PrFileStatus::Renamed
    } else if text_is(&s, copied) {
        PrFileStatus::Copied
    } else if text_is(&s, changed) {
        PrFileStatus::Changed
    } else {
        PrFileStatus::Modified
    }
}

// ---------------------------------------------------------------------------
// Time stamps
// ---------------------------------------------------------------------------

/// The date part of an ISO time stamp: everything before the first `'T'`.
pub open spec fn date_part(ts: Seq<char>) -> Seq<char> {
    first_field(ts, 'T')
}

/// The date part of an ISO time stamp.
pub fn format_timestamp(ts: &str) -> (r: String)
    ensures
        r@ == date_part(ts@),
{
    let chars = chars_of(ts);
    let field = first_field_of(&chars, 'T');
    string_of_all(&field)
}

// ---------------------------------------------------------------------------
// Patches
// ---------------------------------------------------------------------------

/// The start lines of a hunk header `@@ -a[,b] +c[,d] @@...`: after `"@@ "`
/// the first two space-separated fields, which must begin with `'-'` and
/// `'+'`, each read up to its first comma as a `usize`.
pub open spec fn hunk_header_spec(h: Seq<char>) -> Option<(usize, usize)> {
    if !has_prefix(h, seq!['@', '@', ' ']) {
        None
    } else {
        let rest = h.skip(3);
        let sp = find_char(rest, 0, ' ');
        if sp >= rest.len() {
            None
        } else {
            let old_part = rest.take(sp);
            let new_part = first_field(rest.skip(sp + 1), ' ');
            if !starts_with_char(old_part, '-') || !starts_with_char(new_part, '+') {
                None
            } else {
                let o = parse_unsigned_spec(first_field(old_part.drop_first(), ','), usize::MAX as int);
                let n = parse_unsigned_spec(first_field(new_part.drop_first(), ','), usize::MAX as int);
                match (o, n) {
                    (Some(a), Some(b)) => Some((a as usize, b as usize)),
                    _ => None,
                }
            }
        }
    }
}

/// `find_char` stops at the first `c` from `from` on.
proof fn lemma_find_char_is(s: Seq<char>, from: int, k: int, c: char)
    requires
        0 <= from <= k <= s.len(),
        k < s.len() ==> s[k] == c,
        forall|i: int| from <= i < k ==> s[i] != c,
    ensures
        find_char(s, from, c) == k,
{
    lemma_find_char(s, from, c);
    let f = find_char(s, from, c);
    if f < k {
        assert(s[f] == c);
    }
    if f > k {
        assert(s[k] != c);
    }
}

/// One range of a hunk header, `-a,b` or `+c,d`: it holds no blank, and
/// the field before its first comma, after the sign, is the number.
proof fn lemma_range_part(sign: char, n: nat, b: Seq<char>)
    requires
        sign != ' ',
        b.len() == 0 || b[0] == ',',
        forall|i: int| 0 <= i < b.len() ==> b[i] != ' ',
    ensures
        ({
            let p = seq![sign] + decimal_digits(n) + b;
            &&& forall|i: int| 0 <= i < p.len() ==> p[i] != ' '
            &&& p.len() > 0 && p[0] == sign
            &&& first_field(p.drop_first(), ',') == decimal_digits(n)
        }),
{
    let dn = decimal_digits(n);
    lemma_decimal_digits(n);
    let p = seq![sign] + dn + b;
    assert forall|i: int| 0 <= i < p.len() implies p[i] != ' ' by {
        if i >= 1 && i < 1 + dn.len() {
            assert(p[i] == dn[i - 1]);
            assert(is_digit(dn[i - 1]));
        } else if i >= 1 + dn.len() {
            assert(p[i] == b[i - 1 - dn.len()]);
        }
    }
    let q = p.drop_first();
    assert(q =~= dn + b);
    assert forall|i: int| 0 <= i < dn.len() implies q[i] != ',' by {
        assert(q[i] == dn[i]);
        assert(is_digit(dn[i]));
    }
    if b.len() > 0 {
        assert(q[dn.len() as int] == b[0]);
    }
    lemma_find_char_is(q, 0, dn.len() as int, ',');
    assert(first_field(q, ',') =~= dn);
}

/// Two blank-free parts around a blank, then a tail that is empty or
/// starts with a blank: the first field is the first part, and the first
/// field after the blank is the second part.
proof fn lemma_two_fields(op: Seq<char>, np: Seq<char>, tail: Seq<char>)
    requires
        forall|i: int| 0 <= i < op.len() ==> op[i] != ' ',
        forall|i: int| 0 <= i < np.len() ==> np[i] != ' ',
        tail.len() == 0 || tail[0] == ' ',
    ensures
        ({
            let rest = op + seq![' '] + np + tail;
            &&& find_char(rest, 0, ' ') == op.len()
            &&& rest.take(op.len() as int) == op
            &&& first_field(rest.skip(op.len() as int + 1), ' ') == np
        }),
{
    let rest = op + seq![' '] + np + tail;
    assert forall|i: int| 0 <= i < op.len() implies rest[i] != ' ' by {
        assert(rest[i] == op[i]);
    }
    assert(rest[op.len() as int] == ' ');
    lemma_find_char_is(rest, 0, op.len() as int, ' ');
    assert(rest.take(op.len() as int) =~= op);
    let after = rest.skip(op.len() as int + 1);
    assert(after =~= np + tail);
    assert forall|i: int| 0 <= i < np.len() implies after[i] != ' ' by {
        assert(after[i] == np[i]);
    }
    if tail.len() > 0 {
        assert(after[np.len() as int] == tail[0]);
    }
    lemma_find_char_is(after, 0, np.len() as int, ' ');
    assert(first_field(after, ' ') =~= np);
}

/// A hunk header `@@ -a,b +c,d @@ ...` reads the start lines `a` and `c`,
/// for any counts `b` and `d` (or none) and any text after the two ranges.
#[verifier::rlimit(40)]
pub proof fn law_hunk_header_reads_starts(a: nat, b: Seq<char>, c: nat, d: Seq<char>, tail: Seq<char>)
    requires
        a <= usize::MAX,
        c <= usize::MAX,
        b.len() == 0 || b[0] == ',',
        d.len() == 0 || d[0] == ',',
        forall|i: int| 0 <= i < b.len() ==> b[i] != ' ',
        forall|i: int| 0 <= i < d.len() ==> d[i] != ' ',
        tail.len() == 0 || tail[0] == ' ',
    ensures
        hunk_header_spec(
            seq!['@', '@', ' ', '-'] + decimal_digits(a) + b + seq![' ', '+'] + decimal_digits(c) + d + tail,
        ) == Some((a as usize, c as usize)),
{
    let op = seq!['-'] + decimal_digits(a) + b;
    let np = seq!['+'] + decimal_digits(c) + d;
    lemma_range_part('-', a, b);
    lemma_range_part('+', c, d);
    lemma_two_fields(op, np, tail);
    law_decimal_reads_back(a, usize::MAX as int);
    law_decimal_reads_back(c, usize::MAX as int);
    let h = seq!['@', '@', ' ', '-'] + decimal_digits(a) + b + seq![' ', '+'] + decimal_digits(c) + d + tail;
    assert(h.take(3) =~= seq!['@', '@', ' ']);
    assert(has_prefix(h, seq!['@', '@', ' ']));
    let rest = h.skip(3);
    assert(rest =~= op + seq![' '] + np + tail);
    let sp = find_char(rest, 0, ' ');
    assert(sp == op.len());
    assert(rest.take(sp) == op);
    assert(first_field(rest.skip(sp + 1), ' ') == np);
    assert(starts_with_char(op, '-') && starts_with_char(np, '+'));
    assert(parse_unsigned_spec(first_field(op.drop_first(), ','), usize::MAX as int) == Some(a as int));
    assert(parse_unsigned_spec(first_field(np.drop_first(), ','), usize::MAX as int) == Some(c as int));
}

fn parse_hunk_header_chars(h: &Vec<char>) -> (r: Option<(usize, usize)>)
    ensures
        r == hunk_header_spec(h@),
{
    let lead = vec!['@', '@', ' '];
    assert(lead@ =~= seq!['@', '@', ' ']);
    if !has_prefix_chars(h, &lead) {
        return None;
    }
    let rest = copy_range(h, 3, h.len());
    assert(rest@ =~= h@.skip(3));
    let sp = find_char_in(&rest, 0, rest.len(), ' ');
    assert(rest@.subrange(0, rest.len() as int) =~= rest@);
    if sp >= rest.len() {
        return None;
    }
    let old_part = copy_range(&rest, 0, sp);
    assert(old_part@ =~= rest@.take(sp as int));
    let after = copy_range(&rest, sp + 1, rest.len());
    assert(after@ =~= rest@.skip(sp + 1));
    let new_part = first_field_of(&after, ' ');
    if old_part.len() == 0 || old_part[0] != '-' || new_part.len() == 0 || new_part[0] != '+' {
        return None;
    }
    let old_digits = copy_range(&old_part, 1, old_part.len());
    let new_digits = copy_range(&new_part, 1, new_part.len());
    assert(old_digits@ =~= old_part@.drop_first());
    assert(new_digits@ =~= new_part@.drop_first());
    let old_field = first_field_of(&old_digits, ',');
    let new_field = first_field_of(&new_digits, ',');
    assert(old_field@.subrange(0, old_field.len() as int) =~= old_field@);
    assert(new_field@.subrange(0, new_field.len() as int) =~= new_field@);
    let max = usize::MAX as u64;
    assert(max as int == usize::MAX as int);
    let o = parse_unsigned(&old_field, 0, old_field.len(), max);
    let n = parse_unsigned(&new_field, 0, new_field.len(), max);
    match (o, n) {
        (Some(a), Some(b)) => {
            assert(a as int <= usize::MAX && b as int <= usize::MAX);
            Some((a as usize, b as usize))
        },
        _ => None,
    }
}

/// The old and new start line of a hunk header.
pub fn parse_hunk_header(line: &str) -> (r: Option<(usize, usize)>)
    ensures
        r == hunk_header_spec(line@),
{
    let h = chars_of(line);
    parse_hunk_header_chars(&h)
}

/// What a patch line is, by its first characters.
pub enum PatchLineKind {
    Hunk,
    Added,
    Removed,
    Unchanged,
    Other,
}

pub open spec fn patch_line_kind(l: Seq<char>) -> PatchLineKind {
    if has_prefix(l, seq!['@', '@']) {
        PatchLineKind::Hunk
    } else if starts_with_char(l, '+') {
        PatchLineKind::Added
    } else if starts_with_char(l, '-') {
        PatchLineKind::Removed
    } else if starts_with_char(l, ' ') {
        PatchLineKind::Unchanged
    } else {
        PatchLineKind::Other
    }
}

/// The old and new line counters once the first `n` lines have been read:
/// a hunk header that parses sets both, an added line advances the new
/// one, a removed line the old one, an unchanged line both, and any other
/// line neither.
pub open spec fn counters_after(lines: Seq<Seq<char>>, n: int) -> (int, int)
    decreases n,
{
    if n <= 0 {
        (0, 0)
    } else {
        let st = counters_after(lines, n - 1);
        let l = lines[n - 1];
        match patch_line_kind(l) {
            PatchLineKind::Hunk => match hunk_header_spec(l) {
                Some(hs) => (hs.0 as int, hs.1 as int),
                None => st,
            },
            PatchLineKind::Added => (st.0, st.1 + 1),
            PatchLineKind::Removed => (st.0 + 1, st.1),
            PatchLineKind::Unchanged => (st.0 + 1, st.1 + 1),
            PatchLineKind::Other => st,
        }
    }
}

/// The diff line for one patch line read with the counters `st`: hunk
/// headers and unrecognised lines are shown whole, unnumbered and unchanged.
pub open spec fn patch_line_view(l: Seq<char>, st: (int, int)) -> DiffLineView {
    match patch_line_kind(l) {
        PatchLineKind::Added => DiffLineView {
            tag: DiffLineTag::Insert,
            old_line_num: None,
            new_line_num: Some(st.1 as usize),
            content: l.drop_first(),
        },
        PatchLineKind::Removed => DiffLineView {
            tag: DiffLineTag::Delete,
            old_line_num: Some(st.0 as usize),
            new_line_num: None,
            content: l.drop_first(),
        },
        PatchLineKind::Unchanged => DiffLineView {
            tag: DiffLineTag::Equal,
            old_line_num: Some(st.0 as usize),
            new_line_num: Some(st.1 as usize),
            content: l.drop_first(),
        },
        _ => DiffLineView { tag: DiffLineTag::Equal, old_line_num: None, new_line_num: None, content: l },
    }
}

/// The diff lines of a whole patch: one per line.
pub open spec fn patch_diff_lines(s: Seq<char>) -> Seq<DiffLineView> {
    let ls = lines_of(s);
    Seq::new(ls.len(), |i: int| patch_line_view(ls[i], counters_after(ls, i)))
}

/// No line counter is advanced past `usize::MAX` while the patch is read.
pub open spec fn patch_counters_fit(s: Seq<char>) -> bool {
    let ls = lines_of(s);
    forall|i: int|
        0 <= i < ls.len() ==> {
            let st = #[trigger] counters_after(ls, i);
            match patch_line_kind(ls[i]) {
                PatchLineKind::Added => st.1 < usize::MAX,
                PatchLineKind::Removed => st.0 < usize::MAX,
                PatchLineKind::Unchanged => st.0 < usize::MAX && st.1 < usize::MAX,
                _ => true,
            }
        }
}

/// A patch line that counts in the old file: a removed or unchanged line.
pub open spec fn counts_old(l: Seq<char>) -> bool {
    l.len() > 0 && (l[0] == '-' || l[0] == ' ')
}

/// A patch line that counts in the new file: an added or unchanged line.
pub open spec fn counts_new(l: Seq<char>) -> bool {
    l.len() > 0 && (l[0] == '+' || l[0] == ' ')
}

/// Every patch line gives one diff line. A line starting with `-` is a
/// removed line whose text is the rest of the line, numbered in the old
/// file only; one starting with `+` is an added line, numbered in the new
/// file only; one starting with a blank is an unchanged line numbered in
/// both; any other line (hunk headers among them) is kept whole, unchanged
/// and unnumbered.
pub proof fn law_patch_lines_keep_their_text(s: Seq<char>, i: int)
    requires
        0 <= i < lines_of(s).len(),
    ensures
        patch_diff_lines(s).len() == lines_of(s).len(),
        ({
            let l = lines_of(s)[i];
            let d = patch_diff_lines(s)[i];
            &&& (l.len() > 0 && l[0] == '-') ==> d.tag == DiffLineTag::Delete && seq!['-'] + d.content == l
                && d.old_line_num is Some && d.new_line_num is None
            &&& (l.len() > 0 && l[0] == '+') ==> d.tag == DiffLineTag::Insert && seq!['+'] + d.content == l
                && d.old_line_num is None && d.new_line_num is Some
            &&& (l.len() > 0 && l[0] == ' ') ==> d.tag == DiffLineTag::Equal && seq![' '] + d.content == l
                && d.old_line_num is Some && d.new_line_num is Some
            &&& !(l.len() > 0 && (l[0] == '-' || l[0] == '+' || l[0] == ' ')) ==> d.tag == DiffLineTag::Equal
                && d.content == l && d.old_line_num is None && d.new_line_num is None
        }),
{
    let l = lines_of(s)[i];
    if l.len() > 0 && (l[0] == '-' || l[0] == '+' || l[0] == ' ') {
        assert(!has_prefix(l, seq!['@', '@'])) by {
            if has_prefix(l, seq!['@', '@']) {
                assert(l.take(2)[0] == l[0]);
            }
        }
        assert(seq![l[0]] + l.drop_first() =~= l);
    }
}

proof fn lemma_counters_nonneg(lines: Seq<Seq<char>>, n: int)
    ensures
        counters_after(lines, n).0 >= 0,
        counters_after(lines, n).1 >= 0,
    decreases n,
{
    if n > 0 {
        lemma_counters_nonneg(lines, n - 1);
    }
}

/// Lines of the same file are numbered one after another: a line that
/// counts in the old file and follows another such line is numbered one
/// past it in the old file, and likewise in the new file.
pub proof fn law_patch_lines_numbered_in_turn(s: Seq<char>, i: int)
    requires
        patch_counters_fit(s),
        0 <= i,
        i + 1 < lines_of(s).len(),
    ensures
        ({
            let ls = lines_of(s);
            let d = patch_diff_lines(s);
            &&& counts_old(ls[i]) && counts_old(ls[i + 1]) ==> (d[i].old_line_num matches Some(a)
                && d[i + 1].old_line_num == Some((a + 1) as usize) && a + 1 <= usize::MAX)
            &&& counts_new(ls[i]) && counts_new(ls[i + 1]) ==> (d[i].new_line_num matches Some(a)
                && d[i + 1].new_line_num == Some((a + 1) as usize) && a + 1 <= usize::MAX)
        }),
{
    let ls = lines_of(s);
    law_patch_lines_keep_their_text(s, i);
    law_patch_lines_keep_their_text(s, i + 1);
    lemma_counters_nonneg(ls, i);
    let st = counters_after(ls, i);
    assert(patch_counters_fit(s) ==> {
        let st = #[trigger] counters_after(ls, i);
        match patch_line_kind(ls[i]) {
            PatchLineKind::Added => st.1 < usize::MAX,
            PatchLineKind::Removed => st.0 < usize::MAX,
            PatchLineKind::Unchanged => st.0 < usize::MAX && st.1 < usize::MAX,
            _ => true,
        }
    });
    let l = ls[i];
    if l.len() > 0 && (l[0] == '-' || l[0] == '+' || l[0] == ' ') {
        assert(!has_prefix(l, seq!['@', '@'])) by {
            if has_prefix(l, seq!['@', '@']) {
                assert(l.take(2)[0] == l[0]);
            }
        }
    }
    assert(counters_after(ls, i + 1) == {
        match patch_line_kind(l) {
            PatchLineKind::Hunk => match hunk_header_spec(l) {
                Some(hs) => (hs.0 as int, hs.1 as int),
                None => st,
            },
            PatchLineKind::Added => (st.0, st.1 + 1),
            PatchLineKind::Removed => (st.0 + 1, st.1),
            PatchLineKind::Unchanged => (st.0 + 1, st.1 + 1),
            PatchLineKind::Other => st,
        }
    });
}

/// A hunk header restarts the numbering: the line after a header whose
/// start lines read `a` and `c` is numbered `a` in the old file when it
/// counts there, and `c` in the new file when it counts there.
pub proof fn law_hunk_header_restarts_numbering(s: Seq<char>, i: int)
    requires
        0 <= i,
        i + 1 < lines_of(s).len(),
    ensures
        ({
            let ls = lines_of(s);
            let d = patch_diff_lines(s);
            (ls[i].len() >= 2 && ls[i][0] == '@' && ls[i][1] == '@') ==> match hunk_header_spec(ls[i]) {
                Some((a, c)) => {
                    &&& counts_old(ls[i + 1]) ==> d[i + 1].old_line_num == Some(a)
                    &&& counts_new(ls[i + 1]) ==> d[i + 1].new_line_num == Some(c)
                },
                None => true,
            }
        }),
{
    let ls = lines_of(s);
    law_patch_lines_keep_their_text(s, i + 1);
    let l = ls[i];
    if l.len() >= 2 && l[0] == '@' && l[1] == '@' {
        assert(l.take(2) =~= seq!['@', '@']);
    }
}

/// The diff lines of a file's patch, numbered from its hunk headers.
pub fn parse_patch_to_diff_lines(patch: &str) -> (lines: Vec<DiffLine>)
    requires
        patch_counters_fit(patch@),
    ensures
        lines@.map_values(|l: DiffLine| l@) == patch_diff_lines(patch@),
{
    let chars = chars_of(patch);
    let ranges = line_ranges(&chars);
    let ghost ls = lines_of(chars@);
    let mut lines: Vec<DiffLine> = Vec::new();
    let mut old_line: usize = 0;
    let mut new_line: usize = 0;
    let mut k: usize = 0;
    while k < ranges.len()
        invariant
            chars@ == patch@,
            ls == lines_of(chars@),
            spans(chars@, ranges@) == ls,
            forall|j: int| 0 <= j < ranges.len() ==> (#[trigger] ranges[j]).0 <= ranges[j].1 <= chars.len(),
            patch_counters_fit(patch@),
            k <= ranges.len(),
            lines.len() == k,
            forall|j: int| 0 <= j < k ==> #[trigger] lines[j]@ == patch_diff_lines(patch@)[j],
            counters_after(ls, k as int) == (old_line as int, new_line as int),
        decreases ranges.len() - k,
    {
        let (a, b) = ranges[k];
        let raw = copy_range(&chars, a, b);
        assert(raw@ == ls[k as int]);
        let ghost st = counters_after(ls, k as int);
        let at_sign = vec!['@', '@'];
        assert(at_sign@ =~= seq!['@', '@']);
        if has_prefix_chars(&raw, &at_sign) {
            if let Some((old_start, new_start)) = parse_hunk_header_chars(&raw) {
                old_line = old_start;
                new_line = new_start;
            }
            lines.push(DiffLine {
                tag: DiffLineTag::Equal,
                old_line_num: None,
                new_line_num: None,
                content: string_of_all(&raw),
            });
        } else if raw.len() > 0 && raw[0] == '+' {
            lines.push(DiffLine {
                tag: DiffLineTag::Insert,
                old_line_num: None,
                new_line_num: Some(new_line),
                content: string_of(&raw, 1, raw.len()),
            });
            assert(new_line < usize::MAX);
            new_line = new_line + 1;
        } else if raw.len() > 0 && raw[0] == '-' {
            lines.push(DiffLine {
                tag: DiffLineTag::Delete,
                old_line_num: Some(old_line),
                new_line_num: None,
                content: string_of(&raw, 1, raw.len()),
            });
            assert(old_line < usize::MAX);
            old_line = old_line + 1;
        } else if raw.len() > 0 && raw[0] == ' ' {
            lines.push(DiffLine {
                tag: DiffLineTag::Equal,
                old_line_num: Some(old_line),
                new_line_num: Some(new_line),
                content: string_of(&raw, 1, raw.len()),
            });
            assert(old_line < usize::MAX && new_line < usize::MAX);
            old_line = old_line + 1;
            new_line = new_line + 1;
        } else {
            lines.push(DiffLine {
                tag: DiffLineTag::Equal,
                old_line_num: None,
                new_line_num: None,
                content: string_of_all(&raw),
            });
        }
        proof {
            assert(raw@.subrange(1, raw@.len() as int) =~= raw@.drop_first());
            assert(lines[k as int]@ == patch_diff_lines(patch@)[k as int]);
        }
        k = k + 1;
    }
    assert(lines@.map_values(|l: DiffLine| l@) =~= patch_diff_lines(patch@));
    lines
}

// ---------------------------------------------------------------------------
// Commit rows
// ---------------------------------------------------------------------------

/// A row of the commit list.
#[derive(Clone, Debug)]
pub enum CommitRow {
    Commit {
        short_sha: String,
        title: String,
        author_name: String,
        author: Option<String>,
        date: String,
    },
}

pub struct CommitRowView {
    pub short_sha: Seq<char>,
    pub title: Seq<char>,
    pub author_name: Seq<char>,
    pub author: Option<Seq<char>>,
    pub date: Seq<char>,
}

impl View for CommitRow {
    type V = CommitRowView;

    open spec fn view(&self) -> CommitRowView {
        match self {
            CommitRow::Commit { short_sha, title, author_name, author, date } => CommitRowView {
                short_sha: short_sha@,
                title: title@,
                author_name: author_name@,
                author: match author {
                    Some(a) => Some(a@),
                    None => None,
                },
                date: date@,
            },
        }
    }
}

/// The first line of a text, or nothing when it has none.
pub open spec fn first_line(s: Seq<char>) -> Seq<char> {
    if lines_of(s).len() > 0 {
        lines_of(s)[0]
    } else {
        Seq::empty()
    }
}

/// The first seven bytes of a commit hash, or all of it when byte seven is
/// no character boundary or the hash is shorter.
pub open spec fn short_sha(sha: Seq<char>) -> Seq<char> {
    match crate::text::byte_prefix(sha, 7) {
        Some(p) => p,
        None => sha,
    }
}

/// The row shown for a commit.
pub open spec fn commit_row_spec(c: PrCommit) -> CommitRowView {
    CommitRowView {
        short_sha: short_sha(c.sha@),
        title: first_line(c.message@),
        author_name: c.author_name@,
        author: match c.author {
            Some(a) => Some(a@),
            None => None,
        },
        date: c.date@,
    }
}

fn clone_opt(s: &Option<String>) -> (r: Option<String>)
    ensures
        r == *s,
{
    match s {
        Some(v) => Some(v.clone()),
        None => None,
    }
}

/// The rows of the commit list: per commit its short hash, the first line
/// of its message, its author and its date.
pub fn build_commit_rows(commits: &[PrCommit]) -> (rows: Vec<CommitRow>)
    ensures
        rows.len() == commits.len(),
        forall|i: int| 0 <= i < commits.len() ==> #[trigger] rows[i]@ == commit_row_spec(commits[i]),
{
    let mut rows: Vec<CommitRow> = Vec::new();
    let mut i: usize = 0;
    while i < commits.len()
        invariant
            i <= commits.len(),
            rows.len() == i,
            forall|j: int| 0 <= j < i ==> #[trigger] rows[j]@ == commit_row_spec(commits[j]),
        decreases commits.len() - i,
    {
        let c = &commits[i];
        let msg = chars_of(c.message.as_str());
        let ranges = line_ranges(&msg);
        let title = if ranges.len() > 0 {
            let (a, b) = ranges[0];
            assert(spans(msg@, ranges@)[0] == msg@.subrange(a as int, b as int));
            string_of(&msg, a, b)
        } else {
            String::new()
        };
        let sha = chars_of(c.sha.as_str());
        let short = match crate::text::byte_prefix_of(&sha, 7) {
            Some(p) => string_of_all(&p),
            None => c.sha.clone(),
        };
        rows.push(CommitRow::Commit {
            short_sha: short,
            title,
            author_name: c.author_name.clone(),
            author: clone_opt(&c.author),
            date: c.date.clone(),
        });
        i = i + 1;
    }
    rows
}

// ---------------------------------------------------------------------------
// Conversation rows
// ---------------------------------------------------------------------------

/// A row of the conversation tab.
#[derive(Clone, Debug)]
pub enum ConversationRow {
    Header {
        title: String,
        number: u64,
        state: PullRequestState,
        draft: bool,
        author_login: String,
        base_ref: String,
        head_ref: String,
    },
    Body { author_login: String, body: String },
    Comment {
        author: String,
        body: String,
        created_at: String,
        review_state: Option<ReviewState>,
    },
}

pub enum ConversationRowView {
    Header {
        title: Seq<char>,
        number: u64,
        state: PullRequestState,
        draft: bool,
        author_login: Seq<char>,
        base_ref: Seq<char>,
        head_ref: Seq<char>,
    },
    Body { author_login: Seq<char>, body: Seq<char> },
    Comment {
        author: Seq<char>,
        body: Seq<char>,
        created_at: Seq<char>,
        review_state: Option<ReviewState>,
    },
}

impl View for ConversationRow {
    type V = ConversationRowView;

    open spec fn view(&self) -> ConversationRowView {
        match self {
            ConversationRow::Header {
                title,
                number,
                state,
                draft,
                author_login,
                base_ref,
                head_ref,
            } => ConversationRowView::Header {
                title: title@,
                number: *number,
                state: *state,
                draft: *draft,
                author_login: author_login@,
                base_ref: base_ref@,
                head_ref: head_ref@,
            },
            ConversationRow::Body { author_login, body } => ConversationRowView::Body {
                author_login: author_login@,
                body: body@,
            },
            ConversationRow::Comment { author, body, created_at, review_state } =>
                ConversationRowView::Comment {
                author: author@,
                body: body@,
                created_at: created_at@,
                review_state: *review_state,
            },
        }
    }
}

pub open spec fn conversation_views(rows: Seq<ConversationRow>) -> Seq<ConversationRowView> {
    rows.map_values(|r: ConversationRow| r@)
}

/// The time a row is sorted by: a comment's creation time, else nothing.
pub open spec fn row_time(r: ConversationRowView) -> Seq<char> {
    match r {
        ConversationRowView::Comment { created_at, .. } => created_at,
        _ => Seq::empty(),
    }
}

pub open spec fn comment_entry(c: PrComment) -> ConversationRowView {
    ConversationRowView::Comment {
        author: c.author@,
        body: c.body@,
        created_at: c.created_at@,
        review_state: None,
    }
}

pub open spec fn review_entry(r: PrReview) -> ConversationRowView {
    ConversationRowView::Comment {
        author: r.author@,
        body: r.body@,
        created_at: r.created_at@,
        review_state: Some(r.state),
    }
}

/// A review is shown unless it is a plain comment with a blank body.
pub open spec fn review_shown(r: PrReview) -> bool {
    !(is_blank_text(r.body@) && r.state == ReviewState::Commented)
}

/// The comments and shown reviews, comments first, before sorting.
pub open spec fn comment_entries(detail: PrDetail) -> Seq<ConversationRowView> {
    detail.comments@.map_values(|c: PrComment| comment_entry(c)) + detail.reviews@.filter(
        |r: PrReview| review_shown(r),
    ).map_values(|r: PrReview| review_entry(r))
}

/// The rows of the conversation tab: the header, the description unless it
/// is missing or blank, then comments and shown reviews sorted by time.
pub open spec fn conversation_rows_spec(pr: PullRequest, detail: PrDetail) -> Seq<ConversationRowView> {
    let header = ConversationRowView::Header {
        title: pr.title@,
        number: pr.number,
        state: pr.state,
        draft: pr.draft,
        author_login: pr.author_login@,
        base_ref: pr.base_ref@,
        head_ref: pr.head_ref@,
    };
    let body = match detail.body {
        Some(b) => if !is_blank_text(b@) {
            seq![ConversationRowView::Body { author_login: pr.author_login@, body: b@ }]
        } else {
            Seq::empty()
        },
        None => Seq::empty(),
    };
    seq![header] + body + stable_sort(comment_entries(detail), by_time())
}

/// Inserts a comment row into rows sorted by time, after the rows of the
/// same time.
fn insert_sorted(
    rows: &mut Vec<ConversationRow>,
    keys: &mut Vec<Vec<char>>,
    row: ConversationRow,
    key: Vec<char>,
)
    requires
        old(keys).len() == old(rows).len(),
        forall|j: int| 0 <= j < old(rows).len() ==> (#[trigger] old(keys)@[j])@ == row_time(old(rows)@[j]@),
        key@ == row_time(row@),
    ensures
        final(keys).len() == final(rows).len(),
        forall|j: int| 0 <= j < final(rows).len() ==> (#[trigger] final(keys)@[j])@ == row_time(final(rows)@[j]@),
        conversation_views(final(rows)@) == sorted_insert(
            conversation_views(old(rows)@),
            |a: ConversationRowView, b: ConversationRowView| lex_le(row_time(a), row_time(b)),
            row@,
        ),
{
    let ghost f = |a: ConversationRowView, b: ConversationRowView| lex_le(row_time(a), row_time(b));
    let ghost s = conversation_views(rows@);
    let mut p: usize = 0;
    proof {
        lemma_insert_index_bound(s, f, row@, 0);
    }
    while p < rows.len() && lex_le_chars(&keys[p], &key)
        invariant
            keys.len() == rows.len(),
            forall|j: int| 0 <= j < rows.len() ==> (#[trigger] keys@[j])@ == row_time(rows@[j]@),
            s == conversation_views(rows@),
            f == (|a: ConversationRowView, b: ConversationRowView| lex_le(row_time(a), row_time(b))),
            key@ == row_time(row@),
            p <= rows.len(),
            insert_index(s, f, row@, 0) == insert_index(s, f, row@, p as int),
        decreases rows.len() - p,
    {
        assert(s[p as int] == rows@[p as int]@);
        p = p + 1;
    }
    proof {
        if p < rows.len() {
            assert(s[p as int] == rows@[p as int]@);
        }
        assert(insert_index(s, f, row@, p as int) == p);
    }
    let ghost old_rows = rows@;
    let ghost old_keys = keys@;
    rows.insert(p, row);
    keys.insert(p, key);
    assert(conversation_views(rows@) =~= s.insert(p as int, rows@[p as int]@));
    assert forall|j: int| 0 <= j < rows.len() implies (#[trigger] keys@[j])@ == row_time(rows@[j]@) by {
        if j < p {
            assert(keys@[j] == old_keys[j] && rows@[j] == old_rows[j]);
        } else if j > p {
            assert(keys@[j] == old_keys[j - 1] && rows@[j] == old_rows[j - 1]);
        }
    }
}

/// The rows of the conversation tab of a pull request.
pub fn build_conversation_rows(pr: &PullRequest, detail: &PrDetail) -> (rows: Vec<ConversationRow>)
    ensures
        conversation_views(rows@) == conversation_rows_spec(*pr, *detail),
{
    let ghost f = |a: ConversationRowView, b: ConversationRowView| lex_le(row_time(a), row_time(b));
    let ghost entries = comment_entries(*detail);
    let ghost nc = detail.comments.len() as int;
    let ghost shown = |r: PrReview| review_shown(r);
    let mut sorted: Vec<ConversationRow> = Vec::new();
    let mut keys: Vec<Vec<char>> = Vec::new();
    let mut i: usize = 0;
    assert(conversation_views(sorted@) =~= stable_sort(entries.take(0), f));
    while i < detail.comments.len()
        invariant
            entries == comment_entries(*detail),
            nc == detail.comments.len(),
            f == (|a: ConversationRowView, b: ConversationRowView| lex_le(row_time(a), row_time(b))),
            i <= detail.comments.len(),
            keys.len() == sorted.len(),
            forall|j: int| 0 <= j < sorted.len() ==> (#[trigger] keys@[j])@ == row_time(sorted@[j]@),
            conversation_views(sorted@) == stable_sort(entries.take(i as int), f),
        decreases detail.comments.len() - i,
    {
        let c = &detail.comments[i];
        let row = ConversationRow::Comment {
            author: c.author.clone(),
            body: c.body.clone(),
            created_at: c.created_at.clone(),
            review_state: None,
        };
        let key = chars_of(c.created_at.as_str());
        assert(entries[i as int] == comment_entry(detail.comments@[i as int]));
        assert(entries.take(i + 1).drop_last() =~= entries.take(i as int));
        insert_sorted(&mut sorted, &mut keys, row, key);
        i = i + 1;
    }
    let ghost kept = detail.reviews@.filter(shown);
    let mut r: usize = 0;
    let ghost mut taken: int = nc;
    assert(detail.reviews@.take(0).filter(shown) =~= Seq::<PrReview>::empty()) by {
        reveal_with_fuel(Seq::<_>::filter, 1);
    }
    while r < detail.reviews.len()
        invariant
            entries == comment_entries(*detail),
            nc == detail.comments.len(),
            shown == (|r: PrReview| review_shown(r)),
            f == (|a: ConversationRowView, b: ConversationRowView| lex_le(row_time(a), row_time(b))),
            r <= detail.reviews.len(),
            taken == nc + detail.reviews@.take(r as int).filter(shown).len(),
            keys.len() == sorted.len(),
            forall|j: int| 0 <= j < sorted.len() ==> (#[trigger] keys@[j])@ == row_time(sorted@[j]@),
            conversation_views(sorted@) == stable_sort(entries.take(taken), f),
        decreases detail.reviews.len() - r,
    {
        let rv = &detail.reviews[r];
        let ghost before = detail.reviews@.take(r as int).filter(shown);
        proof {
            reveal_with_fuel(Seq::<_>::filter, 1);
            assert(detail.reviews@.take(r + 1).drop_last() =~= detail.reviews@.take(r as int));
        }
        let body = chars_of(rv.body.as_str());
        if is_blank(&body) && rv.state == ReviewState::Commented {
            assert(detail.reviews@.take(r + 1).filter(shown) == before);
        } else {
            let row = ConversationRow::Comment {
                author: rv.author.clone(),
                body: rv.body.clone(),
                created_at: rv.created_at.clone(),
                review_state: Some(rv.state),
            };
            let key = chars_of(rv.created_at.as_str());
            proof {
                assert(detail.reviews@.take(r + 1).filter(shown) == before.push(detail.reviews@[r as int]));
                lemma_filter_prefix(detail.reviews@, shown, r as int);
                assert(entries[taken] == review_entry(detail.reviews@[r as int]));
                assert(entries.take(taken + 1).drop_last() =~= entries.take(taken));
            }
            insert_sorted(&mut sorted, &mut keys, row, key);
            proof {
                taken = taken + 1;
            }
        }
        r = r + 1;
    }
    proof {
        assert(detail.reviews@.take(r as int) =~= detail.reviews@);
        assert(entries.take(taken) =~= entries);
    }
    let mut rows: Vec<ConversationRow> = Vec::new();
    rows.push(ConversationRow::Header {
        title: pr.title.clone(),
        number: pr.number,
        state: pr.state,
        draft: pr.draft,
        author_login: pr.author_login.clone(),
        base_ref: pr.base_ref.clone(),
        head_ref: pr.head_ref.clone(),
    });
    if let Some(body) = &detail.body {
        let chars = chars_of(body.as_str());
        if !is_blank(&chars) {
            rows.push(ConversationRow::Body { author_login: pr.author_login.clone(), body: body.clone() });
        }
    }
    let ghost head = conversation_views(rows@);
    rows.append(&mut sorted);
    assert(conversation_views(rows@) =~= head + stable_sort(entries, f));
    rows
}

/// The kept elements of `s` that lie before index `r` are the kept elements
/// of its first `r` elements.
proof fn lemma_filter_prefix(s: Seq<PrReview>, shown: spec_fn(PrReview) -> bool, r: int)
    requires
        0 <= r < s.len(),
        shown(s[r]),
    ensures
        s.filter(shown)[s.take(r).filter(shown).len() as int] == s[r],
        s.take(r).filter(shown).len() < s.filter(shown).len(),
{
    reveal_with_fuel(Seq::<_>::filter, 1);
    assert(s.take(r + 1).drop_last() =~= s.take(r));
    assert(s.take(r + 1).filter(shown) == s.take(r).filter(shown).push(s[r]));
    assert(s =~= s.take(r + 1) + s.skip(r + 1));
    Seq::filter_distributes_over_add(s.take(r + 1), s.skip(r + 1), shown);
    assert(s.filter(shown) == s.take(r + 1).filter(shown) + s.skip(r + 1).filter(shown));
}


/// The order of conversation rows by time.
pub open spec fn by_time() -> spec_fn(ConversationRowView, ConversationRowView) -> bool {
    |a: ConversationRowView, b: ConversationRowView| lex_le(row_time(a), row_time(b))
}

/// The comments and reviews of the conversation come in time order, and
/// every comment and every shown review is among them exactly as often as
/// it was given.
pub proof fn law_conversation_in_time_order(detail: PrDetail)
    ensures
        crate::text::sorted_by(stable_sort(comment_entries(detail), by_time()), by_time()),
        stable_sort(comment_entries(detail), by_time()).to_multiset() == comment_entries(detail).to_multiset(),
{
    let le = by_time();
    assert forall|a: ConversationRowView, b: ConversationRowView| #![trigger le(a, b)] le(a, b) || le(b, a) by {
        crate::text::lemma_lex_total(row_time(a), row_time(b));
    }
    assert forall|a: ConversationRowView, b: ConversationRowView, c: ConversationRowView|
        #![trigger le(a, b), le(b, c)]
        le(a, b) && le(b, c) implies le(a, c) by {
        crate::text::lemma_lex_trans(row_time(a), row_time(b), row_time(c));
    }
    crate::text::law_stable_sort_sorts(comment_entries(detail), le);
}
} // verus!
