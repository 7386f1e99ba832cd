//! Parsing of the unified-diff patches that a pull request lists per file,
//! and their conversion into the editor's diff lines.
use vstd::prelude::*;
use crate::editor_diff::{DiffLine as EditorDiffLine, DiffLineTag, DiffLineView};
use crate::text::{
    first_field, first_field_of, all_digits, chars_of, line_ranges, spans, string_of, string_of_all, copy_range, find_char, find_char_in, find_seq, find_seq_chars, has_prefix,
    has_prefix_chars, lines_of, parse_unsigned, parse_unsigned_spec, starts_with_char,
};

verus! {

/// What a patch line stands for.
#[derive(Clone, Copy, Debug, PartialEq, Eq, Structural)]
pub enum DiffLineKind {
    Context,
    Addition,
    Deletion,
    Header,
}

/// One line of a patch, with its line numbers in the old and new file.
#[derive(Clone, Debug)]
pub struct DiffLine {
    pub kind: DiffLineKind,
    pub content: String,
    pub line_number_old: Option<u64>,
    pub line_number_new: Option<u64>,
}

/// The mathematical value of a patch [`DiffLine`].
pub struct PatchLineView {
    pub kind: DiffLineKind,
    pub content: Seq<char>,
    pub line_number_old: Option<u64>,
    pub line_number_new: Option<u64>,
}

impl View for DiffLine {
    type V = PatchLineView;

    open spec fn view(&self) -> PatchLineView {
        PatchLineView {
            kind: self.kind,
            content: self.content@,
            line_number_old: self.line_number_old,
            line_number_new: self.line_number_new,
        }
    }
}

// ---------------------------------------------------------------------------
// Specification
// ---------------------------------------------------------------------------

/// The start lines of a hunk header `@@ -a[,b] +c[,d] @@...`: the text after
/// `"@@ -"` up to the first `" @@"` is split at spaces; its first field and
/// its second field, which must begin with `'+'`, give the two starts, each
/// read up to its first comma as a `u64`.
pub open spec fn hunk_header_spec(h: Seq<char>) -> Option<(u64, u64)> {
    if !has_prefix(h, seq!['@', '@', ' ', '-']) {
        None
    } else {
        let rest = h.skip(4);
        match find_seq(rest, seq![' ', '@', '@'], 0) {
            None => None,
            Some(at) => {
                let range = rest.take(at);
                let sp = find_char(range, 0, ' ');
                if sp >= range.len() {
                    None
                } else {
                    let old_range = range.take(sp);
                    let after = range.skip(sp + 1);
                    let new_part = first_field(after, ' ');
                    if !starts_with_char(new_part, '+') {
                        None
                    } else {
                        let o = parse_unsigned_spec(first_field(old_range, ','), u64::MAX as int);
                        let n = parse_unsigned_spec(
                            first_field(new_part.drop_first(), ','),
                            u64::MAX as int,
                        );
                        match (o, n) {
                            (Some(a), Some(b)) => Some((a as u64, b as u64)),
                            _ => None,
                        }
                    }
                }
            },
        }
    }
}

/// What a patch line is, by its first characters.
pub open spec fn line_kind(l: Seq<char>) -> DiffLineKind {
    if has_prefix(l, seq!['@', '@']) {
        DiffLineKind::Header
    } else if starts_with_char(l, '+') {
        DiffLineKind::Addition
    } else if starts_with_char(l, '-') {
        DiffLineKind::Deletion
    } else {
        DiffLineKind::Context
    }
}

/// The old and new line counters once the first `n` lines have been read:
/// a hunk header that parses sets both, an addition advances the new one, a
/// deletion the old one, and any other line both.
pub open spec fn counters_after(lines: Seq<Seq<char>>, n: int) -> (int, int)
    decreases n,
{
    if n <= 0 {
        (0, 0)
    } else {
        let st = counters_after(lines, n - 1);
        let l = lines[n - 1];
        match line_kind(l) {
            DiffLineKind::Header => match hunk_header_spec(l) {
                Some(hs) => (hs.0 as int, hs.1 as int),
                None => st,
            },
            DiffLineKind::Addition => (st.0, st.1 + 1),
            DiffLineKind::Deletion => (st.0 + 1, st.1),
            DiffLineKind::Context => (st.0 + 1, st.1 + 1),
        }
    }
}

/// The parsed form of one line, read with the counters `st`.
pub open spec fn patch_line_view(l: Seq<char>, st: (int, int)) -> PatchLineView {
    match line_kind(l) {
        DiffLineKind::Header => PatchLineView {
            kind: DiffLineKind::Header,
            content: l,
            line_number_old: None,
            line_number_new: None,
        },
        DiffLineKind::Addition => PatchLineView {
            kind: DiffLineKind::Addition,
            content: l.drop_first(),
            line_number_old: None,
            line_number_new: Some(st.1 as u64),
        },
        DiffLineKind::Deletion => PatchLineView {
            kind: DiffLineKind::Deletion,
            content: l.drop_first(),
            line_number_old: Some(st.0 as u64),
            line_number_new: None,
        },
        DiffLineKind::Context => PatchLineView {
            kind: DiffLineKind::Context,
            content: if starts_with_char(l, ' ') {
                l.drop_first()
            } else {
                l
            },
            line_number_old: Some(st.0 as u64),
            line_number_new: Some(st.1 as u64),
        },
    }
}

/// The parse of a whole patch: one entry per line.
pub open spec fn parsed_patch(s: Seq<char>) -> Seq<PatchLineView> {
    let ls = lines_of(s);
    Seq::new(ls.len(), |i: int| patch_line_view(ls[i], counters_after(ls, i)))
}

/// No line counter is advanced past `u64::MAX` while the patch is read.
pub open spec fn patch_counters_fit(s: Seq<char>) -> bool {
    let ls = lines_of(s);
    forall|i: int|
        0 <= i < ls.len() ==> {
            let st = #[trigger] counters_after(ls, i);
            match line_kind(ls[i]) {
                DiffLineKind::Addition => st.1 < u64::MAX,
                DiffLineKind::Deletion => st.0 < u64::MAX,
                DiffLineKind::Context => st.0 < u64::MAX && st.1 < u64::MAX,
                DiffLineKind::Header => true,
            }
        }
}

/// Every patch line gives one parsed line. A line starting with `-` is a
/// deletion whose text is the rest of the line, numbered in the old file
/// only; one starting with `+` an addition, numbered in the new file only;
/// one starting with `@@` a header, kept whole and unnumbered; any other
/// line is context, numbered in both files, with a leading blank taken off.
pub proof fn law_parsed_lines_keep_their_text(s: Seq<char>, i: int)
    requires
        0 <= i < lines_of(s).len(),
    ensures
        parsed_patch(s).len() == lines_of(s).len(),
        ({
            let l = lines_of(s)[i];
            let d = parsed_patch(s)[i];
            &&& (l.len() > 0 && l[0] == '-') ==> d.kind == DiffLineKind::Deletion && seq!['-'] + d.content == l
                && d.line_number_old is Some && d.line_number_new is None
            &&& (l.len() > 0 && l[0] == '+') ==> d.kind == DiffLineKind::Addition && seq!['+'] + d.content == l
                && d.line_number_old is None && d.line_number_new is Some
            &&& (l.len() > 0 && l[0] == ' ') ==> d.kind == DiffLineKind::Context && seq![' '] + d.content == l
                && d.line_number_old is Some && d.line_number_new is Some
            &&& (l.len() >= 2 && l[0] == '@' && l[1] == '@') ==> d.kind == DiffLineKind::Header && d.content == l
                && d.line_number_old is None && d.line_number_new is None
            &&& !(l.len() > 0 && (l[0] == '-' || l[0] == '+' || l[0] == ' ' || l[0] == '@')) ==> d.kind
                == DiffLineKind::Context && d.content == l && d.line_number_old is Some && d.line_number_new is Some
        }),
{
    let l = lines_of(s)[i];
    if l.len() > 0 && l[0] != '@' {
        assert(!has_prefix(l, seq!['@', '@'])) by {
            if has_prefix(l, seq!['@', '@']) {
                assert(l.take(2)[0] == l[0]);
            }
        }
        assert(seq![l[0]] + l.drop_first() =~= l);
    }
    if l.len() >= 2 && l[0] == '@' && l[1] == '@' {
        assert(l.take(2) =~= seq!['@', '@']);
    }
    if l.len() == 0 {
        assert(!has_prefix(l, seq!['@', '@']));
    }
}

/// A line that is not an addition or a header counts in the old file; one
/// that is not a deletion or a header counts in the new file.
pub open spec fn counts_old(l: Seq<char>) -> bool {
    !(l.len() > 0 && l[0] == '+') && !(l.len() >= 2 && l[0] == '@' && l[1] == '@')
}

pub open spec fn counts_new(l: Seq<char>) -> bool {
    !(l.len() > 0 && l[0] == '-') && !(l.len() >= 2 && l[0] == '@' && l[1] == '@')
}

proof fn lemma_counters_nonneg(lines: Seq<Seq<char>>, n: int)
    ensures
        counters_after(lines, n).0 >= 0,
        counters_after(lines, n).1 >= 0,
    decreases n,
{
    if n > 0 {
        lemma_counters_nonneg(lines, n - 1);
    }
}

/// Lines of the same file are numbered one after another: a line that
/// counts in the old file and follows another such line is numbered one
/// past it in the old file, and likewise in the new file.
pub proof fn law_parsed_lines_numbered_in_turn(s: Seq<char>, i: int)
    requires
        patch_counters_fit(s),
        0 <= i,
        i + 1 < lines_of(s).len(),
    ensures
        ({
            let ls = lines_of(s);
            let d = parsed_patch(s);
            &&& counts_old(ls[i]) && counts_old(ls[i + 1]) ==> (d[i].line_number_old matches Some(a)
                && d[i + 1].line_number_old == Some((a + 1) as u64) && a + 1 <= u64::MAX)
            &&& counts_new(ls[i]) && counts_new(ls[i + 1]) ==> (d[i].line_number_new matches Some(a)
                && d[i + 1].line_number_new == Some((a + 1) as u64) && a + 1 <= u64::MAX)
        }),
{
    let ls = lines_of(s);
    law_parsed_lines_keep_their_text(s, i);
    law_parsed_lines_keep_their_text(s, i + 1);
    lemma_counters_nonneg(ls, i);
    let st = counters_after(ls, i);
    let l = ls[i];
    assert(patch_counters_fit(s) ==> {
        let st = #[trigger] counters_after(ls, i);
        match line_kind(ls[i]) {
            DiffLineKind::Addition => st.1 < u64::MAX,
            DiffLineKind::Deletion => st.0 < u64::MAX,
            DiffLineKind::Context => st.0 < u64::MAX && st.1 < u64::MAX,
            DiffLineKind::Header => true,
        }
    });
    let m = ls[i + 1];
    if l.len() >= 2 && l[0] == '@' && l[1] == '@' {
        assert(l.take(2) =~= seq!['@', '@']);
    } else {
        assert(!has_prefix(l, seq!['@', '@'])) by {
            if has_prefix(l, seq!['@', '@']) {
                assert(l.take(2)[0] == l[0] && l.take(2)[1] == l[1]);
            }
        }
    }
    if m.len() >= 2 && m[0] == '@' && m[1] == '@' {
        assert(m.take(2) =~= seq!['@', '@']);
    } else {
        assert(!has_prefix(m, seq!['@', '@'])) by {
            if has_prefix(m, seq!['@', '@']) {
                assert(m.take(2)[0] == m[0] && m.take(2)[1] == m[1]);
            }
        }
    }
}

/// A hunk header restarts the numbering: the line after a header whose
/// start lines read `a` and `c` is numbered `a` in the old file when it
/// counts there, and `c` in the new file when it counts there.
pub proof fn law_hunk_header_restarts_numbering(s: Seq<char>, i: int)
    requires
        0 <= i,
        i + 1 < lines_of(s).len(),
    ensures
        ({
            let ls = lines_of(s);
            let d = parsed_patch(s);
            (ls[i].len() >= 2 && ls[i][0] == '@' && ls[i][1] == '@') ==> match hunk_header_spec(ls[i]) {
                Some((a, c)) => {
                    &&& counts_old(ls[i + 1]) ==> d[i + 1].line_number_old == Some(a)
                    &&& counts_new(ls[i + 1]) ==> d[i + 1].line_number_new == Some(c)
                },
                None => true,
            }
        }),
{
    let ls = lines_of(s);
    law_parsed_lines_keep_their_text(s, i + 1);
    let l = ls[i];
    let m = ls[i + 1];
    if l.len() >= 2 && l[0] == '@' && l[1] == '@' {
        assert(l.take(2) =~= seq!['@', '@']);
    }
    if !(m.len() >= 2 && m[0] == '@' && m[1] == '@') {
        assert(!has_prefix(m, seq!['@', '@'])) by {
            if has_prefix(m, seq!['@', '@']) {
                assert(m.take(2)[0] == m[0] && m.take(2)[1] == m[1]);
            }
        }
    }
}

// ---------------------------------------------------------------------------
// Hunk headers
// ---------------------------------------------------------------------------

/// Parses the start lines out of a hunk header given as characters.
pub fn parse_hunk_header_chars(h: &Vec<char>) -> (r: Option<(u64, u64)>)
    ensures
        r == hunk_header_spec(h@),
{
    let lead = vec!['@', '@', ' ', '-'];
    assert(lead@ =~= seq!['@', '@', ' ', '-']);
    if !has_prefix_chars(h, &lead) {
        return None;
    }
    let rest = copy_range(h, 4, h.len());
    assert(rest@ =~= h@.skip(4));
    let closing = vec![' ', '@', '@'];
    assert(closing@ =~= seq![' ', '@', '@']);
    let at = match find_seq_chars(&rest, &closing, 0) {
        Some(at) => at,
        None => {
            return None;
        },
    };
    proof {
        lemma_find_seq_bound(rest@, closing@, 0);
    }
    let range = copy_range(&rest, 0, at);
    assert(range@ =~= rest@.take(at as int));
    let sp = find_char_in(&range, 0, range.len(), ' ');
    assert(range@.subrange(0, range.len() as int) =~= range@);
    if sp >= range.len() {
        return None;
    }
    let old_range = copy_range(&range, 0, sp);
    assert(old_range@ =~= range@.take(sp as int));
    let after = copy_range(&range, sp + 1, range.len());
    assert(after@ =~= range@.skip(sp + 1));
    let new_part = first_field_of(&after, ' ');
    if new_part.len() == 0 || new_part[0] != '+' {
        return None;
    }
    let new_range = copy_range(&new_part, 1, new_part.len());
    assert(new_range@ =~= new_part@.drop_first());
    let old_field = first_field_of(&old_range, ',');
    let new_field = first_field_of(&new_range, ',');
    assert(old_field@.subrange(0, old_field.len() as int) =~= old_field@);
    assert(new_field@.subrange(0, new_field.len() as int) =~= new_field@);
    let o = parse_unsigned(&old_field, 0, old_field.len(), u64::MAX);
    let n = parse_unsigned(&new_field, 0, new_field.len(), u64::MAX);
    match (o, n) {
        (Some(a), Some(b)) => Some((a, b)),
        _ => None,
    }
}

pub proof fn lemma_find_seq_bound(s: Seq<char>, p: Seq<char>, from: int)
    ensures
        find_seq(s, p, from) matches Some(k) ==> from <= k && k + p.len() <= s.len(),
    decreases s.len() + 1 - from,
{
    if !(from < 0 || from + p.len() > s.len()) && s.subrange(from, from + p.len()) != p {
        lemma_find_seq_bound(s, p, from + 1);
    }
}

/// The old and new start line of a hunk header `@@ -a,b +c,d @@`.
pub fn parse_hunk_header(header: &str) -> (r: Option<(u64, u64)>)
    ensures
        r == hunk_header_spec(header@),
{
    let h = chars_of(header);
    parse_hunk_header_chars(&h)
}

// ---------------------------------------------------------------------------
// Patches
// ---------------------------------------------------------------------------

/// Parses a patch line by line, numbering lines from the hunk headers.
pub fn parse_patch(patch: &str) -> (lines: Vec<DiffLine>)
    requires
        patch_counters_fit(patch@),
    ensures
        lines@.map_values(|l: DiffLine| l@) == parsed_patch(patch@),
{
    let chars = chars_of(patch);
    let ranges = line_ranges(&chars);
    let ghost ls = lines_of(chars@);
    let mut lines: Vec<DiffLine> = Vec::new();
    let mut old_line: u64 = 0;
    let mut new_line: u64 = 0;
    let mut k: usize = 0;
    while k < ranges.len()
        invariant
            chars@ == patch@,
            ls == lines_of(chars@),
            spans(chars@, ranges@) == ls,
            forall|j: int| 0 <= j < ranges.len() ==> (#[trigger] ranges[j]).0 <= ranges[j].1 <= chars.len(),
            patch_counters_fit(patch@),
            k <= ranges.len(),
            lines.len() == k,
            forall|j: int| 0 <= j < k ==> #[trigger] lines[j]@ == parsed_patch(patch@)[j],
            counters_after(ls, k as int) == (old_line as int, new_line as int),
        decreases ranges.len() - k,
    {
        let (a, b) = ranges[k];
        let raw = copy_range(&chars, a, b);
        assert(raw@ == ls[k as int]);
        let ghost st = counters_after(ls, k as int);
        let at_sign = vec!['@', '@'];
        assert(at_sign@ =~= seq!['@', '@']);
        if has_prefix_chars(&raw, &at_sign) {
            if let Some((old_start, new_start)) = parse_hunk_header_chars(&raw) {
                old_line = old_start;
                new_line = new_start;
            }
            lines.push(DiffLine {
                kind: DiffLineKind::Header,
                content: string_of_all(&raw),
                line_number_old: None,
                line_number_new: None,
            });
        } else if raw.len() > 0 && raw[0] == '+' {
            lines.push(DiffLine {
                kind: DiffLineKind::Addition,
                content: string_of(&raw, 1, raw.len()),
                line_number_old: None,
                line_number_new: Some(new_line),
            });
            assert(new_line < u64::MAX);
            new_line = new_line + 1;
        } else if raw.len() > 0 && raw[0] == '-' {
            lines.push(DiffLine {
                kind: DiffLineKind::Deletion,
                content: string_of(&raw, 1, raw.len()),
                line_number_old: Some(old_line),
                line_number_new: None,
            });
            assert(old_line < u64::MAX);
            old_line = old_line + 1;
        } else {
            let start: usize = if raw.len() > 0 && raw[0] == ' ' { 1 } else { 0 };
            lines.push(DiffLine {
                kind: DiffLineKind::Context,
                content: string_of(&raw, start, raw.len()),
                line_number_old: Some(old_line),
                line_number_new: Some(new_line),
            });
            assert(old_line < u64::MAX && new_line < u64::MAX);
            old_line = old_line + 1;
            new_line = new_line + 1;
        }
        proof {
            assert(raw@.subrange(1, raw@.len() as int) =~= raw@.drop_first());
            assert(raw@.subrange(0, raw@.len() as int) =~= raw@);
            assert(lines[k as int]@ == parsed_patch(patch@)[k as int]);
        }
        k = k + 1;
    }
    assert(lines@.map_values(|l: DiffLine| l@) =~= parsed_patch(patch@));
    lines
}

/// The tag the editor uses for a line of the given kind.
pub open spec fn editor_tag(kind: DiffLineKind) -> DiffLineTag {
    match kind {
        DiffLineKind::Addition => DiffLineTag::Insert,
        DiffLineKind::Deletion => DiffLineTag::Delete,
        _ => DiffLineTag::Equal,
    }
}

/// A patch line as the editor shows it.
pub open spec fn editor_line(l: PatchLineView) -> DiffLineView {
    DiffLineView {
        tag: editor_tag(l.kind),
        old_line_num: match l.line_number_old {
            Some(n) => Some(n as usize),
            None => None,
        },
        new_line_num: match l.line_number_new {
            Some(n) => Some(n as usize),
            None => None,
        },
        content: l.content,
    }
}

/// The lines of a parsed patch other than its hunk headers.
pub open spec fn body_lines(p: Seq<PatchLineView>) -> Seq<PatchLineView> {
    p.filter(|l: PatchLineView| l.kind != DiffLineKind::Header)
}

/// Texts joined with a newline between each two.
pub open spec fn join_lines(ls: Seq<Seq<char>>) -> Seq<char>
    decreases ls.len(),
{
    if ls.len() == 0 {
        Seq::empty()
    } else if ls.len() == 1 {
        ls[0]
    } else {
        join_lines(ls.drop_last()) + seq!['\n'] + ls.last()
    }
}

/// Converts a patch into what the editor's diff mode takes: the text of the
/// non-header lines joined by newlines, those lines as editor diff lines,
/// and for each the index of its line in that text.
pub fn patch_to_editor_diff_lines(patch: &str) -> (r: (String, Vec<EditorDiffLine>, Vec<Option<usize>>))
    requires
        patch_counters_fit(patch@),
    ensures
        ({
            let body = body_lines(parsed_patch(patch@));
            &&& r.1@.map_values(|l: EditorDiffLine| l@) == body.map_values(|l: PatchLineView| editor_line(l))
            &&& r.2@ == Seq::new(body.len(), |j: int| Some(j as usize))
            &&& r.0@ == join_lines(body.map_values(|l: PatchLineView| l.content))
        }),
{
    let parsed = parse_patch(patch);
    let ghost p = parsed_patch(patch@);
    let ghost hdr = |l: PatchLineView| l.kind != DiffLineKind::Header;
    let mut content = String::new();
    let mut diff_lines: Vec<EditorDiffLine> = Vec::new();
    let mut buffer_line_map: Vec<Option<usize>> = Vec::new();
    let mut buffer_idx: usize = 0;
    let mut i: usize = 0;
    assert(p.take(0).filter(hdr) =~= Seq::<PatchLineView>::empty()) by {
        reveal_with_fuel(Seq::<_>::filter, 1);
    }
    while i < parsed.len()
        invariant
            parsed@.map_values(|l: DiffLine| l@) == p,
            hdr == (|l: PatchLineView| l.kind != DiffLineKind::Header),
            i <= parsed.len(),
            buffer_idx == diff_lines.len(),
            buffer_idx == p.take(i as int).filter(hdr).len(),
            diff_lines@.map_values(|l: EditorDiffLine| l@) == p.take(i as int).filter(hdr).map_values(|l: PatchLineView| editor_line(l)),
            buffer_line_map@ == Seq::new(buffer_idx as nat, |j: int| Some(j as usize)),
            content@ == join_lines(p.take(i as int).filter(hdr).map_values(|l: PatchLineView| l.content)),
        decreases parsed.len() - i,
    {
        let ghost before = p.take(i as int).filter(hdr);
        proof {
            reveal_with_fuel(Seq::<_>::filter, 1);
            assert(p.take(i + 1).drop_last() =~= p.take(i as int));
            assert(parsed[i as int]@ == p[i as int]);
        }
        let line = &parsed[i];
        if line.kind == DiffLineKind::Header {
            assert(p.take(i + 1).filter(hdr) =~= before);
        } else {
            let tag = match line.kind {
                DiffLineKind::Context => DiffLineTag::Equal,
                DiffLineKind::Addition => DiffLineTag::Insert,
                _ => DiffLineTag::Delete,
            };
            let old_line_num = match line.line_number_old {
                Some(n) => Some(n as usize),
                None => None,
            };
            let new_line_num = match line.line_number_new {
                Some(n) => Some(n as usize),
                None => None,
            };
            let ghost old_content = content@;
            let ghost old_dl = diff_lines@;
            if buffer_idx > 0 {
                content.append("\n");
            }
            content.append(line.content.as_str());
            diff_lines.push(EditorDiffLine {
                tag,
                old_line_num,
                new_line_num,
                content: line.content.clone(),
            });
            buffer_line_map.push(Some(buffer_idx));
            buffer_idx = buffer_idx + 1;
            proof {
                let after = p.take(i + 1).filter(hdr);
                assert(after =~= before.push(p[i as int]));
                reveal_strlit("\n");
                let cs = after.map_values(|l: PatchLineView| l.content);
                assert(cs.drop_last() =~= before.map_values(|l: PatchLineView| l.content));
                if before.len() == 0 {
                    assert(content@ =~= join_lines(cs));
                } else {
                    assert(content@ =~= join_lines(cs));
                }
                assert(line@ == p[i as int]);
                assert(diff_lines[diff_lines.len() - 1]@ == editor_line(p[i as int]));
                assert(diff_lines@ == old_dl.push(diff_lines[diff_lines.len() - 1]));
                assert(diff_lines@.map_values(|l: EditorDiffLine| l@) =~= old_dl.map_values(|l: EditorDiffLine| l@).push(editor_line(p[i as int])));
                assert(after.map_values(|l: PatchLineView| editor_line(l)) =~= before.map_values(|l: PatchLineView| editor_line(l)).push(editor_line(p[i as int])));
                assert(diff_lines@.map_values(|l: EditorDiffLine| l@) =~= after.map_values(|l: PatchLineView| editor_line(l)));
                assert(buffer_line_map@ =~= Seq::new(buffer_idx as nat, |j: int| Some(j as usize)));
            }
        }
        i = i + 1;
    }
    assert(p.take(i as int) =~= p);
    (content, diff_lines, buffer_line_map)
}

} // verus!
