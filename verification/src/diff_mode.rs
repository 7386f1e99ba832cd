//! Diff mode of the editor: which lines of a diff are shown, which runs of
//! unchanged lines fold into one collapsed row, and where review comments
//! are shown inline.
use vstd::prelude::*;
use crate::editor_diff::{DiffLine, DiffLineTag, DiffLineView};
use crate::text::{
    append_chars, byte_len, chars_in_bytes, chars_of, lemma_byte_len_strictly_grows, line_ranges,
    lines_of, range_eq, spans,
};

verus! {

/// What a row of the diff view shows: a diff line, a folded run of
/// unchanged lines, or one row of an inline comment.
#[derive(Clone, Debug)]
pub enum DiffDisplayLine {
    Line {
        line: DiffLine,
        /// Index of the line in the buffer used for syntax highlighting.
        buffer_line: Option<usize>,
    },
    Collapsed {
        start_idx: usize,
        end_idx: usize,
        count: usize,
    },
    CommentRow {
        text: String,
        is_first_line: bool,
        is_pending: bool,
    },
}

/// The mathematical value of a [`DiffDisplayLine`].
pub enum DisplayView {
    Line { line: DiffLineView, buffer_line: Option<usize> },
    Collapsed { start_idx: usize, end_idx: usize, count: usize },
    CommentRow { text: Seq<char>, is_first_line: bool, is_pending: bool },
}

impl View for DiffDisplayLine {
    type V = DisplayView;

    open spec fn view(&self) -> DisplayView {
        match self {
            DiffDisplayLine::Line { line, buffer_line } => DisplayView::Line {
                line: line@,
                buffer_line: *buffer_line,
            },
            DiffDisplayLine::Collapsed { start_idx, end_idx, count } => DisplayView::Collapsed {
                start_idx: *start_idx,
                end_idx: *end_idx,
                count: *count,
            },
            DiffDisplayLine::CommentRow { text, is_first_line, is_pending } =>
                DisplayView::CommentRow {
                text: text@,
                is_first_line: *is_first_line,
                is_pending: *is_pending,
            },
        }
    }
}

impl DiffDisplayLine {
    /// A copy of this row.
    pub fn duplicate(&self) -> (r: DiffDisplayLine)
        ensures
            r@ == self@,
    {
        match self {
            DiffDisplayLine::Line { line, buffer_line } => DiffDisplayLine::Line {
                line: line.duplicate(),
                buffer_line: *buffer_line,
            },
            DiffDisplayLine::Collapsed { start_idx, end_idx, count } => DiffDisplayLine::Collapsed {
                start_idx: *start_idx,
                end_idx: *end_idx,
                count: *count,
            },
            DiffDisplayLine::CommentRow { text, is_first_line, is_pending } =>
                DiffDisplayLine::CommentRow {
                text: text.clone(),
                is_first_line: *is_first_line,
                is_pending: *is_pending,
            },
        }
    }
}

/// The views of a sequence of rows.
pub open spec fn display_views(ds: Seq<DiffDisplayLine>) -> Seq<DisplayView> {
    ds.map_values(|d: DiffDisplayLine| d@)
}

// ---------------------------------------------------------------------------
// Which lines are shown
// ---------------------------------------------------------------------------

/// A row of the layout: the diff line at an index, or the lines
/// `start..end` folded into one.
pub enum LayoutItem {
    Line(int),
    Collapsed(int, int),
}

pub open spec fn is_changed(lines: Seq<DiffLineView>, i: int) -> bool {
    lines[i].tag != DiffLineTag::Equal
}

pub open spec fn max0(x: int) -> int {
    if x < 0 {
        0
    } else {
        x
    }
}

pub open spec fn min_int(x: int, y: int) -> int {
    if x < y {
        x
    } else {
        y
    }
}

/// The ranges of lines shown around the changed lines among the first `k`:
/// each changed line `i` brings `i - context .. i + context + 1` (clipped to
/// the diff), and a range that starts within or right after the previous
/// one is merged into it.
pub open spec fn visible_ranges(lines: Seq<DiffLineView>, context: int, k: int) -> Seq<(int, int)>
    decreases k,
{
    if k <= 0 {
        Seq::empty()
    } else {
        let r = visible_ranges(lines, context, k - 1);
        let i = k - 1;
        if !is_changed(lines, i) {
            r
        } else {
            let s = max0(i - context);
            let e = min_int(i + context + 1, lines.len() as int);
            if r.len() > 0 && s <= r.last().1 {
                r.update(r.len() - 1, (r.last().0, e))
            } else {
                r.push((s, e))
            }
        }
    }
}

/// Whether the fold `start..end` has been expanded.
pub open spec fn is_expanded(expanded: Seq<(usize, usize)>, start: int, end: int) -> bool {
    exists|j: int| 0 <= j < expanded.len() && expanded[j].0 == start && expanded[j].1 == end
}

/// The lines `s..e`, each on a row of its own.
pub open spec fn line_items(s: int, e: int) -> Seq<LayoutItem> {
    Seq::new((e - s) as nat, |j: int| LayoutItem::Line(s + j))
}

/// The rows of the unchanged run `s..e`: nothing when it is empty, its lines
/// when it has been expanded, else one folded row.
pub open spec fn gap_items(s: int, e: int, expanded: Seq<(usize, usize)>) -> Seq<LayoutItem> {
    if s < e {
        if is_expanded(expanded, s, e) {
            line_items(s, e)
        } else {
            seq![LayoutItem::Collapsed(s, e)]
        }
    } else {
        Seq::empty()
    }
}

/// Where the rows of the first `j` ranges end.
pub open spec fn range_end(r: Seq<(int, int)>, j: int) -> int {
    if j <= 0 {
        0
    } else {
        r[j - 1].1
    }
}

/// The rows for the first `j` visible ranges, each preceded by the run of
/// hidden lines before it.
pub open spec fn layout(r: Seq<(int, int)>, expanded: Seq<(usize, usize)>, j: int) -> Seq<LayoutItem>
    decreases j,
{
    if j <= 0 {
        Seq::empty()
    } else {
        layout(r, expanded, j - 1) + gap_items(range_end(r, j - 1), r[j - 1].0, expanded)
            + line_items(r[j - 1].0, r[j - 1].1)
    }
}

/// All rows of the diff view of `lines`.
pub open spec fn display_layout(
    lines: Seq<DiffLineView>,
    expanded: Seq<(usize, usize)>,
    context: int,
) -> Seq<LayoutItem> {
    let n = lines.len() as int;
    if n == 0 {
        Seq::empty()
    } else {
        let r = visible_ranges(lines, context, n);
        layout(r, expanded, r.len() as int) + gap_items(range_end(r, r.len() as int), n, expanded)
    }
}

/// The buffer line of diff line `i`: taken from `map` when there is one,
/// else one less than its new line number.
pub open spec fn buffer_line_of(
    lines: Seq<DiffLineView>,
    map: Option<Seq<Option<usize>>>,
    i: int,
) -> Option<usize> {
    match map {
        Some(m) => if 0 <= i < m.len() {
            m[i]
        } else {
            None
        },
        None => match lines[i].new_line_num {
            Some(k) => Some((k - 1) as usize),
            None => None,
        },
    }
}

/// The row that a layout item stands for.
pub open spec fn item_view(
    lines: Seq<DiffLineView>,
    map: Option<Seq<Option<usize>>>,
    it: LayoutItem,
) -> DisplayView {
    match it {
        LayoutItem::Line(i) => DisplayView::Line {
            line: lines[i],
            buffer_line: buffer_line_of(lines, map, i),
        },
        LayoutItem::Collapsed(s, e) => DisplayView::Collapsed {
            start_idx: s as usize,
            end_idx: e as usize,
            count: (e - s) as usize,
        },
    }
}

pub open spec fn lines_view(ls: Seq<DiffLine>) -> Seq<DiffLineView> {
    ls.map_values(|l: DiffLine| l@)
}

pub open spec fn map_view(m: Option<&[Option<usize>]>) -> Option<Seq<Option<usize>>> {
    match m {
        Some(s) => Some(s@),
        None => None,
    }
}

/// No changed line lies so close to `usize::MAX` that its range end
/// overflows.
pub open spec fn context_fits(lines: Seq<DiffLineView>, context: int) -> bool {
    forall|i: int| 0 <= i < lines.len() && is_changed(lines, i) ==> i + context + 1 <= usize::MAX
}

/// Without a buffer map, no shown line has new line number 0.
pub open spec fn shown_lines_numbered(
    lines: Seq<DiffLineView>,
    expanded: Seq<(usize, usize)>,
    context: int,
    map: Option<Seq<Option<usize>>>,
) -> bool {
    map is None ==> forall|k: int|
        0 <= k < display_layout(lines, expanded, context).len() ==> match #[trigger] display_layout(
            lines,
            expanded,
            context,
        )[k] {
            LayoutItem::Line(i) => lines[i].new_line_num != Some(0usize),
            LayoutItem::Collapsed(_, _) => true,
        }
}

/// Whether `(start, end)` is among the expanded sections.
pub fn is_section_expanded(start: usize, end: usize, expanded_sections: &[(usize, usize)]) -> (b: bool)
    ensures
        b == is_expanded(expanded_sections@, start as int, end as int),
{
    let mut j: usize = 0;
    while j < expanded_sections.len()
        invariant
            j <= expanded_sections.len(),
            forall|k: int|
                0 <= k < j ==> !((#[trigger] expanded_sections@[k]).0 == start
                    && expanded_sections@[k].1 == end),
        decreases expanded_sections.len() - j,
    {
        let (s, e) = expanded_sections[j];
        if s == start && e == end {
            return true;
        }
        j = j + 1;
    }
    false
}

pub open spec fn int_pairs(r: Seq<(usize, usize)>) -> Seq<(int, int)> {
    r.map_values(|p: (usize, usize)| (p.0 as int, p.1 as int))
}

/// The rows for the visible ranges from the `j`-th on, each preceded by
/// the hidden run before it, and the hidden run after the last.
pub open spec fn layout_from(r: Seq<(int, int)>, expanded: Seq<(usize, usize)>, j: int, n: int) -> Seq<
    LayoutItem,
>
    decreases r.len() - j,
{
    if j >= r.len() || j < 0 {
        gap_items(range_end(r, r.len() as int), n, expanded)
    } else {
        gap_items(range_end(r, j), r[j].0, expanded) + line_items(r[j].0, r[j].1) + layout_from(
            r,
            expanded,
            j + 1,
            n,
        )
    }
}

pub proof fn lemma_layout_split(r: Seq<(int, int)>, expanded: Seq<(usize, usize)>, j: int, n: int)
    requires
        0 <= j <= r.len(),
    ensures
        layout(r, expanded, j) + layout_from(r, expanded, j, n) == layout(r, expanded, r.len() as int)
            + gap_items(range_end(r, r.len() as int), n, expanded),
    decreases r.len() - j,
{
    if j < r.len() {
        lemma_layout_split(r, expanded, j + 1, n);
        assert(layout(r, expanded, j + 1) == layout(r, expanded, j) + gap_items(
            range_end(r, j),
            r[j].0,
            expanded,
        ) + line_items(r[j].0, r[j].1));
        assert(layout(r, expanded, j) + layout_from(r, expanded, j, n) =~= layout(r, expanded, j + 1)
            + layout_from(r, expanded, j + 1, n));
    } else {
        assert(layout_from(r, expanded, j, n) == gap_items(range_end(r, r.len() as int), n, expanded));
    }
}

/// Whether every line item of `mid` has a new line number other than 0.
pub open spec fn items_numbered(lines: Seq<DiffLineView>, mid: Seq<LayoutItem>) -> bool {
    forall|t: int|
        0 <= t < mid.len() ==> match #[trigger] mid[t] {
            LayoutItem::Line(i) => lines[i].new_line_num != Some(0usize),
            LayoutItem::Collapsed(_, _) => true,
        }
}

pub proof fn lemma_segment_numbered(
    lines: Seq<DiffLineView>,
    expanded: Seq<(usize, usize)>,
    context: int,
    map: Option<Seq<Option<usize>>>,
    pre: Seq<LayoutItem>,
    mid: Seq<LayoutItem>,
    post: Seq<LayoutItem>,
)
    requires
        shown_lines_numbered(lines, expanded, context, map),
        display_layout(lines, expanded, context) == pre + mid + post,
        map is None,
    ensures
        items_numbered(lines, mid),
{
    let full = display_layout(lines, expanded, context);
    assert forall|t: int| 0 <= t < mid.len() implies match #[trigger] mid[t] {
        LayoutItem::Line(i) => lines[i].new_line_num != Some(0usize),
        LayoutItem::Collapsed(_, _) => true,
    } by {
        assert(full[pre.len() + t] == mid[t]);
    }
}

/// The buffer line of diff line `idx`.
fn buf_line(all_lines: &[DiffLine], map: Option<&[Option<usize>]>, idx: usize) -> (r: Option<usize>)
    requires
        idx < all_lines.len(),
        map is None ==> all_lines@[idx as int].new_line_num != Some(0usize),
    ensures
        r == buffer_line_of(lines_view(all_lines@), map_view(map), idx as int),
{
    match map {
        Some(m) => if idx < m.len() {
            m[idx]
        } else {
            None
        },
        None => match all_lines[idx].new_line_num {
            Some(n) => Some(n - 1),
            None => None,
        },
    }
}

/// Appends the lines `s..e` of the diff, one row each.
fn push_lines(
    out: &mut Vec<DiffDisplayLine>,
    all_lines: &[DiffLine],
    map: Option<&[Option<usize>]>,
    s: usize,
    e: usize,
)
    requires
        s <= e <= all_lines.len(),
        map is None ==> items_numbered(lines_view(all_lines@), line_items(s as int, e as int)),
    ensures
        display_views(final(out)@) == display_views(old(out)@) + line_items(s as int, e as int).map_values(
            |it: LayoutItem| item_view(lines_view(all_lines@), map_view(map), it),
        ),
{
    let ghost lv = lines_view(all_lines@);
    let ghost f = |it: LayoutItem| item_view(lv, map_view(map), it);
    let mut i = s;
    while i < e
        invariant
            s <= i <= e <= all_lines.len(),
            lv == lines_view(all_lines@),
            f == (|it: LayoutItem| item_view(lv, map_view(map), it)),
            map is None ==> items_numbered(lv, line_items(s as int, e as int)),
            display_views(out@) == display_views(old(out)@) + line_items(s as int, i as int).map_values(f),
        decreases e - i,
    {
        proof {
            assert(line_items(s as int, e as int)[i - s] == LayoutItem::Line(i as int));
        }
        let b = buf_line(all_lines, map, i);
        let ghost before = out@;
        out.push(DiffDisplayLine::Line { line: all_lines[i].duplicate(), buffer_line: b });
        proof {
            assert(out@ == before.push(out@.last()));
            assert(line_items(s as int, i + 1) =~= line_items(s as int, i as int).push(
                LayoutItem::Line(i as int),
            ));
            assert(display_views(out@) =~= display_views(before).push(out@.last()@));
            assert(out@.last()@ == f(LayoutItem::Line(i as int)));
            assert(display_views(out@) =~= display_views(old(out)@) + line_items(
                s as int,
                i + 1,
            ).map_values(f));
        }
        i = i + 1;
    }
}

/// Appends the rows of the hidden run `s..e`.
fn push_gap(
    out: &mut Vec<DiffDisplayLine>,
    all_lines: &[DiffLine],
    map: Option<&[Option<usize>]>,
    expanded_sections: &[(usize, usize)],
    s: usize,
    e: usize,
)
    requires
        e <= all_lines.len(),
        map is None ==> items_numbered(
            lines_view(all_lines@),
            gap_items(s as int, e as int, expanded_sections@),
        ),
    ensures
        display_views(final(out)@) == display_views(old(out)@) + gap_items(
            s as int,
            e as int,
            expanded_sections@,
        ).map_values(|it: LayoutItem| item_view(lines_view(all_lines@), map_view(map), it)),
{
    if s < e {
        if is_section_expanded(s, e, expanded_sections) {
            push_lines(out, all_lines, map, s, e);
        } else {
            let ghost before = out@;
            out.push(DiffDisplayLine::Collapsed { start_idx: s, end_idx: e, count: e - s });
            assert(display_views(out@) =~= display_views(before).push(out@.last()@));
            assert(gap_items(s as int, e as int, expanded_sections@).map_values(
                |it: LayoutItem| item_view(lines_view(all_lines@), map_view(map), it),
            ) =~= seq![out@.last()@]);
        }
    } else {
        assert(gap_items(s as int, e as int, expanded_sections@).map_values(
            |it: LayoutItem| item_view(lines_view(all_lines@), map_view(map), it),
        ) =~= Seq::<DisplayView>::empty());
        assert(display_views(out@) =~= display_views(old(out)@) + Seq::<DisplayView>::empty());
    }
}

/// The visible ranges around the changed lines of `all_lines`.
fn compute_visible_ranges(all_lines: &[DiffLine], context_lines: usize) -> (r: Vec<(usize, usize)>)
    requires
        context_fits(lines_view(all_lines@), context_lines as int),
    ensures
        int_pairs(r@) == visible_ranges(lines_view(all_lines@), context_lines as int, all_lines.len() as int),
        forall|j: int| 0 <= j < r.len() ==> (#[trigger] r@[j]).0 <= r@[j].1 <= all_lines.len(),
{
    let ghost lv = lines_view(all_lines@);
    let n = all_lines.len();
    let mut r: Vec<(usize, usize)> = Vec::new();
    let mut k: usize = 0;
    while k < n
        invariant
            n == all_lines.len(),
            lv == lines_view(all_lines@),
            context_fits(lv, context_lines as int),
            k <= n,
            int_pairs(r@) == visible_ranges(lv, context_lines as int, k as int),
            forall|j: int| 0 <= j < r.len() ==> (#[trigger] r@[j]).0 <= r@[j].1 <= n,
            forall|j: int| 0 <= j < r.len() ==> (#[trigger] r@[j]).0 <= max0(k - context_lines),
        decreases n - k,
    {
        let ghost before = r@;
        assert(lv[k as int] == all_lines@[k as int]@);
        if all_lines[k].tag != DiffLineTag::Equal {
            assert(is_changed(lv, k as int));
            assert(k + context_lines + 1 <= usize::MAX);
            let start = k.saturating_sub(context_lines);
            let end = if k + context_lines + 1 < n { k + context_lines + 1 } else { n };
            let len = r.len();
            if len > 0 && start <= r[len - 1].1 {
                let first = r[len - 1].0;
                r.set(len - 1, (first, end));
            } else {
                r.push((start, end));
            }
            assert(int_pairs(r@) =~= visible_ranges(lv, context_lines as int, k + 1));
        } else {
            assert(int_pairs(r@) =~= visible_ranges(lv, context_lines as int, k + 1));
        }
        k = k + 1;
    }
    r
}

/// The rows of the diff view: every changed line with `context_lines`
/// unchanged lines around it, and each run of other unchanged lines as one
/// collapsed row unless `expanded_sections` lists it.  Buffer lines come
/// from `buffer_line_map` when given, else from the new line numbers.
pub fn compute_display_lines(
    all_lines: &[DiffLine],
    expanded_sections: &[(usize, usize)],
    context_lines: usize,
    buffer_line_map: Option<&[Option<usize>]>,
) -> (out: Vec<DiffDisplayLine>)
    requires
        context_fits(lines_view(all_lines@), context_lines as int),
        shown_lines_numbered(
            lines_view(all_lines@),
            expanded_sections@,
            context_lines as int,
            map_view(buffer_line_map),
        ),
    ensures
        display_views(out@) == display_layout(
            lines_view(all_lines@),
            expanded_sections@,
            context_lines as int,
        ).map_values(
            |it: LayoutItem| item_view(lines_view(all_lines@), map_view(buffer_line_map), it),
        ),
{
    let ghost lv = lines_view(all_lines@);
    let ghost mv = map_view(buffer_line_map);
    let ghost exp = expanded_sections@;
    let ghost c = context_lines as int;
    let ghost f = |it: LayoutItem| item_view(lv, mv, it);
    let n = all_lines.len();
    if n == 0 {
        let out: Vec<DiffDisplayLine> = Vec::new();
        assert(display_views(out@) =~= Seq::<DisplayView>::empty());
        assert(display_layout(lv, exp, c).map_values(f) =~= Seq::<DisplayView>::empty());
        return out;
    }
    let ranges = compute_visible_ranges(all_lines, context_lines);
    let ghost r = int_pairs(ranges@);
    let ghost total = r.len() as int;
    let mut out: Vec<DiffDisplayLine> = Vec::new();
    let mut current_pos: usize = 0;
    let mut j: usize = 0;
    assert(display_views(out@) =~= layout(r, exp, 0).map_values(f));
    while j < ranges.len()
        invariant
            n == all_lines.len(),
            n > 0,
            lv == lines_view(all_lines@),
            mv == map_view(buffer_line_map),
            exp == expanded_sections@,
            c == context_lines as int,
            f == (|it: LayoutItem| item_view(lv, mv, it)),
            r == int_pairs(ranges@),
            r == visible_ranges(lv, c, n as int),
            total == r.len(),
            forall|k: int| 0 <= k < ranges.len() ==> (#[trigger] ranges@[k]).0 <= ranges@[k].1 <= n,
            shown_lines_numbered(lv, exp, c, mv),
            j <= ranges.len(),
            current_pos == range_end(r, j as int),
            display_views(out@) == layout(r, exp, j as int).map_values(f),
        decreases ranges.len() - j,
    {
        let (start, end) = ranges[j];
        assert(r[j as int] == (start as int, end as int));
        let ghost pre = layout(r, exp, j as int);
        let ghost g = gap_items(current_pos as int, start as int, exp);
        let ghost ls = line_items(start as int, end as int);
        proof {
            lemma_layout_split(r, exp, j as int, n as int);
            assert(layout_from(r, exp, j as int, n as int) == g + ls + layout_from(r, exp, j + 1, n as int));
            assert(display_layout(lv, exp, c) =~= pre + g + (ls + layout_from(r, exp, j + 1, n as int)));
            assert(display_layout(lv, exp, c) =~= (pre + g) + ls + layout_from(r, exp, j + 1, n as int));
            if mv is None {
                lemma_segment_numbered(lv, exp, c, mv, pre, g, ls + layout_from(r, exp, j + 1, n as int));
                lemma_segment_numbered(lv, exp, c, mv, pre + g, ls, layout_from(r, exp, j + 1, n as int));
            }
        }
        push_gap(&mut out, all_lines, buffer_line_map, expanded_sections, current_pos, start);
        push_lines(&mut out, all_lines, buffer_line_map, start, end);
        proof {
            assert(layout(r, exp, j + 1) == pre + g + ls);
            assert(display_views(out@) =~= layout(r, exp, j + 1).map_values(f));
        }
        current_pos = end;
        j = j + 1;
    }
    let ghost pre = layout(r, exp, total);
    let ghost g = gap_items(current_pos as int, n as int, exp);
    proof {
        assert(display_layout(lv, exp, c) =~= pre + g + Seq::<LayoutItem>::empty());
        if mv is None {
            lemma_segment_numbered(lv, exp, c, mv, pre, g, Seq::<LayoutItem>::empty());
        }
    }
    push_gap(&mut out, all_lines, buffer_line_map, expanded_sections, current_pos, n);
    assert(display_views(out@) =~= display_layout(lv, exp, c).map_values(f));
    out
}

// ---------------------------------------------------------------------------
// Inline comments
// ---------------------------------------------------------------------------

/// A review comment shown under the line it is about.
#[derive(Clone, Debug)]
pub struct InlineComment {
    pub author: String,
    pub body: String,
    pub created_at: String,
    pub is_pending: bool,
}

/// The comments about one line of one side of a diff.
#[derive(Clone, Debug)]
pub struct CommentAttachment {
    pub line: u64,
    pub side: String,
    pub comments: Vec<InlineComment>,
}

pub struct InlineCommentView {
    pub author: Seq<char>,
    pub body: Seq<char>,
    pub created_at: Seq<char>,
    pub is_pending: bool,
}

impl View for InlineComment {
    type V = InlineCommentView;

    open spec fn view(&self) -> InlineCommentView {
        InlineCommentView {
            author: self.author@,
            body: self.body@,
            created_at: self.created_at@,
            is_pending: self.is_pending,
        }
    }
}

pub struct AttachmentView {
    pub line: u64,
    pub side: Seq<char>,
    pub comments: Seq<InlineCommentView>,
}

impl View for CommentAttachment {
    type V = AttachmentView;

    open spec fn view(&self) -> AttachmentView {
        AttachmentView {
            line: self.line,
            side: self.side@,
            comments: self.comments@.map_values(|c: InlineComment| c@),
        }
    }
}

pub open spec fn attachments_view(atts: Seq<CommentAttachment>) -> Seq<AttachmentView> {
    atts.map_values(|a: CommentAttachment| a@)
}

/// The side name of the old file.
pub open spec fn left_side() -> Seq<char> {
    seq!['L', 'E', 'F', 'T']
}

/// Whether a row shows the line that comments on `line` of `side` are
/// about: a deleted line numbered `line` in the old file for the left side,
/// any other line numbered `line` in the new file otherwise.
pub open spec fn row_matches(d: DisplayView, line: u64, side: Seq<char>) -> bool {
    match d {
        DisplayView::Line { line: l, .. } => if side == left_side() {
            l.old_line_num == Some(line as usize) && l.tag == DiffLineTag::Delete
        } else {
            l.new_line_num == Some(line as usize) && l.tag != DiffLineTag::Delete
        },
        _ => false,
    }
}

/// The last of the first `k` rows that shows the commented line.
pub open spec fn last_match(ds: Seq<DisplayView>, line: u64, side: Seq<char>, k: int) -> Option<int>
    decreases k,
{
    if k <= 0 {
        None
    } else if row_matches(ds[k - 1], line, side) {
        Some(k - 1)
    } else {
        last_match(ds, line, side, k - 1)
    }
}

/// The row an attachment's comments go after.
pub open spec fn attachment_target(ds: Seq<DisplayView>, a: AttachmentView) -> Option<int> {
    last_match(ds, a.line, a.side, ds.len() as int)
}

/// The number of characters that fill the first 10 bytes of `ts`.
pub open spec fn ten_bytes(ts: Seq<char>) -> int {
    choose|j: int| 0 <= j <= ts.len() && byte_len(ts.take(j)) == 10
}

/// The first 10 bytes of a time stamp, when it has that many.
pub open spec fn timestamp_label(ts: Seq<char>) -> Seq<char> {
    if byte_len(ts) >= 10 {
        ts.take(ten_bytes(ts))
    } else {
        ts
    }
}

/// A time stamp of 10 bytes or more has a character boundary at byte 10.
pub open spec fn timestamp_cuts(ts: Seq<char>) -> bool {
    byte_len(ts) >= 10 ==> exists|j: int| 0 <= j <= ts.len() && byte_len(ts.take(j)) == 10
}

/// `"You (draft)"`.
pub open spec fn draft_label() -> Seq<char> {
    seq!['Y', 'o', 'u', ' ', '(', 'd', 'r', 'a', 'f', 't', ')']
}

/// The first row of a comment: `"You (draft)"` for a pending comment,
/// `"@author (date)"` for a posted one.
pub open spec fn author_label(c: InlineCommentView) -> Seq<char> {
    if c.is_pending {
        draft_label()
    } else {
        seq!['@'] + c.author + seq![' ', '('] + timestamp_label(c.created_at) + seq![')']
    }
}

/// The rows of one comment: its author row, one row per body line
/// indented by two spaces, and one empty row for an empty body.
pub open spec fn comment_rows(c: InlineCommentView) -> Seq<DisplayView> {
    let ls = lines_of(c.body);
    seq![DisplayView::CommentRow { text: author_label(c), is_first_line: true, is_pending: c.is_pending }]
        + Seq::new(
        ls.len(),
        |k: int|
            DisplayView::CommentRow {
                text: seq![' ', ' '] + ls[k],
                is_first_line: false,
                is_pending: c.is_pending,
            },
    ) + if c.body.len() == 0 {
        seq![DisplayView::CommentRow { text: Seq::empty(), is_first_line: false, is_pending: c.is_pending }]
    } else {
        Seq::empty()
    }
}

/// The rows of the first `k` comments of a list.
pub open spec fn comments_rows(cs: Seq<InlineCommentView>, k: int) -> Seq<DisplayView>
    decreases k,
{
    if k <= 0 {
        Seq::empty()
    } else {
        comments_rows(cs, k - 1) + comment_rows(cs[k - 1])
    }
}

/// The comment rows that go after row `d`: those of each of the first `m`
/// attachments aimed at `d`, in the order of the attachments.
pub open spec fn rows_for(ds: Seq<DisplayView>, atts: Seq<AttachmentView>, d: int, m: int) -> Seq<
    DisplayView,
>
    decreases m,
{
    if m <= 0 {
        Seq::empty()
    } else {
        rows_for(ds, atts, d, m - 1) + if attachment_target(ds, atts[m - 1]) == Some(d) {
            comments_rows(atts[m - 1].comments, atts[m - 1].comments.len() as int)
        } else {
            Seq::empty()
        }
    }
}

/// The first `d` rows, each followed by the comment rows aimed at it.
pub open spec fn injected_prefix(ds: Seq<DisplayView>, atts: Seq<AttachmentView>, d: int) -> Seq<
    DisplayView,
>
    decreases d,
{
    if d <= 0 {
        Seq::empty()
    } else {
        injected_prefix(ds, atts, d - 1) + seq![ds[d - 1]] + rows_for(ds, atts, d - 1, atts.len() as int)
    }
}

/// The rows with all comment rows put in place.
pub open spec fn injected(ds: Seq<DisplayView>, atts: Seq<AttachmentView>) -> Seq<DisplayView> {
    injected_prefix(ds, atts, ds.len() as int)
}

/// Every posted comment of each attachment that finds its row has a time
/// stamp that can be cut at byte 10.
pub open spec fn attachments_cut(ds: Seq<DisplayView>, atts: Seq<AttachmentView>) -> bool {
    forall|a: int, k: int|
        0 <= a < atts.len() && attachment_target(ds, atts[a]) is Some && 0 <= k
            < atts[a].comments.len() && !atts[a].comments[k].is_pending ==> timestamp_cuts(
            #[trigger] atts[a].comments[k].created_at,
        )
}

/// Whether a side name is `"LEFT"`.
fn is_left_side(side: &String) -> (b: bool)
    ensures
        b == (side@ == left_side()),
{
    let chars = chars_of(side.as_str());
    let left = vec!['L', 'E', 'F', 'T'];
    assert(left@ =~= left_side());
    let b = range_eq(&chars, 0, chars.len(), &left);
    assert(chars@.subrange(0, chars.len() as int) =~= chars@);
    b
}

/// The last row that shows the line an attachment is about.
fn find_target(display_lines: &Vec<DiffDisplayLine>, attachment: &CommentAttachment) -> (r: Option<usize>)
    ensures
        match attachment_target(display_views(display_lines@), attachment@) {
            Some(t) => r == Some(t as usize),
            None => r is None,
        },
{
    let ghost ds = display_views(display_lines@);
    let is_left = is_left_side(&attachment.side);
    let want = attachment.line as usize;
    let mut k = display_lines.len();
    while k > 0
        invariant
            k <= display_lines.len(),
            ds == display_views(display_lines@),
            is_left == (attachment@.side == left_side()),
            want == attachment.line as usize,
            attachment_target(ds, attachment@) == last_match(ds, attachment.line, attachment@.side, k as int),
        decreases k,
    {
        let idx = k - 1;
        assert(ds[idx as int] == display_lines@[idx as int]@);
        let matches = match &display_lines[idx] {
            DiffDisplayLine::Line { line, .. } => {
                if is_left {
                    match line.old_line_num {
                        Some(v) => v == want && line.tag == DiffLineTag::Delete,
                        None => false,
                    }
                } else {
                    match line.new_line_num {
                        Some(v) => v == want && line.tag != DiffLineTag::Delete,
                        None => false,
                    }
                }
            },
            _ => false,
        };
        assert(matches == row_matches(ds[idx as int], attachment.line, attachment@.side));
        if matches {
            return Some(idx);
        }
        k = idx;
    }
    None
}

/// The first 10 bytes of a time stamp when it has that many.
pub fn timestamp_text(ts: &String) -> (r: Vec<char>)
    requires
        timestamp_cuts(ts@),
    ensures
        r@ == timestamp_label(ts@),
{
    let chars = chars_of(ts.as_str());
    match chars_in_bytes(&chars, 10) {
        Some(j) => {
            proof {
                if j < chars.len() {
                    lemma_byte_len_strictly_grows(chars@, j as int, chars.len() as int);
                }
                assert(chars@.take(chars.len() as int) =~= chars@);
                assert forall|i: int|
                    0 <= i <= chars.len() && byte_len(chars@.take(i)) == 10 implies i == j by {
                    if i < j {
                        lemma_byte_len_strictly_grows(chars@, i, j as int);
                    }
                    if i > j {
                        lemma_byte_len_strictly_grows(chars@, j as int, i);
                    }
                }
            }
            let mut r: Vec<char> = Vec::new();
            let mut i: usize = 0;
            while i < j
                invariant
                    i <= j <= chars.len(),
                    r@ == chars@.take(i as int),
                decreases j - i,
            {
                r.push(chars[i]);
                i = i + 1;
                assert(r@ =~= chars@.take(i as int));
            }
            r
        },
        None => {
            proof {
                assert(chars@.take(chars.len() as int) =~= chars@);
            }
            chars
        },
    }
}

/// Appends the rows of one comment.
fn push_comment_rows(rows: &mut Vec<DiffDisplayLine>, comment: &InlineComment)
    requires
        !comment.is_pending ==> timestamp_cuts(comment.created_at@),
    ensures
        display_views(final(rows)@) == display_views(old(rows)@) + comment_rows(comment@),
{
    let ghost c = comment@;
    let mut label = String::new();
    if comment.is_pending {
        label.append("You (draft)");
        proof {
            reveal_strlit("You (draft)");
        }
        assert(label@ =~= draft_label());
    } else {
        let ts = timestamp_text(&comment.created_at);
        label.append("@");
        label.append(comment.author.as_str());
        label.append(" (");
        append_chars(&mut label, &ts, 0, ts.len());
        label.append(")");
        proof {
            reveal_strlit("@");
            reveal_strlit(" (");
            reveal_strlit(")");
            assert(ts@.subrange(0, ts.len() as int) =~= ts@);
        }
        assert(label@ =~= seq!['@'] + c.author + seq![' ', '('] + timestamp_label(c.created_at) + seq![')']);
    }
    let ghost start = rows@;
    rows.push(DiffDisplayLine::CommentRow { text: label, is_first_line: true, is_pending: comment.is_pending });
    let ghost head = seq![DisplayView::CommentRow { text: author_label(c), is_first_line: true, is_pending: c.is_pending }];
    assert(display_views(rows@) =~= display_views(start) + head);
    let body = chars_of(comment.body.as_str());
    let ranges = line_ranges(&body);
    let ghost ls = lines_of(c.body);
    let ghost f = |k: int|
        DisplayView::CommentRow { text: seq![' ', ' '] + ls[k], is_first_line: false, is_pending: c.is_pending };
    let mut k: usize = 0;
    assert(Seq::new(0, f) =~= Seq::<DisplayView>::empty());
    assert(display_views(rows@) =~= display_views(start) + head + Seq::new(0, f));
    while k < ranges.len()
        invariant
            body@ == c.body,
            ls == lines_of(c.body),
            spans(body@, ranges@) == ls,
            forall|j: int| 0 <= j < ranges.len() ==> (#[trigger] ranges[j]).0 <= ranges[j].1 <= body.len(),
            c == comment@,
            f == (|k: int|
                DisplayView::CommentRow { text: seq![' ', ' '] + ls[k], is_first_line: false, is_pending: c.is_pending }),
            k <= ranges.len(),
            display_views(rows@) == display_views(start) + head + Seq::new(k as nat, f),
        decreases ranges.len() - k,
    {
        let (a, b) = ranges[k];
        let mut text = String::new();
        text.append("  ");
        append_chars(&mut text, &body, a, b);
        proof {
            reveal_strlit("  ");
            assert(text@ =~= seq![' ', ' '] + ls[k as int]);
        }
        let ghost before = rows@;
        rows.push(DiffDisplayLine::CommentRow { text, is_first_line: false, is_pending: comment.is_pending });
        assert(display_views(rows@) =~= display_views(before).push(f(k as int)));
        assert(Seq::new((k + 1) as nat, f) =~= Seq::new(k as nat, f).push(f(k as int)));
        k = k + 1;
    }
    let ghost mid = display_views(rows@);
    if body.len() == 0 {
        rows.push(DiffDisplayLine::CommentRow { text: String::new(), is_first_line: false, is_pending: comment.is_pending });
        assert(display_views(rows@) =~= mid.push(DisplayView::CommentRow { text: Seq::empty(), is_first_line: false, is_pending: c.is_pending }));
    }
    assert(display_views(rows@) =~= display_views(old(rows)@) + comment_rows(c));
}

pub proof fn lemma_last_match_range(ds: Seq<DisplayView>, line: u64, side: Seq<char>, k: int)
    ensures
        last_match(ds, line, side, k) matches Some(t) ==> 0 <= t < k,
    decreases k,
{
    if k > 0 && !row_matches(ds[k - 1], line, side) {
        lemma_last_match_range(ds, line, side, k - 1);
    }
}

/// The rows of all comments of an attachment, in order.
fn attachment_rows(comments: &Vec<InlineComment>) -> (rows: Vec<DiffDisplayLine>)
    requires
        forall|k: int| 0 <= k < comments.len() && !comments@[k].is_pending ==> timestamp_cuts(#[trigger] comments@[k].created_at@),
    ensures
        display_views(rows@) == comments_rows(comments@.map_values(|c: InlineComment| c@), comments.len() as int),
{
    let ghost cs = comments@.map_values(|c: InlineComment| c@);
    let mut rows: Vec<DiffDisplayLine> = Vec::new();
    let mut k: usize = 0;
    assert(display_views(rows@) =~= Seq::<DisplayView>::empty());
    while k < comments.len()
        invariant
            cs == comments@.map_values(|c: InlineComment| c@),
            forall|j: int| 0 <= j < comments.len() && !comments@[j].is_pending ==> timestamp_cuts(#[trigger] comments@[j].created_at@),
            k <= comments.len(),
            display_views(rows@) == comments_rows(cs, k as int),
        decreases comments.len() - k,
    {
        assert(cs[k as int] == comments@[k as int]@);
        push_comment_rows(&mut rows, &comments[k]);
        k = k + 1;
    }
    rows
}

/// Puts the rows of each attachment's comments after the last row that
/// shows the line the attachment is about, keeping the order of the
/// attachments; attachments whose line is not shown are left out.
pub fn inject_inline_comments(display_lines: &mut Vec<DiffDisplayLine>, attachments: &[CommentAttachment])
    requires
        attachments_cut(display_views(old(display_lines)@), attachments_view(attachments@)),
    ensures
        display_views(final(display_lines)@) == injected(
            display_views(old(display_lines)@),
            attachments_view(attachments@),
        ),
{
    let ghost ds = display_views(display_lines@);
    let ghost atts = attachments_view(attachments@);
    let m = attachments.len();
    let mut targets: Vec<Option<usize>> = Vec::new();
    let mut all_rows: Vec<Vec<DiffDisplayLine>> = Vec::new();
    let mut a: usize = 0;
    while a < m
        invariant
            m == attachments.len(),
            ds == display_views(display_lines@),
            atts == attachments_view(attachments@),
            attachments_cut(ds, atts),
            a <= m,
            targets.len() == a,
            all_rows.len() == a,
            forall|j: int| 0 <= j < a ==> match attachment_target(ds, atts[j]) {
                Some(t) => #[trigger] targets@[j] == Some(t as usize),
                None => targets@[j] is None,
            },
            forall|j: int| 0 <= j < a && targets@[j] is Some ==> display_views(#[trigger] all_rows@[j]@) == comments_rows(
                atts[j].comments,
                atts[j].comments.len() as int,
            ),
        decreases m - a,
    {
        assert(atts[a as int] == attachments@[a as int]@);
        let t = find_target(display_lines, &attachments[a]);
        targets.push(t);
        if t.is_some() {
            proof {
                assert forall|k: int| 0 <= k < attachments@[a as int].comments.len() && !attachments@[a as int].comments@[k].is_pending implies timestamp_cuts(#[trigger] attachments@[a as int].comments@[k].created_at@) by {
                    assert(atts[a as int].comments[k] == attachments@[a as int].comments@[k]@);
                    assert(attachment_target(ds, atts[a as int]) is Some);
                    assert(timestamp_cuts(atts[a as int].comments[k].created_at));
                }
            }
            all_rows.push(attachment_rows(&attachments[a].comments));
        } else {
            all_rows.push(Vec::new());
        }
        a = a + 1;
    }
    let n = display_lines.len();
    let mut out: Vec<DiffDisplayLine> = Vec::new();
    let mut d: usize = 0;
    assert(display_views(out@) =~= injected_prefix(ds, atts, 0));
    while d < n
        invariant
            n == display_lines.len(),
            m == attachments.len(),
            ds == display_views(display_lines@),
            atts == attachments_view(attachments@),
            targets.len() == m,
            all_rows.len() == m,
            forall|j: int| 0 <= j < m ==> match attachment_target(ds, atts[j]) {
                Some(t) => #[trigger] targets@[j] == Some(t as usize),
                None => targets@[j] is None,
            },
            forall|j: int| 0 <= j < m && targets@[j] is Some ==> display_views(#[trigger] all_rows@[j]@) == comments_rows(
                atts[j].comments,
                atts[j].comments.len() as int,
            ),
            d <= n,
            display_views(out@) == injected_prefix(ds, atts, d as int),
        decreases n - d,
    {
        let ghost base = display_views(out@);
        out.push(display_lines[d].duplicate());
        assert(display_views(out@) =~= base + seq![ds[d as int]]);
        let mut a: usize = 0;
        assert(display_views(out@) =~= base + seq![ds[d as int]] + rows_for(ds, atts, d as int, 0));
        while a < m
            invariant
                n == display_lines.len(),
                m == attachments.len(),
                d < n,
                targets.len() == m,
                all_rows.len() == m,
                forall|j: int| 0 <= j < m ==> match attachment_target(ds, atts[j]) {
                    Some(t) => #[trigger] targets@[j] == Some(t as usize),
                    None => targets@[j] is None,
                },
                forall|j: int| 0 <= j < m && targets@[j] is Some ==> display_views(#[trigger] all_rows@[j]@) == comments_rows(
                    atts[j].comments,
                    atts[j].comments.len() as int,
                ),
                atts.len() == m,
                ds == display_views(display_lines@),
                atts == attachments_view(attachments@),
                a <= m,
                display_views(out@) == base + seq![ds[d as int]] + rows_for(ds, atts, d as int, a as int),
            decreases m - a,
        {
            let hit = match targets[a] {
                Some(t) => t == d,
                None => false,
            };
            assert(hit == (attachment_target(ds, atts[a as int]) == Some(d as int))) by {
                let _ = targets@[a as int];
                lemma_last_match_range(ds, atts[a as int].line, atts[a as int].side, ds.len() as int);
            }
            if hit {
                let rows = &all_rows[a];
                let mut k: usize = 0;
                let ghost before = display_views(out@);
                assert(before + display_views(rows@.take(0)) =~= before);
                while k < rows.len()
                    invariant
                        k <= rows.len(),
                        display_views(out@) == before + display_views(rows@.take(k as int)),
                    decreases rows.len() - k,
                {
                    let ghost prev = out@;
                    out.push(rows[k].duplicate());
                    assert(out@ == prev.push(out@.last()));
                    assert(display_views(rows@.take(k + 1)) =~= display_views(rows@.take(k as int)).push(rows@[k as int]@));
                    assert(display_views(out@) =~= display_views(prev).push(rows@[k as int]@));
                    k = k + 1;
                    assert(display_views(out@) =~= before + display_views(rows@.take(k as int)));
                }
                assert(rows@.take(rows.len() as int) =~= rows@);
                assert(display_views(out@) =~= base + seq![ds[d as int]] + rows_for(ds, atts, d as int, a + 1));
            } else {
                assert(display_views(out@) =~= base + seq![ds[d as int]] + rows_for(ds, atts, d as int, a + 1));
            }
            a = a + 1;
        }
        assert(display_views(out@) =~= injected_prefix(ds, atts, d + 1));
        d = d + 1;
    }
    *display_lines = out;
}

// ---------------------------------------------------------------------------
// Laws of the layout
// ---------------------------------------------------------------------------

/// The diff lines a layout item stands for: `start..end`.
pub open spec fn item_span(it: LayoutItem) -> (int, int) {
    match it {
        LayoutItem::Line(i) => (i, i + 1),
        LayoutItem::Collapsed(s, e) => (s, e),
    }
}

/// The items stand for consecutive, non-empty runs of lines that together
/// are exactly `a..b`, in order.
pub open spec fn chains(items: Seq<LayoutItem>, a: int, b: int) -> bool {
    &&& items.len() == 0 ==> a == b
    &&& items.len() > 0 ==> item_span(items[0]).0 == a && item_span(items.last()).1 == b
    &&& forall|k: int| 0 <= k < items.len() ==> item_span(#[trigger] items[k]).0 < item_span(items[k]).1
    &&& forall|k: int|
        0 <= k < items.len() - 1 ==> item_span(#[trigger] items[k]).1 == item_span(items[k + 1]).0
}

proof fn lemma_chains_concat(x: Seq<LayoutItem>, y: Seq<LayoutItem>, a: int, b: int, c: int)
    requires
        chains(x, a, b),
        chains(y, b, c),
    ensures
        chains(x + y, a, c),
{
    let z = x + y;
    assert forall|k: int| 0 <= k < z.len() implies item_span(#[trigger] z[k]).0 < item_span(z[k]).1 by {
        if k < x.len() {
            assert(z[k] == x[k]);
        } else {
            assert(z[k] == y[k - x.len()]);
        }
    }
    assert forall|k: int| 0 <= k < z.len() - 1 implies item_span(#[trigger] z[k]).1 == item_span(z[k + 1]).0 by {
        if k < x.len() - 1 {
            assert(z[k] == x[k] && z[k + 1] == x[k + 1]);
        } else if k == x.len() - 1 {
            assert(z[k] == x[k] && z[k + 1] == y[0]);
        } else {
            assert(z[k] == y[k - x.len()] && z[k + 1] == y[k + 1 - x.len()]);
        }
    }
    if x.len() == 0 {
        assert(z =~= y);
    } else if y.len() == 0 {
        assert(z =~= x);
    } else {
        assert(z[0] == x[0]);
        assert(z.last() == y.last());
    }
}

proof fn lemma_line_items_chain(s: int, e: int)
    requires
        s <= e,
    ensures
        chains(line_items(s, e), s, e),
{
}

proof fn lemma_gap_chain(s: int, e: int, expanded: Seq<(usize, usize)>)
    requires
        s <= e,
    ensures
        chains(gap_items(s, e, expanded), s, e),
{
}

/// Facts about the visible ranges once the first `k` lines are read.
pub open spec fn ranges_wf(lines: Seq<DiffLineView>, context: int, k: int, r: Seq<(int, int)>) -> bool {
    let n = lines.len() as int;
    &&& forall|j: int| 0 <= j < r.len() ==> 0 <= (#[trigger] r[j]).0 < r[j].1 <= n
    &&& forall|j: int| 0 <= j < r.len() - 1 ==> (#[trigger] r[j]).1 < r[j + 1].0
    &&& forall|j: int| 0 <= j < r.len() ==> (#[trigger] r[j]).0 <= max0(k - context)
    &&& forall|j: int| 0 <= j < r.len() ==> (#[trigger] r[j]).1 <= min_int(k + context, n)
    &&& forall|i: int, x: int|
        0 <= i < k && #[trigger] near_change(lines, context, i, x) ==> exists|j: int|
            0 <= j < r.len() && (#[trigger] r[j]).0 <= x < r[j].1
}

/// Line `i` is changed and line `x` lies within the context shown around it.
pub open spec fn near_change(lines: Seq<DiffLineView>, context: int, i: int, x: int) -> bool {
    is_changed(lines, i) && max0(i - context) <= x < min_int(i + context + 1, lines.len() as int)
}

proof fn lemma_ranges_wf(lines: Seq<DiffLineView>, context: int, k: int)
    requires
        0 <= k <= lines.len(),
        context >= 0,
    ensures
        ranges_wf(lines, context, k, visible_ranges(lines, context, k)),
    decreases k,
{
    let n = lines.len() as int;
    if k > 0 {
        lemma_ranges_wf(lines, context, k - 1);
        let r0 = visible_ranges(lines, context, k - 1);
        let r = visible_ranges(lines, context, k);
        let i = k - 1;
        if is_changed(lines, i) {
            let s = max0(i - context);
            let e = min_int(i + context + 1, n);
            if r0.len() > 0 && s <= r0.last().1 {
                let l = r0.len() - 1;
                assert(r == r0.update(l, (r0[l].0, e)));
                assert forall|ii: int, x: int|
                    0 <= ii < k && #[trigger] near_change(lines, context, ii, x) implies exists|j: int| 0 <= j < r.len() && (#[trigger] r[j]).0 <= x < r[j].1 by {
                    if ii < k - 1 {
                        let j = choose|j: int| 0 <= j < r0.len() && (#[trigger] r0[j]).0 <= x < r0[j].1;
                        if j == l {
                            assert(r[l].0 <= x < r[l].1);
                        } else {
                            assert(r[j] == r0[j]);
                        }
                    } else {
                        assert(r[l].0 <= x < r[l].1);
                    }
                }
            } else {
                let l = r0.len() as int;
                assert(r == r0.push((s, e)));
                assert forall|ii: int, x: int|
                    0 <= ii < k && #[trigger] near_change(lines, context, ii, x) implies exists|j: int| 0 <= j < r.len() && (#[trigger] r[j]).0 <= x < r[j].1 by {
                    if ii < k - 1 {
                        let j = choose|j: int| 0 <= j < r0.len() && (#[trigger] r0[j]).0 <= x < r0[j].1;
                        assert(r[j] == r0[j]);
                    } else {
                        assert(r[l].0 <= x < r[l].1);
                    }
                }
            }
        } else {
            assert forall|ii: int, x: int|
                0 <= ii < k && #[trigger] near_change(lines, context, ii, x) implies exists|j: int| 0 <= j < r.len() && (#[trigger] r[j]).0 <= x < r[j].1 by {
                let j = choose|j: int| 0 <= j < r0.len() && (#[trigger] r0[j]).0 <= x < r0[j].1;
                assert(r[j] == r0[j]);
            }
        }
    }
}

proof fn lemma_layout_chains(r: Seq<(int, int)>, expanded: Seq<(usize, usize)>, j: int)
    requires
        0 <= j <= r.len(),
        forall|t: int| 0 <= t < r.len() ==> 0 <= (#[trigger] r[t]).0 < r[t].1,
        forall|t: int| 0 <= t < r.len() - 1 ==> (#[trigger] r[t]).1 < r[t + 1].0,
    ensures
        chains(layout(r, expanded, j), 0, range_end(r, j)),
    decreases j,
{
    if j > 0 {
        lemma_layout_chains(r, expanded, j - 1);
        let p = range_end(r, j - 1);
        if j - 1 > 0 {
            assert(r[j - 2].1 < r[j - 1].0);
        }
        lemma_gap_chain(p, r[j - 1].0, expanded);
        lemma_line_items_chain(r[j - 1].0, r[j - 1].1);
        lemma_chains_concat(layout(r, expanded, j - 1), gap_items(p, r[j - 1].0, expanded), 0, p, r[j - 1].0);
        lemma_chains_concat(
            layout(r, expanded, j - 1) + gap_items(p, r[j - 1].0, expanded),
            line_items(r[j - 1].0, r[j - 1].1),
            0,
            r[j - 1].0,
            r[j - 1].1,
        );
    }
}

/// Law: the rows of the diff view stand for all lines of the diff, each
/// exactly once and in order: row by row they cover consecutive, non-empty
/// runs of lines that together are `0..n`.
pub proof fn law_rows_cover_all_lines(
    lines: Seq<DiffLineView>,
    expanded: Seq<(usize, usize)>,
    context: int,
)
    requires
        context >= 0,
    ensures
        chains(display_layout(lines, expanded, context), 0, lines.len() as int),
{
    let n = lines.len() as int;
    if n > 0 {
        lemma_ranges_wf(lines, context, n);
        let r = visible_ranges(lines, context, n);
        lemma_layout_chains(r, expanded, r.len() as int);
        lemma_gap_chain(range_end(r, r.len() as int), n, expanded);
        lemma_chains_concat(
            layout(r, expanded, r.len() as int),
            gap_items(range_end(r, r.len() as int), n, expanded),
            0,
            range_end(r, r.len() as int),
            n,
        );
    }
}

proof fn lemma_range_lines_shown(r: Seq<(int, int)>, expanded: Seq<(usize, usize)>, j: int, x: int, m: int)
    requires
        0 <= j < m <= r.len(),
        r[j].0 <= x < r[j].1,
    ensures
        exists|k: int| 0 <= k < layout(r, expanded, m).len() && #[trigger] layout(r, expanded, m)[k] == LayoutItem::Line(x),
    decreases m,
{
    if j < m - 1 {
        lemma_range_lines_shown(r, expanded, j, x, m - 1);
        let k = choose|k: int| 0 <= k < layout(r, expanded, m - 1).len() && #[trigger] layout(r, expanded, m - 1)[k] == LayoutItem::Line(x);
        assert(layout(r, expanded, m)[k] == layout(r, expanded, m - 1)[k]);
    } else {
        let pre = layout(r, expanded, j) + gap_items(range_end(r, j), r[j].0, expanded);
        let k = pre.len() + (x - r[j].0);
        assert(layout(r, expanded, m)[k] == line_items(r[j].0, r[j].1)[x - r[j].0]);
    }
}

/// Law: every changed line, and every line no farther than `context` from a
/// changed line, is shown on a row of its own.
pub proof fn law_changes_shown_with_context(
    lines: Seq<DiffLineView>,
    expanded: Seq<(usize, usize)>,
    context: int,
    i: int,
    x: int,
)
    requires
        context >= 0,
        0 <= i < lines.len(),
        is_changed(lines, i),
        0 <= x < lines.len(),
        i - context <= x <= i + context,
    ensures
        exists|k: int|
            0 <= k < display_layout(lines, expanded, context).len()
                && #[trigger] display_layout(lines, expanded, context)[k] == LayoutItem::Line(x),
{
    let n = lines.len() as int;
    lemma_ranges_wf(lines, context, n);
    let r = visible_ranges(lines, context, n);
    assert(near_change(lines, context, i, x));
    let j = choose|j: int| 0 <= j < r.len() && (#[trigger] r[j]).0 <= x < r[j].1;
    lemma_range_lines_shown(r, expanded, j, x, r.len() as int);
    let k = choose|k: int| 0 <= k < layout(r, expanded, r.len() as int).len() && #[trigger] layout(r, expanded, r.len() as int)[k] == LayoutItem::Line(x);
    assert(display_layout(lines, expanded, context)[k] == LayoutItem::Line(x));
}


/// Whether line `x` lies in the range `p.0..p.1`.
pub open spec fn in_span(p: (int, int), x: int) -> bool {
    p.0 <= x < p.1
}

/// Whether the rows show line `x` on a row of its own.
pub open spec fn shows_line(items: Seq<LayoutItem>, x: int) -> bool {
    exists|p: int| 0 <= p < items.len() && #[trigger] items[p] == LayoutItem::Line(x)
}

/// Every line of a visible range lies within the context of a changed line
/// among the first `k`.
proof fn lemma_ranges_near(lines: Seq<DiffLineView>, context: int, k: int)
    requires
        0 <= k <= lines.len(),
        context >= 0,
    ensures
        forall|j: int, x: int|
            0 <= j < visible_ranges(lines, context, k).len() && #[trigger] in_span(
                visible_ranges(lines, context, k)[j],
                x,
            ) ==> exists|i: int| 0 <= i < k && #[trigger] near_change(lines, context, i, x),
    decreases k,
{
    if k > 0 {
        lemma_ranges_near(lines, context, k - 1);
        lemma_ranges_wf(lines, context, k - 1);
        let n = lines.len() as int;
        let r0 = visible_ranges(lines, context, k - 1);
        let r = visible_ranges(lines, context, k);
        let i = k - 1;
        assert forall|j: int, x: int| 0 <= j < r.len() && #[trigger] in_span(r[j], x) implies exists|ii: int|
            0 <= ii < k && #[trigger] near_change(lines, context, ii, x) by {
            if is_changed(lines, i) {
                let s = max0(i - context);
                let e = min_int(i + context + 1, n);
                if r0.len() > 0 && s <= r0.last().1 {
                    let l = r0.len() - 1;
                    if j == l && x >= r0[l].1 {
                        assert(near_change(lines, context, i, x));
                    } else {
                        assert(in_span(r0[j], x));
                        let ii = choose|ii: int| 0 <= ii < k - 1 && #[trigger] near_change(lines, context, ii, x);
                        assert(near_change(lines, context, ii, x));
                    }
                } else {
                    if j == r0.len() {
                        assert(near_change(lines, context, i, x));
                    } else {
                        assert(r[j] == r0[j]);
                        assert(in_span(r0[j], x));
                        let ii = choose|ii: int| 0 <= ii < k - 1 && #[trigger] near_change(lines, context, ii, x);
                        assert(near_change(lines, context, ii, x));
                    }
                }
            } else {
                assert(r[j] == r0[j]);
                assert(in_span(r0[j], x));
                let ii = choose|ii: int| 0 <= ii < k - 1 && #[trigger] near_change(lines, context, ii, x);
                assert(near_change(lines, context, ii, x));
            }
        }
    }
}

/// With no section expanded, a line row of the layout lies in one of the
/// visible ranges.
proof fn lemma_layout_lines_in_ranges(r: Seq<(int, int)>, m: int, p: int, x: int)
    requires
        0 <= m <= r.len(),
        0 <= p < layout(r, Seq::<(usize, usize)>::empty(), m).len(),
        layout(r, Seq::<(usize, usize)>::empty(), m)[p] == LayoutItem::Line(x),
        forall|t: int| 0 <= t < r.len() ==> (#[trigger] r[t]).0 <= r[t].1,
    ensures
        exists|j: int| 0 <= j < m && (#[trigger] r[j]).0 <= x < r[j].1,
    decreases m,
{
    let none = Seq::<(usize, usize)>::empty();
    if m > 0 {
        let pre = layout(r, none, m - 1);
        let gap = gap_items(range_end(r, m - 1), r[m - 1].0, none);
        let ls = line_items(r[m - 1].0, r[m - 1].1);
        assert(layout(r, none, m) == pre + gap + ls);
        if p < pre.len() {
            assert(layout(r, none, m)[p] == pre[p]);
            lemma_layout_lines_in_ranges(r, m - 1, p, x);
            let j = choose|j: int| 0 <= j < m - 1 && (#[trigger] r[j]).0 <= x < r[j].1;
            assert(r[j].0 <= x < r[j].1);
        } else if p < pre.len() + gap.len() {
            assert(layout(r, none, m)[p] == gap[p - pre.len()]);
            assert(!is_expanded(none, range_end(r, m - 1), r[m - 1].0));
        } else {
            let idx = p - pre.len() - gap.len();
            assert(r[m - 1].0 <= r[m - 1].1);
            assert(layout(r, none, m)[p] == ls[idx]);
            assert(ls[idx] == LayoutItem::Line(r[m - 1].0 + idx));
        }
    }
}

/// Law: with no section expanded, widening the context never hides a line:
/// every line shown on a row of its own with `k1` lines of context is shown
/// so with `k2 >= k1` lines as well.
pub proof fn law_wider_context_hides_no_line(lines: Seq<DiffLineView>, k1: int, k2: int, x: int)
    requires
        0 <= k1 <= k2,
        shows_line(display_layout(lines, Seq::<(usize, usize)>::empty(), k1), x),
    ensures
        shows_line(display_layout(lines, Seq::<(usize, usize)>::empty(), k2), x),
{
    let none = Seq::<(usize, usize)>::empty();
    let n = lines.len() as int;
    let d1 = display_layout(lines, none, k1);
    let p = choose|p: int| 0 <= p < d1.len() && #[trigger] d1[p] == LayoutItem::Line(x);
    let r = visible_ranges(lines, k1, n);
    let main = layout(r, none, r.len() as int);
    let tail = gap_items(range_end(r, r.len() as int), n, none);
    assert(n > 0);
    assert(d1 == main + tail);
    if p >= main.len() {
        assert(d1[p] == tail[p - main.len()]);
        assert(!is_expanded(none, range_end(r, r.len() as int), n));
        assert(false);
    }
    assert(main[p] == d1[p]);
    lemma_ranges_wf(lines, k1, n);
    lemma_layout_lines_in_ranges(r, r.len() as int, p, x);
    let j = choose|j: int| 0 <= j < r.len() && (#[trigger] r[j]).0 <= x < r[j].1;
    lemma_ranges_near(lines, k1, n);
    lemma_ranges_wf(lines, k1, n);
    assert(in_span(r[j], x));
    let i = choose|i: int| 0 <= i < n && #[trigger] near_change(lines, k1, i, x);
    assert(near_change(lines, k1, i, x));
    law_changes_shown_with_context(lines, none, k2, i, x);
    let q = choose|q: int|
        0 <= q < display_layout(lines, none, k2).len() && #[trigger] display_layout(lines, none, k2)[q] == LayoutItem::Line(x);
    assert(display_layout(lines, none, k2)[q] == LayoutItem::Line(x));
}

/// The number of folded rows among the items.
pub open spec fn collapsed_count(items: Seq<LayoutItem>) -> nat
    decreases items.len(),
{
    if items.len() == 0 {
        0
    } else {
        collapsed_count(items.drop_last()) + if items.last() is Collapsed {
            1nat
        } else {
            0nat
        }
    }
}

proof fn lemma_collapsed_count_concat(a: Seq<LayoutItem>, b: Seq<LayoutItem>)
    ensures
        collapsed_count(a + b) == collapsed_count(a) + collapsed_count(b),
    decreases b.len(),
{
    if b.len() == 0 {
        assert(a + b =~= a);
    } else {
        assert((a + b).drop_last() =~= a + b.drop_last());
        assert((a + b).last() == b.last());
        lemma_collapsed_count_concat(a, b.drop_last());
    }
}

proof fn lemma_line_items_unfolded(s: int, e: int)
    requires
        s <= e,
    ensures
        collapsed_count(line_items(s, e)) == 0,
    decreases e - s,
{
    if s < e {
        assert(line_items(s, e).drop_last() =~= line_items(s, e - 1));
        lemma_line_items_unfolded(s, e - 1);
    }
}

/// The folded rows of one unexpanded run of hidden lines: one when it is
/// not empty.
proof fn lemma_gap_folds_once(s: int, e: int)
    ensures
        collapsed_count(gap_items(s, e, Seq::<(usize, usize)>::empty())) == if s < e {
            1nat
        } else {
            0nat
        },
{
    let none = Seq::<(usize, usize)>::empty();
    if s < e {
        assert(!is_expanded(none, s, e));
        let g = gap_items(s, e, none);
        assert(g == seq![LayoutItem::Collapsed(s, e)]);
        assert(g.drop_last() =~= Seq::<LayoutItem>::empty());
        assert(collapsed_count(Seq::<LayoutItem>::empty()) == 0);
        assert(g.last() is Collapsed);
    }
}

/// The number of non-empty runs of hidden lines before the first `m`
/// ranges.
pub open spec fn gap_count(r: Seq<(int, int)>, m: int) -> nat
    decreases m,
{
    if m <= 0 {
        0
    } else {
        gap_count(r, m - 1) + if range_end(r, m - 1) < r[m - 1].0 {
            1nat
        } else {
            0nat
        }
    }
}

proof fn lemma_layout_folds(r: Seq<(int, int)>, m: int)
    requires
        0 <= m <= r.len(),
        forall|t: int| 0 <= t < r.len() ==> (#[trigger] r[t]).0 <= r[t].1,
    ensures
        collapsed_count(layout(r, Seq::<(usize, usize)>::empty(), m)) == gap_count(r, m),
    decreases m,
{
    let none = Seq::<(usize, usize)>::empty();
    if m > 0 {
        lemma_layout_folds(r, m - 1);
        let pre = layout(r, none, m - 1);
        let gap = gap_items(range_end(r, m - 1), r[m - 1].0, none);
        let ls = line_items(r[m - 1].0, r[m - 1].1);
        lemma_collapsed_count_concat(pre, gap);
        lemma_collapsed_count_concat(pre + gap, ls);
        lemma_gap_folds_once(range_end(r, m - 1), r[m - 1].0);
        lemma_line_items_unfolded(r[m - 1].0, r[m - 1].1);
    }
}

/// Ranges apart from one another leave a run of hidden lines before each
/// range but the first.
proof fn lemma_gap_count_apart(r: Seq<(int, int)>, m: int)
    requires
        1 <= m <= r.len(),
        forall|t: int| 0 <= t < r.len() - 1 ==> (#[trigger] r[t]).1 < r[t + 1].0,
    ensures
        gap_count(r, m) == (m - 1) + if r[0].0 > 0 {
            1int
        } else {
            0int
        },
    decreases m,
{
    if m > 1 {
        lemma_gap_count_apart(r, m - 1);
        assert(r[m - 2].1 < r[m - 1].0);
        assert(range_end(r, m - 1) == r[m - 2].1);
    } else {
        assert(gap_count(r, 0) == 0);
        assert(range_end(r, 0) == 0);
    }
}

/// The number of folded rows with no section expanded: one for the whole
/// diff when nothing changed, else one between any two ranges, one before
/// the first range unless it starts the diff and one after the last unless
/// it ends it.
proof fn lemma_display_folds(lines: Seq<DiffLineView>, context: int)
    requires
        context >= 0,
        lines.len() > 0,
    ensures
        ({
            let r = visible_ranges(lines, context, lines.len() as int);
            collapsed_count(display_layout(lines, Seq::<(usize, usize)>::empty(), context)) == if r.len() == 0 {
                1int
            } else {
                (r.len() - 1) + (if r[0].0 > 0 {
                    1int
                } else {
                    0int
                }) + (if r.last().1 < lines.len() {
                    1int
                } else {
                    0int
                })
            }
        }),
{
    let none = Seq::<(usize, usize)>::empty();
    let n = lines.len() as int;
    lemma_ranges_wf(lines, context, n);
    let r = visible_ranges(lines, context, n);
    let l = r.len() as int;
    lemma_layout_folds(r, l);
    lemma_collapsed_count_concat(layout(r, none, l), gap_items(range_end(r, l), n, none));
    lemma_gap_folds_once(range_end(r, l), n);
    if l > 0 {
        lemma_gap_count_apart(r, l);
    }
}

/// Whether a line among the first `m` is changed.
pub open spec fn any_change(lines: Seq<DiffLineView>, m: int) -> bool {
    exists|i: int| 0 <= i < m && #[trigger] is_changed(lines, i)
}

/// Reading the first `m` lines with a wider context gives no more ranges,
/// a first range starting no later and a last range ending no earlier.
proof fn lemma_wider_ranges(lines: Seq<DiffLineView>, c1: int, c2: int, m: int)
    requires
        0 <= c1 <= c2,
        0 <= m <= lines.len(),
    ensures
        ({
            let r1 = visible_ranges(lines, c1, m);
            let r2 = visible_ranges(lines, c2, m);
            &&& (r1.len() == 0) == !any_change(lines, m)
            &&& (r2.len() == 0) == !any_change(lines, m)
            &&& r2.len() <= r1.len()
            &&& r1.len() > 0 ==> r2[0].0 <= r1[0].0 && r1.last().1 <= r2.last().1
        }),
    decreases m,
{
    if m > 0 {
        lemma_wider_ranges(lines, c1, c2, m - 1);
        let i = m - 1;
        let n = lines.len() as int;
        let a1 = visible_ranges(lines, c1, m - 1);
        let a2 = visible_ranges(lines, c2, m - 1);
        if is_changed(lines, i) {
            assert(any_change(lines, m));
        } else {
            if any_change(lines, m) {
                let j = choose|j: int| 0 <= j < m && #[trigger] is_changed(lines, j);
                assert(any_change(lines, m - 1));
            }
            if any_change(lines, m - 1) {
                let j = choose|j: int| 0 <= j < m - 1 && #[trigger] is_changed(lines, j);
                assert(any_change(lines, m));
            }
        }
        if is_changed(lines, i) && a1.len() > 0 {
            let s1 = max0(i - c1);
            let s2 = max0(i - c2);
            assert(s2 <= s1);
            assert(!(s2 <= a2.last().1) ==> !(s1 <= a1.last().1));
        }
    }
}

/// Law: with no section expanded, widening the context never folds more
/// runs of lines: the diff view with `k2 >= k1` lines of context has no
/// more collapsed rows than with `k1`.
pub proof fn law_wider_context_folds_no_more(lines: Seq<DiffLineView>, k1: int, k2: int)
    requires
        0 <= k1 <= k2,
    ensures
        collapsed_count(display_layout(lines, Seq::<(usize, usize)>::empty(), k2)) <= collapsed_count(
            display_layout(lines, Seq::<(usize, usize)>::empty(), k1),
        ),
{
    let n = lines.len() as int;
    if n > 0 {
        lemma_display_folds(lines, k1);
        lemma_display_folds(lines, k2);
        lemma_wider_ranges(lines, k1, k2, n);
    }
}

/// Whether a row shows part of the diff rather than a comment.
pub open spec fn diff_row(d: DisplayView) -> bool {
    !(d is CommentRow)
}

pub proof fn lemma_filter_none(s: Seq<DisplayView>)
    requires
        forall|i: int| 0 <= i < s.len() ==> !diff_row(#[trigger] s[i]),
    ensures
        s.filter(|d: DisplayView| diff_row(d)) == Seq::<DisplayView>::empty(),
    decreases s.len(),
{
    reveal_with_fuel(Seq::<_>::filter, 1);
    if s.len() > 0 {
        assert(!diff_row(s[s.len() - 1]));
        lemma_filter_none(s.drop_last());
    }
}

pub proof fn lemma_comment_rows_only(c: InlineCommentView)
    ensures
        forall|i: int| 0 <= i < comment_rows(c).len() ==> !diff_row(#[trigger] comment_rows(c)[i]),
{
}

pub proof fn lemma_comments_rows_only(cs: Seq<InlineCommentView>, k: int)
    ensures
        forall|i: int| 0 <= i < comments_rows(cs, k).len() ==> !diff_row(#[trigger] comments_rows(cs, k)[i]),
    decreases k,
{
    if k > 0 {
        lemma_comments_rows_only(cs, k - 1);
        lemma_comment_rows_only(cs[k - 1]);
        let a = comments_rows(cs, k - 1);
        let b = comment_rows(cs[k - 1]);
        assert forall|i: int| 0 <= i < (a + b).len() implies !diff_row(#[trigger] (a + b)[i]) by {
            if i < a.len() {
                assert((a + b)[i] == a[i]);
            } else {
                assert((a + b)[i] == b[i - a.len()]);
            }
        }
    }
}

pub proof fn lemma_rows_for_only(ds: Seq<DisplayView>, atts: Seq<AttachmentView>, d: int, m: int)
    ensures
        forall|i: int| 0 <= i < rows_for(ds, atts, d, m).len() ==> !diff_row(#[trigger] rows_for(ds, atts, d, m)[i]),
    decreases m,
{
    if m > 0 {
        lemma_rows_for_only(ds, atts, d, m - 1);
        let a = rows_for(ds, atts, d, m - 1);
        let b = if attachment_target(ds, atts[m - 1]) == Some(d) {
            comments_rows(atts[m - 1].comments, atts[m - 1].comments.len() as int)
        } else {
            Seq::empty()
        };
        lemma_comments_rows_only(atts[m - 1].comments, atts[m - 1].comments.len() as int);
        assert forall|i: int| 0 <= i < (a + b).len() implies !diff_row(#[trigger] (a + b)[i]) by {
            if i < a.len() {
                assert((a + b)[i] == a[i]);
            } else {
                assert((a + b)[i] == b[i - a.len()]);
            }
        }
    }
}

/// Comment rows only go between the rows: taking them out again gives back
/// the rows of the diff as they were, in their order.
pub proof fn law_injection_keeps_rows(ds: Seq<DisplayView>, atts: Seq<AttachmentView>)
    ensures
        injected(ds, atts).filter(|d: DisplayView| diff_row(d)) == ds.filter(|d: DisplayView| diff_row(d)),
{
    lemma_injected_prefix_keeps_rows(ds, atts, ds.len() as int);
    assert(ds.take(ds.len() as int) =~= ds);
}

pub proof fn lemma_injected_prefix_keeps_rows(ds: Seq<DisplayView>, atts: Seq<AttachmentView>, d: int)
    requires
        0 <= d <= ds.len(),
    ensures
        injected_prefix(ds, atts, d).filter(|x: DisplayView| diff_row(x)) == ds.take(d).filter(|x: DisplayView| diff_row(x)),
    decreases d,
{
    let f = |x: DisplayView| diff_row(x);
    if d == 0 {
        reveal_with_fuel(Seq::<_>::filter, 1);
        assert(ds.take(0) =~= Seq::<DisplayView>::empty());
    } else {
        lemma_injected_prefix_keeps_rows(ds, atts, d - 1);
        let p = injected_prefix(ds, atts, d - 1);
        let one = seq![ds[d - 1]];
        let rows = rows_for(ds, atts, d - 1, atts.len() as int);
        lemma_rows_for_only(ds, atts, d - 1, atts.len() as int);
        lemma_filter_none(rows);
        Seq::filter_distributes_over_add(p + one, rows, f);
        Seq::filter_distributes_over_add(p, one, f);
        assert(ds.take(d) =~= ds.take(d - 1) + one);
        Seq::filter_distributes_over_add(ds.take(d - 1), one, f);
        assert(p + one + rows == injected_prefix(ds, atts, d));
        assert((p + one + rows).filter(f) =~= (p + one).filter(f) + rows.filter(f));
    }
}
} // verus!
