//! The blocks a Markdown document renders as: paragraphs, block images,
//! headings, code blocks, lists, quotes, tables, rules and the blocks of
//! embedded HTML, decided from the document's events.
use vstd::prelude::*;
use crate::html_blocks::{
    block_view, blocks_view, bold_content, content_view, contents_view, html_block, lemma_blocks_view, make_bold,
    render_html_block, rows_view, state_content, BlockView, ContentView, HtmlBlock,
};
use crate::markdown_inline::{
    code_block_text, code_run, collect_inline, drop_final_newline, event_views, image_label, image_placeholder,
    initial_state, inline_run, paragraph_image, paragraph_image_spec, InlineContent, MdEvent, MdEventView, MdTag,
};

verus! {

/// A block of a rendered Markdown document.
#[derive(Debug)]
pub enum MdBlock {
    /// A paragraph that holds nothing but an image: its URL and the label
    /// shown when it cannot load.
    Image { url: String, alt: String },
    /// A paragraph of inline text.
    Text(InlineContent),
    /// A heading of the given level; its text is bold throughout.
    Heading { level: u8, content: InlineContent },
    /// A code block.
    Code(String),
    /// A list; its items are `Item` blocks.
    List { ordered: bool, items: Vec<MdBlock> },
    /// A list item with its number (shown in ordered lists) and its blocks.
    Item { number: u64, blocks: Vec<MdBlock> },
    /// A block quote.
    Quote(Vec<MdBlock>),
    /// A table: its header cells, bold throughout, its rows, and the number
    /// of columns each row shows (cells a row lacks show empty, cells past
    /// it are not shown).
    Table { header: Vec<InlineContent>, rows: Vec<Vec<InlineContent>>, columns: usize },
    /// A horizontal rule.
    Rule,
    /// A block of embedded HTML.
    Html(HtmlBlock),
}

pub enum MdBlockView {
    Image(Seq<char>, Seq<char>),
    Text(ContentView),
    Heading(u8, ContentView),
    Code(Seq<char>),
    List(bool, Seq<MdBlockView>),
    Item(u64, Seq<MdBlockView>),
    Quote(Seq<MdBlockView>),
    Table(Seq<ContentView>, Seq<Seq<ContentView>>, usize),
    Rule,
    Html(BlockView),
}

pub open spec fn md_view(b: MdBlock) -> MdBlockView
    decreases b,
{
    match b {
        MdBlock::Image { url, alt } => MdBlockView::Image(url@, alt@),
        MdBlock::Text(c) => MdBlockView::Text(content_view(c)),
        MdBlock::Heading { level, content } => MdBlockView::Heading(level, content_view(content)),
        MdBlock::Code(t) => MdBlockView::Code(t@),
        MdBlock::List { ordered, items } => MdBlockView::List(ordered, md_views(items@)),
        MdBlock::Item { number, blocks } => MdBlockView::Item(number, md_views(blocks@)),
        MdBlock::Quote(bs) => MdBlockView::Quote(md_views(bs@)),
        MdBlock::Table { header, rows, columns } => MdBlockView::Table(contents_view(header@), rows_view(rows@), columns),
        MdBlock::Rule => MdBlockView::Rule,
        MdBlock::Html(h) => MdBlockView::Html(block_view(h)),
    }
}

pub open spec fn md_views(bs: Seq<MdBlock>) -> Seq<MdBlockView>
    decreases bs,
{
    if bs.len() == 0 {
        Seq::empty()
    } else {
        seq![md_view(bs[0])] + md_views(bs.drop_first())
    }
}

pub proof fn lemma_md_views(bs: Seq<MdBlock>)
    ensures
        md_views(bs).len() == bs.len(),
        forall|i: int| 0 <= i < bs.len() ==> #[trigger] md_views(bs)[i] == md_view(bs[i]),
    decreases bs.len(),
{
    if bs.len() > 0 {
        lemma_md_views(bs.drop_first());
        assert forall|i: int| 0 <= i < bs.len() implies #[trigger] md_views(bs)[i] == md_view(bs[i]) by {
            if i > 0 {
                assert(bs.drop_first()[i - 1] == bs[i]);
            }
        }
    }
}

// ---------------------------------------------------------------------------
// What each block is
// ---------------------------------------------------------------------------

/// Where scanning of `n` events goes on after a part that started at
/// event `c` and ended at `k`: there, or just past `c` should `k` not lie
/// after `c` within the events.
pub open spec fn advance(k: int, c: int, n: int) -> int {
    if c < k <= n {
        k
    } else {
        c + 1
    }
}

/// The number after `n` in a list, wrapping at the largest number.
pub open spec fn next_item_number(n: u64) -> u64 {
    if n == u64::MAX {
        0
    } else {
        (n + 1) as u64
    }
}

/// A paragraph from its start event `c`: an image when it holds nothing but
/// one, else its inline text; and the event after it.
pub open spec fn paragraph(events: Seq<MdEventView>, c: int) -> (MdBlockView, int) {
    match paragraph_image_spec(events, c) {
        Some((url, alt, k)) => (MdBlockView::Image(url, image_label(alt)), k),
        None => {
            let (st, k) = inline_run(events, MdTag::Paragraph, c + 1, initial_state());
            (MdBlockView::Text(state_content(st)), k)
        },
    }
}

pub open spec fn html_views(hb: Seq<BlockView>) -> Seq<MdBlockView> {
    hb.map_values(|b: BlockView| MdBlockView::Html(b))
}

/// Whether an event begins inline text directly inside a list item.
pub open spec fn starts_inline(e: MdEventView) -> bool {
    ||| e is Text
    ||| e is Code
    ||| e == MdEventView::Start(MdTag::Emphasis)
    ||| e == MdEventView::Start(MdTag::Strong)
    ||| e == MdEventView::Start(MdTag::Strikethrough)
    ||| e is StartLink
}

/// The blocks of a list item from event `j` on, after `children`, and the
/// event after the item: paragraphs, nested lists and HTML blocks; inline
/// text directly in the item runs to the item's end.
pub open spec fn item_from(events: Seq<MdEventView>, j: int, children: Seq<MdBlockView>) -> (Seq<MdBlockView>, int)
    decreases events.len() - j,
{
    if j < 0 || j >= events.len() {
        (children, j)
    } else {
        match events[j] {
            MdEventView::Start(MdTag::Paragraph) => {
                let (st, k) = inline_run(events, MdTag::Paragraph, j + 1, initial_state());
                item_from(events, advance(k, j, events.len() as int), children.push(MdBlockView::Text(state_content(st))))
            },
            MdEventView::StartList(s) => {
                let (items, k) = list_from(
                    events,
                    j + 1,
                    s is Some,
                    match s {
                        Some(n) => n,
                        None => 1,
                    },
                    Seq::empty(),
                );
                item_from(events, advance(k, j, events.len() as int), children.push(MdBlockView::List(s is Some, items)))
            },
            MdEventView::Html(_) => {
                let (hb, k) = html_block(events, j);
                item_from(events, advance(k, j, events.len() as int), children + html_views(hb))
            },
            MdEventView::End(MdTag::Item) => (children, j + 1),
            _ => if starts_inline(events[j]) {
                let (st, k) = inline_run(events, MdTag::Item, j, initial_state());
                (children.push(MdBlockView::Text(state_content(st))), k)
            } else {
                item_from(events, j + 1, children)
            },
        }
    }
}

/// The items of a list from event `j` on, after `items`, numbered from
/// `number`, and the event after the list.
pub open spec fn list_from(events: Seq<MdEventView>, j: int, ordered: bool, number: u64, items: Seq<MdBlockView>) -> (
    Seq<MdBlockView>,
    int,
)
    decreases events.len() - j,
{
    if j < 0 || j >= events.len() {
        (items, j)
    } else {
        match events[j] {
            MdEventView::Start(MdTag::Item) => {
                let (ch, k) = item_from(events, j + 1, Seq::empty());
                list_from(events, advance(k, j, events.len() as int), ordered, next_item_number(number), items.push(MdBlockView::Item(number, ch)))
            },
            MdEventView::End(MdTag::List(_)) => (items, j + 1),
            _ => list_from(events, j + 1, ordered, number, items),
        }
    }
}

/// The number `k` places after `n`, counting on from 0 after the largest
/// number.
pub open spec fn number_after(n: u64, k: int) -> u64 {
    ((n + k) % 18446744073709551616int) as u64
}

proof fn lemma_number_after_next(n: u64, k: int)
    requires
        k >= 0,
    ensures
        number_after(next_item_number(n), k) == number_after(n, k + 1),
        number_after(n, 0) == n,
{
    if n == u64::MAX {
        assert((0 + k) % 18446744073709551616int == (n + k + 1) % 18446744073709551616int) by (nonlinear_arith)
            requires
                n == 18446744073709551615int,
                k >= 0,
        ;
    } else {
        assert(next_item_number(n) == n + 1);
    }
}

proof fn lemma_list_from_numbered(events: Seq<MdEventView>, j: int, ordered: bool, number: u64, items: Seq<MdBlockView>)
    requires
        0 <= j,
    ensures
        ({
            let r = list_from(events, j, ordered, number, items).0;
            &&& r.len() >= items.len()
            &&& r.subrange(0, items.len() as int) == items
            &&& forall|i: int|
                items.len() <= i < r.len() ==> (#[trigger] r[i]) is Item && r[i]->Item_0 == number_after(
                    number,
                    i - items.len(),
                )
        }),
    decreases events.len() - j,
{
    if j < events.len() {
        match events[j] {
            MdEventView::Start(MdTag::Item) => {
                let (ch, k) = item_from(events, j + 1, Seq::empty());
                let acc = items.push(MdBlockView::Item(number, ch));
                let nj = advance(k, j, events.len() as int);
                lemma_list_from_numbered(events, nj, ordered, next_item_number(number), acc);
                let r = list_from(events, j, ordered, number, items).0;
                assert(r == list_from(events, nj, ordered, next_item_number(number), acc).0);
                assert(r.subrange(0, acc.len() as int) == acc);
                assert(r[items.len() as int] == acc[items.len() as int]);
                assert(r.subrange(0, items.len() as int) =~= acc.subrange(0, items.len() as int));
                assert(acc.subrange(0, items.len() as int) =~= items);
                lemma_number_after_next(number, 0);
                assert forall|i: int| items.len() <= i < r.len() implies (#[trigger] r[i]) is Item && r[i]->Item_0
                    == number_after(number, i - items.len()) by {
                    if i > items.len() {
                        lemma_number_after_next(number, i - acc.len());
                    }
                }
            },
            MdEventView::End(MdTag::List(_)) => {
                assert(items.subrange(0, items.len() as int) =~= items);
            },
            _ => {
                lemma_list_from_numbered(events, j + 1, ordered, number, items);
            },
        }
    } else {
        assert(items.subrange(0, items.len() as int) =~= items);
    }
}

/// The items of a list are numbered one after another from the list's
/// first number.
pub proof fn law_list_items_numbered_in_turn(events: Seq<MdEventView>, j: int, ordered: bool, number: u64)
    requires
        0 <= j,
    ensures
        forall|i: int|
            0 <= i < list_from(events, j, ordered, number, Seq::empty()).0.len() ==> (#[trigger] list_from(
                events,
                j,
                ordered,
                number,
                Seq::empty(),
            ).0[i]) is Item && list_from(events, j, ordered, number, Seq::empty()).0[i]->Item_0 == number_after(
                number,
                i,
            ),
{
    lemma_list_from_numbered(events, j, ordered, number, Seq::empty());
}

/// The events inside a block quote from event `j` on, at nesting `depth`,
/// and the event after the quote's end.
pub open spec fn quote_run(events: Seq<MdEventView>, j: int, depth: int) -> (Seq<MdEventView>, int)
    decreases events.len() - j,
{
    if j < 0 || j >= events.len() || depth <= 0 {
        (Seq::empty(), j)
    } else {
        match events[j] {
            MdEventView::Start(MdTag::BlockQuote) => {
                let r = quote_run(events, j + 1, depth + 1);
                (seq![events[j]] + r.0, r.1)
            },
            MdEventView::End(MdTag::BlockQuote) => if depth > 1 {
                let r = quote_run(events, j + 1, depth - 1);
                (seq![events[j]] + r.0, r.1)
            } else {
                (Seq::empty(), j + 1)
            },
            _ => {
                let r = quote_run(events, j + 1, depth);
                (seq![events[j]] + r.0, r.1)
            },
        }
    }
}

pub proof fn lemma_quote_run_len(events: Seq<MdEventView>, j: int, depth: int)
    requires
        0 <= j,
    ensures
        quote_run(events, j, depth).0.len() <= if j < events.len() {
            events.len() - j
        } else {
            0
        },
    decreases events.len() - j,
{
    if j < events.len() && depth > 0 {
        lemma_quote_run_len(events, j + 1, depth - 1);
        lemma_quote_run_len(events, j + 1, depth);
        lemma_quote_run_len(events, j + 1, depth + 1);
    }
}

/// The header cells, body rows and end of a table from event `j` on: the
/// cells of the head row make the header, each other row a body row.
pub open spec fn table_run(
    events: Seq<MdEventView>,
    j: int,
    in_head: bool,
    header: Seq<ContentView>,
    rows: Seq<Seq<ContentView>>,
    current: Seq<ContentView>,
) -> (Seq<ContentView>, Seq<Seq<ContentView>>, int)
    decreases events.len() - j,
{
    if j < 0 || j >= events.len() {
        (header, rows, j)
    } else {
        match events[j] {
            MdEventView::Start(MdTag::TableHead) => table_run(events, j + 1, true, header, rows, current),
            MdEventView::End(MdTag::TableHead) => table_run(events, j + 1, false, current, rows, Seq::empty()),
            MdEventView::Start(MdTag::TableRow) => table_run(events, j + 1, in_head, header, rows, Seq::empty()),
            MdEventView::End(MdTag::TableRow) => if !in_head {
                table_run(events, j + 1, in_head, header, rows.push(current), Seq::empty())
            } else {
                table_run(events, j + 1, in_head, header, rows, current)
            },
            MdEventView::Start(MdTag::TableCell) => {
                let (st, k) = inline_run(events, MdTag::TableCell, j + 1, initial_state());
                table_run(events, advance(k, j, events.len() as int), in_head, header, rows, current.push(state_content(st)))
            },
            MdEventView::End(MdTag::Table) => (header, rows, j + 1),
            _ => table_run(events, j + 1, in_head, header, rows, current),
        }
    }
}

/// A table from its start event `c`, and the event after it: its header
/// cells are bold throughout; it shows as many columns as the header has,
/// at least one.
pub open spec fn table(events: Seq<MdEventView>, c: int) -> (MdBlockView, int) {
    let (header, rows, k) = table_run(events, c + 1, false, Seq::empty(), Seq::empty(), Seq::empty());
    (
        MdBlockView::Table(
            header.map_values(|cv: ContentView| bold_content(cv)),
            rows,
            if header.len() > 1 {
                header.len() as usize
            } else {
                1usize
            },
        ),
        k,
    )
}

/// The blocks the event at `c` begins, and the event where the next block
/// may begin.
pub open spec fn step(events: Seq<MdEventView>, c: int) -> (Seq<MdBlockView>, int)
    decreases events.len(), events.len() - c, 0int,
{
    if c < 0 || c >= events.len() {
        (Seq::empty(), c + 1)
    } else {
        match events[c] {
            MdEventView::Start(MdTag::Paragraph) => {
                let (b, k) = paragraph(events, c);
                (seq![b], k)
            },
            MdEventView::Start(MdTag::Heading(level)) => {
                let (st, k) = inline_run(events, MdTag::Heading(level), c + 1, initial_state());
                (seq![MdBlockView::Heading(level, bold_content(state_content(st)))], k)
            },
            MdEventView::Start(MdTag::CodeBlock) => {
                let (t, k) = code_run(events, c + 1);
                (seq![MdBlockView::Code(drop_final_newline(t))], k)
            },
            MdEventView::StartList(s) => {
                let (items, k) = list_from(
                    events,
                    c + 1,
                    s is Some,
                    match s {
                        Some(n) => n,
                        None => 1,
                    },
                    Seq::empty(),
                );
                (seq![MdBlockView::List(s is Some, items)], k)
            },
            MdEventView::Start(MdTag::BlockQuote) => {
                let (inner, k) = quote_run(events, c + 1, 1);
                proof {
                    lemma_quote_run_len(events, c + 1, 1);
                }
                (seq![MdBlockView::Quote(md_blocks(inner, 0))], k)
            },
            MdEventView::Start(MdTag::Table) => {
                let (b, k) = table(events, c);
                (seq![b], k)
            },
            MdEventView::Rule => (seq![MdBlockView::Rule], c + 1),
            MdEventView::Html(_) => {
                let (hb, k) = html_block(events, c);
                (html_views(hb), k)
            },
            _ => (Seq::empty(), c + 1),
        }
    }
}

/// The blocks of the document from event `c` on.
pub open spec fn md_blocks(events: Seq<MdEventView>, c: int) -> Seq<MdBlockView>
    decreases events.len(), events.len() - c, 1int,
{
    if c < 0 || c >= events.len() {
        Seq::empty()
    } else {
        let (bs, k) = step(events, c);
        bs + md_blocks(events, advance(k, c, events.len() as int))
    }
}

// ---------------------------------------------------------------------------
// Building the blocks
// ---------------------------------------------------------------------------

fn push_block(out: &mut Vec<MdBlock>, b: MdBlock)
    ensures
        md_views(final(out)@) == md_views(old(out)@).push(md_view(b)),
{
    let ghost bv = md_view(b);
    out.push(b);
    proof {
        lemma_md_views(out@);
        lemma_md_views(old(out)@);
    }
    assert(md_views(out@) =~= md_views(old(out)@).push(bv));
}

fn push_all(out: &mut Vec<MdBlock>, bs: Vec<MdBlock>)
    ensures
        md_views(final(out)@) == md_views(old(out)@) + md_views(bs@),
{
    let ghost bv = bs@;
    let mut bs = bs;
    out.append(&mut bs);
    proof {
        lemma_md_views(out@);
        lemma_md_views(old(out)@);
        lemma_md_views(bv);
    }
    assert(md_views(out@) =~= md_views(old(out)@) + md_views(bv));
}

fn push_html(out: &mut Vec<MdBlock>, hb: Vec<HtmlBlock>)
    ensures
        md_views(final(out)@) == md_views(old(out)@) + html_views(blocks_view(hb@)),
{
    let ghost hv = blocks_view(hb@);
    proof {
        lemma_blocks_view(hb@);
    }
    let mut hb = hb;
    let mut k: usize = 0;
    let n = hb.len();
    assert(hv.take(0) =~= Seq::<BlockView>::empty());
    assert(md_views(out@) =~= md_views(old(out)@) + html_views(hv.take(0)));
    while hb.len() > 0
        invariant
            k + hb.len() == n,
            n == hv.len(),
            blocks_view(hb@) == hv.skip(k as int),
            md_views(out@) == md_views(old(out)@) + html_views(hv.take(k as int)),
        decreases hb.len(),
    {
        let ghost hbb = hb@;
        proof {
            lemma_blocks_view(hbb);
        }
        let b = hb.remove(0);
        proof {
            lemma_blocks_view(hb@);
        }
        assert(b == hbb[0]);
        assert(blocks_view(hbb)[0] == block_view(hbb[0]));
        assert(hv.skip(k as int)[0] == hv[k as int]);
        assert(block_view(b) == hv[k as int]);
        push_block(out, MdBlock::Html(b));
        assert(hb@ =~= hbb.subrange(1, hbb.len() as int));
        assert forall|x: int| 0 <= x < hb@.len() implies #[trigger] blocks_view(hb@)[x] == hv.skip(k + 1)[x] by {
            assert(hb@[x] == hbb[x + 1]);
            assert(blocks_view(hbb)[x + 1] == block_view(hbb[x + 1]));
            assert(hv.skip(k as int)[x + 1] == hv.skip(k + 1)[x]);
        }
        assert(blocks_view(hb@) =~= hv.skip(k + 1));
        assert(html_views(hv.take(k + 1)) =~= html_views(hv.take(k as int)).push(MdBlockView::Html(hv[k as int])));
        assert(md_views(out@) =~= md_views(old(out)@) + html_views(hv.take(k + 1)));
        k = k + 1;
    }
    assert(hv.take(k as int) =~= hv);
}

fn copy_event(e: &MdEvent) -> (r: MdEvent)
    ensures
        r@ == e@,
{
    match e {
        MdEvent::Start(t) => MdEvent::Start(*t),
        MdEvent::StartList(n) => MdEvent::StartList(*n),
        MdEvent::StartLink(u) => MdEvent::StartLink(u.clone()),
        MdEvent::StartImage(u) => MdEvent::StartImage(u.clone()),
        MdEvent::End(t) => MdEvent::End(*t),
        MdEvent::Text(t) => MdEvent::Text(t.clone()),
        MdEvent::Code(t) => MdEvent::Code(t.clone()),
        MdEvent::InlineHtml(t) => MdEvent::InlineHtml(t.clone()),
        MdEvent::Html(t) => MdEvent::Html(t.clone()),
        MdEvent::SoftBreak => MdEvent::SoftBreak,
        MdEvent::HardBreak => MdEvent::HardBreak,
        MdEvent::Rule => MdEvent::Rule,
        MdEvent::Other => MdEvent::Other,
    }
}

/// The events inside the block quote whose start event comes just before
/// `j`, and the event after the quote's end.
fn quote_events(events: &[MdEvent], j: usize) -> (r: (Vec<MdEvent>, usize))
    requires
        j >= 1,
    ensures
        event_views(r.0@) == quote_run(event_views(events@), j as int, 1).0,
        r.1 == quote_run(event_views(events@), j as int, 1).1,
{
    let ghost ev = event_views(events@);
    let mut inner: Vec<MdEvent> = Vec::new();
    let mut k = j;
    let mut depth: usize = 1;
    assert(event_views(inner@) + quote_run(ev, j as int, 1).0 =~= quote_run(ev, j as int, 1).0);
    while k < events.len() && depth > 0
        invariant
            1 <= j <= k,
            depth <= k - j + 1,
            ev == event_views(events@),
            event_views(inner@) + quote_run(ev, k as int, depth as int).0 == quote_run(ev, j as int, 1).0,
            quote_run(ev, k as int, depth as int).1 == quote_run(ev, j as int, 1).1,
        decreases events.len() - k,
    {
        assert(ev[k as int] == events@[k as int]@);
        let ghost before = inner@;
        let ghost d0 = depth as int;
        match &events[k] {
            MdEvent::Start(MdTag::BlockQuote) => {
                depth = depth + 1;
                inner.push(copy_event(&events[k]));
            },
            MdEvent::End(MdTag::BlockQuote) => {
                depth = depth - 1;
                if depth > 0 {
                    inner.push(copy_event(&events[k]));
                }
            },
            _ => {
                inner.push(copy_event(&events[k]));
            },
        }
        assert(event_views(inner@) + quote_run(ev, k + 1, depth as int).0 =~= event_views(before) + quote_run(
            ev,
            k as int,
            d0,
        ).0);
        k = k + 1;
    }
    assert(event_views(inner@) + quote_run(ev, k as int, depth as int).0 =~= event_views(inner@));
    (inner, k)
}

fn next_number_of(n: u64) -> (r: u64)
    ensures
        r == next_item_number(n),
{
    if n == u64::MAX {
        0
    } else {
        n + 1
    }
}

fn advance_of(k: usize, c: usize, n: usize) -> (r: usize)
    requires
        c < n,
    ensures
        r == advance(k as int, c as int, n as int),
{
    if c < k && k <= n {
        k
    } else {
        c + 1
    }
}

/// The block of the paragraph that starts at event `c`.
fn render_paragraph(events: &[MdEvent], c: usize) -> (r: (MdBlock, usize))
    requires
        c < events.len(),
    ensures
        md_view(r.0) == paragraph(event_views(events@), c as int).0,
        r.1 == paragraph(event_views(events@), c as int).1,
{
    match paragraph_image(events, c) {
        Some((url, alt, k)) => {
            let label = if alt.as_str().unicode_len() == 0 {
                image_placeholder()
            } else {
                alt
            };
            (MdBlock::Image { url, alt: label }, k)
        },
        None => {
            let (content, k) = collect_inline(events, c + 1, MdTag::Paragraph);
            (MdBlock::Text(content), k)
        },
    }
}

/// The block of the table that starts at event `c`.
fn render_table(events: &[MdEvent], c: usize) -> (r: (MdBlock, usize))
    requires
        c < events.len(),
    ensures
        md_view(r.0) == table(event_views(events@), c as int).0,
        r.1 == table(event_views(events@), c as int).1,
{
    let ghost ev = event_views(events@);
    let mut header: Vec<InlineContent> = Vec::new();
    let mut rows: Vec<Vec<InlineContent>> = Vec::new();
    let mut current: Vec<InlineContent> = Vec::new();
    let mut in_head = false;
    let mut k = c + 1;
    assert(contents_view(header@) =~= Seq::<ContentView>::empty());
    assert(rows_view(rows@) =~= Seq::<Seq<ContentView>>::empty());
    assert(contents_view(current@) =~= Seq::<ContentView>::empty());
    let ghost goal = table_run(ev, c + 1, false, Seq::empty(), Seq::empty(), Seq::empty());
    loop
        invariant_except_break
            c < k <= events.len(),
            ev == event_views(events@),
            table_run(ev, k as int, in_head, contents_view(header@), rows_view(rows@), contents_view(current@))
                == goal,
        ensures
            goal == (contents_view(header@), rows_view(rows@), k as int),
        decreases events.len() - k,
    {
        if k >= events.len() {
            break;
        }
        assert(ev[k as int] == events@[k as int]@);
        match &events[k] {
            MdEvent::Start(MdTag::TableHead) => {
                in_head = true;
                k = k + 1;
            },
            MdEvent::End(MdTag::TableHead) => {
                in_head = false;
                header = current;
                current = Vec::new();
                assert(contents_view(current@) =~= Seq::<ContentView>::empty());
                k = k + 1;
            },
            MdEvent::Start(MdTag::TableRow) => {
                current = Vec::new();
                assert(contents_view(current@) =~= Seq::<ContentView>::empty());
                k = k + 1;
            },
            MdEvent::End(MdTag::TableRow) => {
                if !in_head {
                    let ghost rv = rows_view(rows@);
                    let ghost cv = contents_view(current@);
                    rows.push(current);
                    current = Vec::new();
                    assert(rows_view(rows@) =~= rv.push(cv));
                    assert(contents_view(current@) =~= Seq::<ContentView>::empty());
                }
                k = k + 1;
            },
            MdEvent::Start(MdTag::TableCell) => {
                let (content, next) = collect_inline(events, k + 1, MdTag::TableCell);
                let ghost cv = contents_view(current@);
                let ghost cell = content_view(content);
                current.push(content);
                assert(contents_view(current@) =~= cv.push(cell));
                k = advance_of(next, k, events.len());
            },
            MdEvent::End(MdTag::Table) => {
                k = k + 1;
                break;
            },
            _ => {
                k = k + 1;
            },
        }
    }
    let columns = if header.len() > 1 {
        header.len()
    } else {
        1
    };
    let ghost hv = contents_view(header@);
    let mut bold_header: Vec<InlineContent> = Vec::new();
    let mut i: usize = 0;
    let n = header.len();
    assert(contents_view(bold_header@) =~= hv.take(0).map_values(|cv: ContentView| bold_content(cv)));
    while header.len() > 0
        invariant
            i + header.len() == n,
            n == hv.len(),
            contents_view(header@) == hv.skip(i as int),
            contents_view(bold_header@) == hv.take(i as int).map_values(|cv: ContentView| bold_content(cv)),
        decreases header.len(),
    {
        let ghost hb = header@;
        let cell = header.remove(0);
        let ghost bv = bold_header@;
        assert(contents_view(hb)[0] == hv[i as int]);
        bold_header.push(make_bold(cell));
        assert(header@ =~= hb.subrange(1, hb.len() as int));
        assert(contents_view(header@) =~= contents_view(hb).subrange(1, hb.len() as int));
        assert(contents_view(hb).subrange(1, hb.len() as int) =~= hv.skip(i + 1));
        assert(contents_view(bold_header@) =~= contents_view(bv).push(bold_content(hv[i as int])));
        assert(hv.take(i + 1).map_values(|cv: ContentView| bold_content(cv)) =~= hv.take(i as int).map_values(
            |cv: ContentView| bold_content(cv),
        ).push(bold_content(hv[i as int])));
        i = i + 1;
    }
    assert(hv.take(i as int) =~= hv);
    (MdBlock::Table { header: bold_header, rows, columns }, k)
}

/// The blocks of the list item from event `j` on, after `children`.
fn render_list_item(events: &[MdEvent], j: usize, children: Vec<MdBlock>) -> (r: (Vec<MdBlock>, usize))
    ensures
        md_views(r.0@) == item_from(event_views(events@), j as int, md_views(children@)).0,
        r.1 == item_from(event_views(events@), j as int, md_views(children@)).1,
    decreases events.len() - j,
{
    let ghost ev = event_views(events@);
    if j >= events.len() {
        return (children, j);
    }
    assert(ev[j as int] == events@[j as int]@);
    let mut children = children;
    match &events[j] {
        MdEvent::Start(MdTag::Paragraph) => {
            let (content, k) = collect_inline(events, j + 1, MdTag::Paragraph);
            push_block(&mut children, MdBlock::Text(content));
            render_list_item(events, advance_of(k, j, events.len()), children)
        },
        MdEvent::StartList(s) => {
            let ordered = s.is_some();
            let number = match s {
                Some(n) => *n,
                None => 1,
            };
            let empty: Vec<MdBlock> = Vec::new();
            assert(md_views(empty@) =~= Seq::<MdBlockView>::empty());
            let (items, k) = render_list(events, j + 1, ordered, number, empty);
            push_block(&mut children, MdBlock::List { ordered, items });
            render_list_item(events, advance_of(k, j, events.len()), children)
        },
        MdEvent::Html(_) => {
            let (hb, k) = render_html_block(events, j);
            push_html(&mut children, hb);
            render_list_item(events, advance_of(k, j, events.len()), children)
        },
        MdEvent::End(MdTag::Item) => (children, j + 1),
        MdEvent::Text(_) | MdEvent::Code(_) | MdEvent::StartLink(_) => {
            let (content, k) = collect_inline(events, j, MdTag::Item);
            push_block(&mut children, MdBlock::Text(content));
            (children, k)
        },
        MdEvent::Start(t) => {
            if *t == MdTag::Emphasis || *t == MdTag::Strong || *t == MdTag::Strikethrough {
                let (content, k) = collect_inline(events, j, MdTag::Item);
                push_block(&mut children, MdBlock::Text(content));
                (children, k)
            } else {
                render_list_item(events, j + 1, children)
            }
        },
        _ => render_list_item(events, j + 1, children),
    }
}

/// The items of the list from event `j` on, after `items`, numbered from
/// `number`.
fn render_list(events: &[MdEvent], j: usize, ordered: bool, number: u64, items: Vec<MdBlock>) -> (r: (
    Vec<MdBlock>,
    usize,
))
    ensures
        md_views(r.0@) == list_from(event_views(events@), j as int, ordered, number, md_views(items@)).0,
        r.1 == list_from(event_views(events@), j as int, ordered, number, md_views(items@)).1,
    decreases events.len() - j,
{
    let ghost ev = event_views(events@);
    if j >= events.len() {
        return (items, j);
    }
    assert(ev[j as int] == events@[j as int]@);
    match &events[j] {
        MdEvent::Start(MdTag::Item) => {
            let empty: Vec<MdBlock> = Vec::new();
            assert(md_views(empty@) =~= Seq::<MdBlockView>::empty());
            let (ch, k) = render_list_item(events, j + 1, empty);
            let mut items = items;
            push_block(&mut items, MdBlock::Item { number, blocks: ch });
            render_list(events, advance_of(k, j, events.len()), ordered, next_number_of(number), items)
        },
        MdEvent::End(MdTag::List(_)) => (items, j + 1),
        _ => render_list(events, j + 1, ordered, number, items),
    }
}

/// The blocks the event at `c` begins, and the event where the next block
/// may begin.
fn step_of(events: &[MdEvent], c: usize) -> (r: (Vec<MdBlock>, usize))
    requires
        c < events.len(),
    ensures
        md_views(r.0@) == step(event_views(events@), c as int).0,
        r.1 == step(event_views(events@), c as int).1,
    decreases events.len(), events.len() - c, 0int,
{
    let ghost ev = event_views(events@);
    assert(ev[c as int] == events@[c as int]@);
    let mut out: Vec<MdBlock> = Vec::new();
    assert(md_views(out@) =~= Seq::<MdBlockView>::empty());
    match &events[c] {
        MdEvent::Start(MdTag::Paragraph) => {
            let (b, k) = render_paragraph(events, c);
            push_block(&mut out, b);
            (out, k)
        },
        MdEvent::Start(MdTag::Heading(level)) => {
            let (content, k) = collect_inline(events, c + 1, MdTag::Heading(*level));
            push_block(&mut out, MdBlock::Heading { level: *level, content: make_bold(content) });
            (out, k)
        },
        MdEvent::Start(MdTag::CodeBlock) => {
            let (code, k) = code_block_text(events, c);
            push_block(&mut out, MdBlock::Code(code));
            (out, k)
        },
        MdEvent::StartList(s) => {
            let ordered = s.is_some();
            let number = match s {
                Some(n) => *n,
                None => 1,
            };
            let empty: Vec<MdBlock> = Vec::new();
            assert(md_views(empty@) =~= Seq::<MdBlockView>::empty());
            let (items, k) = render_list(events, c + 1, ordered, number, empty);
            push_block(&mut out, MdBlock::List { ordered, items });
            (out, k)
        },
        MdEvent::Start(MdTag::BlockQuote) => {
            let (inner, k) = quote_events(events, c + 1);
            proof {
                lemma_quote_run_len(ev, c + 1, 1);
            }
            let blocks = md_blocks_of(inner.as_slice(), 0);
            push_block(&mut out, MdBlock::Quote(blocks));
            (out, k)
        },
        MdEvent::Start(MdTag::Table) => {
            let (b, k) = render_table(events, c);
            push_block(&mut out, b);
            (out, k)
        },
        MdEvent::Rule => {
            push_block(&mut out, MdBlock::Rule);
            (out, c + 1)
        },
        MdEvent::Html(_) => {
            let (hb, k) = render_html_block(events, c);
            push_html(&mut out, hb);
            (out, k)
        },
        _ => (out, c + 1),
    }
}

/// The blocks of the document from event `c` on.
pub fn md_blocks_of(events: &[MdEvent], c: usize) -> (r: Vec<MdBlock>)
    ensures
        md_views(r@) == md_blocks(event_views(events@), c as int),
    decreases events.len(), events.len() - c, 1int,
{
    let ghost ev = event_views(events@);
    let mut out: Vec<MdBlock> = Vec::new();
    if c >= events.len() {
        assert(md_views(out@) =~= Seq::<MdBlockView>::empty());
        return out;
    }
    let mut cur = c;
    assert(md_views(out@) + md_blocks(ev, c as int) =~= md_blocks(ev, c as int));
    while cur < events.len()
        invariant
            c <= cur <= events.len(),
            ev == event_views(events@),
            md_views(out@) + md_blocks(ev, cur as int) == md_blocks(ev, c as int),
        decreases events.len() - cur,
    {
        let (bs, k) = step_of(events, cur);
        let ghost before = md_views(out@);
        push_all(&mut out, bs);
        let next = advance_of(k, cur, events.len());
        assert(md_views(out@) + md_blocks(ev, next as int) =~= before + md_blocks(ev, cur as int));
        cur = next;
    }
    out
}

/// The blocks a Markdown document renders as, from its events.
pub fn render_blocks(events: &[MdEvent]) -> (r: Vec<MdBlock>)
    ensures
        md_views(r@) == md_blocks(event_views(events@), 0),
{
    md_blocks_of(events, 0)
}

} // verus!
