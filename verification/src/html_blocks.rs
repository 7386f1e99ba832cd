//! The blocks that HTML inside Markdown renders as: images, text blocks,
//! headings, lists, quotes, tables and groups of these, decided from the
//! parsed fragment.
use vstd::prelude::*;
use crate::html_dom::{
    inner_text, item_views, next_sibling, next_sibling_of, parse_fragment, push_inner_text, walk, walk_html_inline,
    HtmlElement, HtmlElementView, HtmlItem, HtmlKind, ItemView, KindView,
};
use crate::markdown_inline::{
    byte_offset, drop_final_newline, embolden, emboldened, fill_gaps, fill_gaps_with_default, image_label,
    event_views, image_placeholder, initial_state, link_style, string_views, trimmed, InlineBuilder, InlineContent, InlineState,
    InlineStyle, MdEvent, MdEventView, StyledSpan,
};
use crate::text::{chars_are, chars_of, has_prefix, has_prefix_chars, lowercase, parse_unsigned, parse_unsigned_spec, to_lowercase};

verus! {

// ---------------------------------------------------------------------------
// Blocks
// ---------------------------------------------------------------------------

/// A block of rendered HTML.
#[derive(Debug)]
pub enum HtmlBlock {
    /// An image from `src`, with the label shown when it cannot load.
    Image { src: String, alt: String },
    /// A block of inline text.
    Text(InlineContent),
    /// The small gap of a line break.
    Spacer,
    /// Preformatted text.
    Preformatted(String),
    /// Blocks stacked in a column.
    Group(Vec<HtmlBlock>),
    /// A heading of the given level; its text is bold throughout.
    Heading { level: u8, content: InlineContent },
    /// A list; its items are `ListItem` or `ListItemText` blocks.
    List { ordered: bool, items: Vec<HtmlBlock> },
    /// A list item holding blocks, with its number in an ordered list.
    ListItem { number: u64, blocks: Vec<HtmlBlock> },
    /// A list item holding inline text, with its number in an ordered list.
    ListItemText { number: u64, content: InlineContent },
    /// A quotation.
    Quote(Vec<HtmlBlock>),
    /// A table: its header cells, bold throughout, its rows, and its number
    /// of columns.
    Table { header: Vec<InlineContent>, rows: Vec<Vec<InlineContent>>, columns: usize },
    /// A horizontal rule.
    Rule,
}

/// Inline content as text, styled ranges, link ranges and link URLs.
pub struct ContentView {
    pub text: Seq<char>,
    pub spans: Seq<StyledSpan>,
    pub links: Seq<(usize, usize)>,
    pub urls: Seq<Seq<char>>,
}

pub enum BlockView {
    Image(Seq<char>, Seq<char>),
    Text(ContentView),
    Spacer,
    Pre(Seq<char>),
    Group(Seq<BlockView>),
    Heading(u8, ContentView),
    List(bool, Seq<BlockView>),
    Item(u64, Seq<BlockView>),
    ItemText(u64, ContentView),
    Quote(Seq<BlockView>),
    Table(Seq<ContentView>, Seq<Seq<ContentView>>, usize),
    Rule,
}

pub open spec fn content_view(c: InlineContent) -> ContentView {
    ContentView { text: c.text@, spans: c.highlights@, links: c.link_ranges@, urls: string_views(c.link_urls@) }
}

pub open spec fn contents_view(v: Seq<InlineContent>) -> Seq<ContentView> {
    v.map_values(|c: InlineContent| content_view(c))
}

pub open spec fn rows_view(v: Seq<Vec<InlineContent>>) -> Seq<Seq<ContentView>> {
    v.map_values(|r: Vec<InlineContent>| contents_view(r@))
}

pub open spec fn block_view(b: HtmlBlock) -> BlockView
    decreases b,
{
    match b {
        HtmlBlock::Image { src, alt } => BlockView::Image(src@, alt@),
        HtmlBlock::Text(c) => BlockView::Text(content_view(c)),
        HtmlBlock::Spacer => BlockView::Spacer,
        HtmlBlock::Preformatted(t) => BlockView::Pre(t@),
        HtmlBlock::Group(bs) => BlockView::Group(blocks_view(bs@)),
        HtmlBlock::Heading { level, content } => BlockView::Heading(level, content_view(content)),
        HtmlBlock::List { ordered, items } => BlockView::List(ordered, blocks_view(items@)),
        HtmlBlock::ListItem { number, blocks } => BlockView::Item(number, blocks_view(blocks@)),
        HtmlBlock::ListItemText { number, content } => BlockView::ItemText(number, content_view(content)),
        HtmlBlock::Quote(bs) => BlockView::Quote(blocks_view(bs@)),
        HtmlBlock::Table { header, rows, columns } => BlockView::Table(contents_view(header@), rows_view(rows@), columns),
        HtmlBlock::Rule => BlockView::Rule,
    }
}

pub open spec fn blocks_view(bs: Seq<HtmlBlock>) -> Seq<BlockView>
    decreases bs,
{
    if bs.len() == 0 {
        Seq::empty()
    } else {
        seq![block_view(bs[0])] + blocks_view(bs.drop_first())
    }
}

pub proof fn lemma_blocks_view(bs: Seq<HtmlBlock>)
    ensures
        blocks_view(bs).len() == bs.len(),
        forall|i: int| 0 <= i < bs.len() ==> #[trigger] blocks_view(bs)[i] == block_view(bs[i]),
    decreases bs.len(),
{
    if bs.len() > 0 {
        lemma_blocks_view(bs.drop_first());
        assert forall|i: int| 0 <= i < bs.len() implies #[trigger] blocks_view(bs)[i] == block_view(bs[i]) by {
            if i > 0 {
                assert(bs.drop_first()[i - 1] == bs[i]);
            }
        }
    }
}

// ---------------------------------------------------------------------------
// What the blocks hold
// ---------------------------------------------------------------------------

pub open spec fn state_content(st: InlineState) -> ContentView {
    ContentView { text: st.text, spans: st.spans, links: st.links, urls: st.urls }
}

/// Text with no styles and no links.
pub open spec fn plain_content(t: Seq<char>) -> ContentView {
    ContentView { text: t, spans: Seq::empty(), links: Seq::empty(), urls: Seq::empty() }
}

/// Text styled `style` throughout.
pub open spec fn styled_content(t: Seq<char>, style: InlineStyle) -> ContentView {
    ContentView {
        text: t,
        spans: seq![StyledSpan { start: 0, end: byte_offset(t), style }],
        links: Seq::empty(),
        urls: Seq::empty(),
    }
}

/// Text that is a link to `url` throughout.
pub open spec fn link_content(t: Seq<char>, url: Seq<char>) -> ContentView {
    ContentView {
        text: t,
        spans: seq![StyledSpan { start: 0, end: byte_offset(t), style: link_style() }],
        links: seq![(0usize, byte_offset(t))],
        urls: seq![url],
    }
}

pub open spec fn bold_style() -> InlineStyle {
    InlineStyle { bold: true, italic: false, strikethrough: false, link: false, code: false }
}

pub open spec fn shaded_style() -> InlineStyle {
    InlineStyle { bold: false, italic: false, strikethrough: false, link: false, code: true }
}

/// Content with bold added to each styled range and the unstyled rest
/// made bold, as headings and header cells show it.
pub open spec fn bold_content(cv: ContentView) -> ContentView {
    ContentView { spans: fill_gaps(byte_offset(cv.text), emboldened(cv.spans), bold_style()), ..cv }
}

/// The inline content of the children of the node at `c`, whose subtree
/// ends at `e`, inside the given styles.
pub open spec fn inline_in(doc: Seq<ItemView>, c: int, e: int, b: bool, i: bool, s: bool) -> ContentView {
    state_content(walk(doc, c + 1, e, b, i, s, initial_state()))
}

/// A text block of the content, unless its text is empty.
pub open spec fn text_block(cv: ContentView) -> Option<BlockView> {
    if cv.text.len() == 0 {
        None
    } else {
        Some(BlockView::Text(cv))
    }
}

pub open spec fn attr_text(o: Option<Seq<char>>) -> Seq<char> {
    match o {
        Some(t) => t,
        None => Seq::empty(),
    }
}

/// An image element as a block: none without a `src`.
pub open spec fn image_block(el: HtmlElementView) -> Option<BlockView> {
    let src = attr_text(el.src);
    if src.len() == 0 {
        None
    } else {
        Some(BlockView::Image(src, image_label(attr_text(el.alt))))
    }
}

/// Tags whose content renders as stacked blocks.
pub open spec fn is_container(n: Seq<char>) -> bool {
    n == "div"@ || n == "span"@ || n == "section"@ || n == "article"@ || n == "main"@ || n == "nav"@
        || n == "header"@ || n == "footer"@
}

/// Tags that make a list item hold blocks rather than inline text.
pub open spec fn is_block_tag(n: Seq<char>) -> bool {
    n == "p"@ || n == "div"@ || n == "ul"@ || n == "ol"@ || n == "table"@ || n == "blockquote"@ || n == "pre"@
        || n == "details"@ || heading_level(n) is Some
}

/// The level of a heading tag.
pub open spec fn heading_level(n: Seq<char>) -> Option<u8> {
    if n == "h1"@ {
        Some(1u8)
    } else if n == "h2"@ {
        Some(2u8)
    } else if n == "h3"@ {
        Some(3u8)
    } else if n == "h4"@ {
        Some(4u8)
    } else if n == "h5"@ {
        Some(5u8)
    } else if n == "h6"@ {
        Some(6u8)
    } else {
        None
    }
}

pub open spec fn named(it: ItemView, n: Seq<char>) -> bool {
    it.kind matches KindView::Element(el) && el.name == n
}

/// Whether one of the siblings from `c` to `end` is an element named `n`.
pub open spec fn has_child_named(doc: Seq<ItemView>, c: int, end: int, n: Seq<char>) -> bool
    decreases end - c,
{
    if c < 0 || c >= end || end > doc.len() {
        false
    } else {
        named(doc[c], n) || has_child_named(doc, next_sibling(doc, c, end), end, n)
    }
}

/// Whether one of the siblings from `c` to `end` is a block element.
pub open spec fn has_block_child(doc: Seq<ItemView>, c: int, end: int) -> bool
    decreases end - c,
{
    if c < 0 || c >= end || end > doc.len() {
        false
    } else {
        (doc[c].kind matches KindView::Element(el) && is_block_tag(el.name)) || has_block_child(
            doc,
            next_sibling(doc, c, end),
            end,
        )
    }
}

/// The first `<img>` among the nodes from `j` to `end`, at any depth.
pub open spec fn first_img(doc: Seq<ItemView>, j: int, end: int) -> Option<HtmlElementView>
    decreases end - j,
{
    if j < 0 || j >= end || end > doc.len() {
        None
    } else {
        match doc[j].kind {
            KindView::Element(el) => if el.name == "img"@ {
                Some(el)
            } else {
                first_img(doc, j + 1, end)
            },
            _ => first_img(doc, j + 1, end),
        }
    }
}

/// The number an ordered list starts at: its `start` attribute read as an
/// unsigned number, else 1.
pub open spec fn list_start(el: HtmlElementView) -> u64 {
    match el.start {
        Some(s) => match parse_unsigned_spec(s, u64::MAX as int) {
            Some(v) => v as u64,
            None => 1,
        },
        None => 1,
    }
}

/// The number after `n`, wrapping at the largest number.
pub open spec fn next_number(n: u64) -> u64 {
    if n == u64::MAX {
        0
    } else {
        (n + 1) as u64
    }
}

// ---------------------------------------------------------------------------
// The blocks of a fragment
// ---------------------------------------------------------------------------

/// The block of the node at `c`, whose subtree ends at `e`; its children
/// are the siblings from `c + 1` to `e`.
pub open spec fn node_block(doc: Seq<ItemView>, c: int, e: int) -> Option<BlockView>
    decreases e - c, 0int,
{
    if c < 0 || c >= e || e > doc.len() {
        None
    } else {
        match doc[c].kind {
            KindView::Text(t) => {
                let tt = trimmed(t);
                if tt.len() == 0 {
                    None
                } else {
                    Some(BlockView::Text(plain_content(tt)))
                }
            },
            KindView::Other => None,
            KindView::Element(el) => {
                let n = el.name;
                if n == "img"@ {
                    image_block(el)
                } else if n == "a"@ {
                    if has_child_named(doc, c + 1, e, "img"@) {
                        Some(BlockView::Group(children_blocks(doc, c + 1, e)))
                    } else {
                        let t = inner_text(doc, c + 1, e);
                        if t.len() == 0 {
                            None
                        } else {
                            Some(BlockView::Text(link_content(t, attr_text(el.href))))
                        }
                    }
                } else if n == "br"@ {
                    Some(BlockView::Spacer)
                } else if n == "b"@ || n == "strong"@ {
                    text_block(inline_in(doc, c, e, true, false, false))
                } else if n == "i"@ || n == "em"@ {
                    text_block(inline_in(doc, c, e, false, true, false))
                } else if n == "s"@ || n == "del"@ {
                    text_block(inline_in(doc, c, e, false, false, true))
                } else if n == "code"@ || n == "kbd"@ {
                    let t = inner_text(doc, c + 1, e);
                    if t.len() == 0 {
                        None
                    } else {
                        Some(BlockView::Text(styled_content(t, shaded_style())))
                    }
                } else if n == "pre"@ {
                    Some(BlockView::Pre(drop_final_newline(inner_text(doc, c + 1, e))))
                } else if n == "p"@ {
                    text_block(inline_in(doc, c, e, false, false, false))
                } else if is_container(n) || n == "details"@ {
                    let ch = children_blocks(doc, c + 1, e);
                    if ch.len() == 0 {
                        None
                    } else {
                        Some(BlockView::Group(ch))
                    }
                } else if heading_level(n) is Some {
                    let cv = inline_in(doc, c, e, false, false, false);
                    if cv.text.len() == 0 {
                        None
                    } else {
                        Some(BlockView::Heading(heading_level(n)->0, bold_content(cv)))
                    }
                } else if n == "ul"@ || n == "ol"@ {
                    let ordered = n == "ol"@;
                    let items = list_items(doc, c + 1, e, ordered, if ordered { list_start(el) } else { 0 });
                    if items.len() == 0 {
                        None
                    } else {
                        Some(BlockView::List(ordered, items))
                    }
                } else if n == "blockquote"@ {
                    let ch = children_blocks(doc, c + 1, e);
                    if ch.len() == 0 {
                        None
                    } else {
                        Some(BlockView::Quote(ch))
                    }
                } else if n == "table"@ {
                    table_block(doc, c + 1, e)
                } else if n == "hr"@ {
                    Some(BlockView::Rule)
                } else if n == "summary"@ {
                    let t = inner_text(doc, c + 1, e);
                    if t.len() == 0 {
                        None
                    } else {
                        Some(BlockView::Text(styled_content(t, bold_style())))
                    }
                } else if n == "source"@ {
                    None
                } else if n == "picture"@ {
                    match first_img(doc, c + 1, e) {
                        Some(img) => image_block(img),
                        None => None,
                    }
                } else if n == "sub"@ || n == "sup"@ {
                    let t = inner_text(doc, c + 1, e);
                    if t.len() == 0 {
                        None
                    } else {
                        Some(BlockView::Text(plain_content(t)))
                    }
                } else {
                    let ch = children_blocks(doc, c + 1, e);
                    if ch.len() == 0 {
                        let t = inner_text(doc, c + 1, e);
                        if t.len() == 0 {
                            None
                        } else {
                            Some(BlockView::Text(plain_content(t)))
                        }
                    } else if ch.len() == 1 {
                        Some(ch[0])
                    } else {
                        Some(BlockView::Group(ch))
                    }
                }
            },
        }
    }
}

/// The blocks of the siblings from `c` to `end`, skipping those that
/// render as nothing.
pub open spec fn children_blocks(doc: Seq<ItemView>, c: int, end: int) -> Seq<BlockView>
    decreases end - c, 1int,
{
    if c < 0 || c >= end || end > doc.len() {
        Seq::empty()
    } else {
        let e = next_sibling(doc, c, end);
        let rest = children_blocks(doc, e, end);
        match node_block(doc, c, e) {
            Some(b) => seq![b] + rest,
            None => rest,
        }
    }
}

/// The items of a list from the siblings from `c` to `end`: each `<li>`
/// holds blocks when one of its children is a block element, else inline
/// text; an item that renders as nothing is skipped and takes no number.
pub open spec fn list_items(doc: Seq<ItemView>, c: int, end: int, ordered: bool, number: u64) -> Seq<BlockView>
    decreases end - c, 1int,
{
    if c < 0 || c >= end || end > doc.len() {
        Seq::empty()
    } else {
        let e = next_sibling(doc, c, end);
        if named(doc[c], "li"@) {
            let item = if has_block_child(doc, c + 1, e) {
                let ch = children_blocks(doc, c + 1, e);
                if ch.len() == 0 {
                    None
                } else {
                    Some(BlockView::Item(number, ch))
                }
            } else {
                let cv = inline_in(doc, c, e, false, false, false);
                if cv.text.len() == 0 {
                    None
                } else {
                    Some(BlockView::ItemText(number, cv))
                }
            };
            match item {
                Some(it) => seq![it] + list_items(
                    doc,
                    e,
                    end,
                    ordered,
                    if ordered {
                        next_number(number)
                    } else {
                        number
                    },
                ),
                None => list_items(doc, e, end, ordered, number),
            }
        } else {
            list_items(doc, e, end, ordered, number)
        }
    }
}

/// The number of a list item: its own one, for an item of either kind.
pub open spec fn item_number(b: BlockView) -> Option<u64> {
    match b {
        BlockView::Item(n, _) => Some(n),
        BlockView::ItemText(n, _) => Some(n),
        _ => None,
    }
}

/// The number `k` places after `n`, counting on from 0 after the largest
/// number.
pub open spec fn html_number_after(n: u64, k: int) -> u64 {
    ((n + k) % 18446744073709551616int) as u64
}

/// The items of an ordered list are numbered one after another from its
/// first number; those of an unordered list all carry the number they
/// started with.
pub proof fn law_html_list_items_numbered_in_turn(doc: Seq<ItemView>, c: int, end: int, ordered: bool, number: u64)
    ensures
        forall|i: int|
            0 <= i < list_items(doc, c, end, ordered, number).len() ==> #[trigger] item_number(
                list_items(doc, c, end, ordered, number)[i],
            ) == Some(
                if ordered {
                    html_number_after(number, i)
                } else {
                    number
                },
            ),
    decreases end - c,
{
    if !(c < 0 || c >= end || end > doc.len()) {
        let e = next_sibling(doc, c, end);
        let next = if ordered {
            next_number(number)
        } else {
            number
        };
        law_html_list_items_numbered_in_turn(doc, e, end, ordered, next);
        law_html_list_items_numbered_in_turn(doc, e, end, ordered, number);
        let r = list_items(doc, c, end, ordered, number);
        assert forall|i: int| 0 <= i < r.len() implies #[trigger] item_number(r[i]) == Some(
            if ordered {
                html_number_after(number, i)
            } else {
                number
            },
        ) by {
            if named(doc[c], "li"@) {
                let rest_next = list_items(doc, e, end, ordered, next);
                if r.len() == rest_next.len() + 1 && r == seq![r[0]] + rest_next {
                    if i > 0 {
                        assert(r[i] == rest_next[i - 1]);
                        if ordered {
                            if number == u64::MAX {
                                assert((0 + (i - 1)) % 18446744073709551616int == (number + i) % 18446744073709551616int)
                                    by (nonlinear_arith)
                                    requires
                                        number == 18446744073709551615int,
                                        i >= 1,
                                ;
                            }
                        }
                    } else {
                        assert(html_number_after(number, 0) == number);
                    }
                }
            }
        }
    }
}

// ---------------------------------------------------------------------------
// Tables
// ---------------------------------------------------------------------------

/// The cells of a row from the siblings from `c` to `end`: the inline text
/// of each `<td>` and `<th>`, bold in `<th>`.
pub open spec fn row_cells(doc: Seq<ItemView>, c: int, end: int) -> Seq<ContentView>
    decreases end - c,
{
    if c < 0 || c >= end || end > doc.len() {
        Seq::empty()
    } else {
        let e = next_sibling(doc, c, end);
        let rest = row_cells(doc, e, end);
        if named(doc[c], "td"@) {
            seq![inline_in(doc, c, e, false, false, false)] + rest
        } else if named(doc[c], "th"@) {
            seq![inline_in(doc, c, e, true, false, false)] + rest
        } else {
            rest
        }
    }
}

/// The rows of the `<tr>` siblings from `c` to `end`.
pub open spec fn body_rows(doc: Seq<ItemView>, c: int, end: int) -> Seq<Seq<ContentView>>
    decreases end - c,
{
    if c < 0 || c >= end || end > doc.len() {
        Seq::empty()
    } else {
        let e = next_sibling(doc, c, end);
        let rest = body_rows(doc, e, end);
        if named(doc[c], "tr"@) {
            seq![row_cells(doc, c + 1, e)] + rest
        } else {
            rest
        }
    }
}

/// The header after the `<tr>` siblings from `c` to `end`: the cells of
/// the last of them, or `header` when there is none.
pub open spec fn last_row(doc: Seq<ItemView>, c: int, end: int, header: Seq<ContentView>) -> Seq<ContentView>
    decreases end - c,
{
    if c < 0 || c >= end || end > doc.len() {
        header
    } else {
        let e = next_sibling(doc, c, end);
        if named(doc[c], "tr"@) {
            last_row(doc, e, end, row_cells(doc, c + 1, e))
        } else {
            last_row(doc, e, end, header)
        }
    }
}

/// The header cells and body rows of a table from its children from `c`
/// to `end`: a `<thead>` gives the header, a `<tbody>` adds rows, and a
/// bare `<tr>` is the header while there is none, else a row.
pub open spec fn table_parts(
    doc: Seq<ItemView>,
    c: int,
    end: int,
    header: Seq<ContentView>,
    rows: Seq<Seq<ContentView>>,
) -> (Seq<ContentView>, Seq<Seq<ContentView>>)
    decreases end - c,
{
    if c < 0 || c >= end || end > doc.len() {
        (header, rows)
    } else {
        let e = next_sibling(doc, c, end);
        if named(doc[c], "thead"@) {
            table_parts(doc, e, end, last_row(doc, c + 1, e, header), rows)
        } else if named(doc[c], "tbody"@) {
            table_parts(doc, e, end, header, rows + body_rows(doc, c + 1, e))
        } else if named(doc[c], "tr"@) {
            let cells = row_cells(doc, c + 1, e);
            if header.len() == 0 {
                table_parts(doc, e, end, cells, rows)
            } else {
                table_parts(doc, e, end, header, rows.push(cells))
            }
        } else {
            table_parts(doc, e, end, header, rows)
        }
    }
}

/// The largest number of cells of a row, at least `m`.
pub open spec fn widest(rows: Seq<Seq<ContentView>>, m: int) -> int
    decreases rows.len(),
{
    if rows.len() == 0 {
        m
    } else {
        let w = widest(rows.drop_last(), m);
        if rows.last().len() > w {
            rows.last().len() as int
        } else {
            w
        }
    }
}

/// A table from its children from `c` to `end`: none when it has neither
/// header nor rows; the header cells are bold throughout, and the number
/// of columns is that of the widest row or header, at least one.
pub open spec fn table_block(doc: Seq<ItemView>, c: int, end: int) -> Option<BlockView> {
    let (header, rows) = table_parts(doc, c, end, Seq::empty(), Seq::empty());
    if header.len() == 0 && rows.len() == 0 {
        None
    } else {
        Some(
            BlockView::Table(
                header.map_values(|cv: ContentView| bold_content(cv)),
                rows,
                widest(rows, if header.len() > 1 { header.len() as int } else { 1 }) as usize,
            ),
        )
    }
}

// ---------------------------------------------------------------------------
// Building the blocks
// ---------------------------------------------------------------------------

pub(crate) fn content_of(b: InlineBuilder) -> (r: InlineContent)
    ensures
        content_view(r) == state_content(crate::markdown_inline::builder_state(b)),
{
    b.finish()
}

/// The inline content of the children of the node at `c`, whose subtree
/// ends at `e`.
fn inline_children(doc: &[HtmlItem], c: usize, e: usize, b: bool, i: bool, s: bool) -> (r: InlineContent)
    requires
        c < e <= doc.len(),
    ensures
        content_view(r) == inline_in(item_views(doc@), c as int, e as int, b, i, s),
{
    let mut out = InlineBuilder::new();
    walk_html_inline(doc, c + 1, e, b, i, s, &mut out);
    content_of(out)
}

/// The text of the siblings from `c` to `e` and their subtrees.
fn text_between(doc: &[HtmlItem], c: usize, e: usize) -> (r: String)
    requires
        e <= doc.len(),
    ensures
        r@ == inner_text(item_views(doc@), c as int, e as int),
{
    let mut out = String::new();
    push_inner_text(doc, c, e, &mut out);
    assert(out@ =~= inner_text(item_views(doc@), c as int, e as int));
    out
}

fn plain(t: String) -> (r: InlineContent)
    ensures
        content_view(r) == plain_content(t@),
{
    let r = InlineContent { text: t, highlights: Vec::new(), link_ranges: Vec::new(), link_urls: Vec::new() };
    assert(string_views(r.link_urls@) =~= Seq::<Seq<char>>::empty());
    r
}

fn styled(t: String, style: InlineStyle) -> (r: InlineContent)
    ensures
        content_view(r) == styled_content(t@, style),
{
    let n = t.as_str().len();
    let r = InlineContent {
        text: t,
        highlights: vec![StyledSpan { start: 0, end: n, style }],
        link_ranges: Vec::new(),
        link_urls: Vec::new(),
    };
    assert(string_views(r.link_urls@) =~= Seq::<Seq<char>>::empty());
    assert(r.highlights@ =~= seq![StyledSpan { start: 0, end: byte_offset(t@), style }]);
    r
}

fn linked(t: String, url: String) -> (r: InlineContent)
    ensures
        content_view(r) == link_content(t@, url@),
{
    let n = t.as_str().len();
    let ghost uv = url@;
    let r = InlineContent {
        text: t,
        highlights: vec![
            StyledSpan {
                start: 0,
                end: n,
                style: InlineStyle { bold: false, italic: false, strikethrough: false, link: true, code: false },
            },
        ],
        link_ranges: vec![(0usize, n)],
        link_urls: vec![url],
    };
    assert(string_views(r.link_urls@) =~= seq![uv]);
    assert(r.highlights@ =~= seq![StyledSpan { start: 0, end: byte_offset(t@), style: link_style() }]);
    assert(r.link_ranges@ =~= seq![(0usize, byte_offset(t@))]);
    r
}

/// Content with bold added throughout.
pub(crate) fn make_bold(c: InlineContent) -> (r: InlineContent)
    ensures
        content_view(r) == bold_content(content_view(c)),
{
    let spans = embolden(c.highlights.as_slice());
    let filled = fill_gaps_with_default(
        c.text.as_str(),
        spans.as_slice(),
        InlineStyle { bold: true, italic: false, strikethrough: false, link: false, code: false },
    );
    InlineContent { text: c.text, highlights: filled, link_ranges: c.link_ranges, link_urls: c.link_urls }
}

fn text_block_of(c: InlineContent) -> (r: Option<HtmlBlock>)
    ensures
        match r {
            Some(b) => Some(block_view(b)),
            None => None,
        } == text_block(content_view(c)),
{
    if c.text.as_str().unicode_len() == 0 {
        None
    } else {
        Some(HtmlBlock::Text(c))
    }
}

fn opt_text(o: &Option<String>) -> (r: String)
    ensures
        r@ == attr_text(crate::markdown_inline::opt_str(*o)),
{
    match o {
        Some(t) => t.clone(),
        None => String::new(),
    }
}

fn image_of(el: &HtmlElement) -> (r: Option<HtmlBlock>)
    ensures
        match r {
            Some(b) => Some(block_view(b)),
            None => None,
        } == image_block(crate::html_dom::element_view(*el)),
{
    let src = opt_text(&el.src);
    if src.as_str().unicode_len() == 0 {
        return None;
    }
    let alt = opt_text(&el.alt);
    let label = if alt.as_str().unicode_len() == 0 {
        image_placeholder()
    } else {
        alt
    };
    Some(HtmlBlock::Image { src, alt: label })
}

fn heading_level_of(n: &Vec<char>) -> (r: Option<u8>)
    ensures
        r == heading_level(n@),
{
    if chars_are(n, "h1") {
        Some(1)
    } else if chars_are(n, "h2") {
        Some(2)
    } else if chars_are(n, "h3") {
        Some(3)
    } else if chars_are(n, "h4") {
        Some(4)
    } else if chars_are(n, "h5") {
        Some(5)
    } else if chars_are(n, "h6") {
        Some(6)
    } else {
        None
    }
}

fn is_container_name(n: &Vec<char>) -> (r: bool)
    ensures
        r == is_container(n@),
{
    chars_are(n, "div") || chars_are(n, "span") || chars_are(n, "section") || chars_are(n, "article")
        || chars_are(n, "main") || chars_are(n, "nav") || chars_are(n, "header") || chars_are(n, "footer")
}

fn is_block_name(n: &Vec<char>) -> (r: bool)
    ensures
        r == is_block_tag(n@),
{
    chars_are(n, "p") || chars_are(n, "div") || chars_are(n, "ul") || chars_are(n, "ol") || chars_are(n, "table")
        || chars_are(n, "blockquote") || chars_are(n, "pre") || chars_are(n, "details") || heading_level_of(n).is_some()
}

fn is_named(it: &HtmlItem, lit: &str) -> (r: bool)
    ensures
        r == named(crate::html_dom::item_view(*it), lit@),
{
    match &it.kind {
        HtmlKind::Element(el) => {
            let n = chars_of(el.name.as_str());
            chars_are(&n, lit)
        },
        _ => false,
    }
}

fn has_child_named_of(doc: &[HtmlItem], c: usize, end: usize, lit: &str) -> (r: bool)
    requires
        end <= doc.len(),
    ensures
        r == has_child_named(item_views(doc@), c as int, end as int, lit@),
    decreases end - c,
{
    if c >= end {
        return false;
    }
    if is_named(&doc[c], lit) {
        return true;
    }
    let e = next_sibling_of(doc, c, end);
    has_child_named_of(doc, e, end, lit)
}

fn has_block_child_of(doc: &[HtmlItem], c: usize, end: usize) -> (r: bool)
    requires
        end <= doc.len(),
    ensures
        r == has_block_child(item_views(doc@), c as int, end as int),
    decreases end - c,
{
    if c >= end {
        return false;
    }
    match &doc[c].kind {
        HtmlKind::Element(el) => {
            let n = chars_of(el.name.as_str());
            if is_block_name(&n) {
                return true;
            }
        },
        _ => {},
    }
    let e = next_sibling_of(doc, c, end);
    has_block_child_of(doc, e, end)
}

fn first_img_of(doc: &[HtmlItem], j: usize, end: usize) -> (r: Option<HtmlBlock>)
    requires
        end <= doc.len(),
    ensures
        match r {
            Some(b) => Some(block_view(b)),
            None => None,
        } == match first_img(item_views(doc@), j as int, end as int) {
            Some(img) => image_block(img),
            None => None,
        },
    decreases end - j,
{
    if j >= end {
        return None;
    }
    match &doc[j].kind {
        HtmlKind::Element(el) => {
            let n = chars_of(el.name.as_str());
            if chars_are(&n, "img") {
                return image_of(el);
            }
        },
        _ => {},
    }
    first_img_of(doc, j + 1, end)
}

fn list_start_of(el: &HtmlElement) -> (r: u64)
    ensures
        r == list_start(crate::html_dom::element_view(*el)),
{
    match &el.start {
        Some(s) => {
            let cs = chars_of(s.as_str());
            assert(cs@.subrange(0, cs@.len() as int) =~= cs@);
            match parse_unsigned(&cs, 0, cs.len(), u64::MAX) {
                Some(v) => v,
                None => 1,
            }
        },
        None => 1,
    }
}

fn prepend(b: HtmlBlock, v: Vec<HtmlBlock>) -> (r: Vec<HtmlBlock>)
    ensures
        blocks_view(r@) == seq![block_view(b)] + blocks_view(v@),
{
    let ghost bv = block_view(b);
    let ghost vv = v@;
    let mut v = v;
    v.insert(0, b);
    proof {
        lemma_blocks_view(v@);
        lemma_blocks_view(vv);
        assert(blocks_view(v@) =~= seq![bv] + blocks_view(vv));
    }
    v
}

pub open spec fn opt_block_view(r: Option<HtmlBlock>) -> Option<BlockView> {
    match r {
        Some(b) => Some(block_view(b)),
        None => None,
    }
}

/// The block of the node at `c`, whose subtree ends at `e`.
pub fn render_html_node(doc: &[HtmlItem], c: usize, e: usize) -> (r: Option<HtmlBlock>)
    requires
        e <= doc.len(),
    ensures
        opt_block_view(r) == node_block(item_views(doc@), c as int, e as int),
    decreases e - c, 0int,
{
    let ghost dv = item_views(doc@);
    if c >= e {
        return None;
    }
    match &doc[c].kind {
        HtmlKind::Text(t) => {
            let tt = crate::markdown_inline::trim_text(t.as_str());
            if tt.as_str().unicode_len() == 0 {
                None
            } else {
                Some(HtmlBlock::Text(plain(tt)))
            }
        },
        HtmlKind::Other => None,
        HtmlKind::Element(el) => {
            let n = chars_of(el.name.as_str());
            if chars_are(&n, "img") {
                image_of(el)
            } else if chars_are(&n, "a") {
                if has_child_named_of(doc, c + 1, e, "img") {
                    Some(HtmlBlock::Group(children_blocks_of(doc, c + 1, e)))
                } else {
                    let t = text_between(doc, c + 1, e);
                    if t.as_str().unicode_len() == 0 {
                        None
                    } else {
                        Some(HtmlBlock::Text(linked(t, opt_text(&el.href))))
                    }
                }
            } else if chars_are(&n, "br") {
                Some(HtmlBlock::Spacer)
            } else if chars_are(&n, "b") || chars_are(&n, "strong") {
                text_block_of(inline_children(doc, c, e, true, false, false))
            } else if chars_are(&n, "i") || chars_are(&n, "em") {
                text_block_of(inline_children(doc, c, e, false, true, false))
            } else if chars_are(&n, "s") || chars_are(&n, "del") {
                text_block_of(inline_children(doc, c, e, false, false, true))
            } else if chars_are(&n, "code") || chars_are(&n, "kbd") {
                let t = text_between(doc, c + 1, e);
                if t.as_str().unicode_len() == 0 {
                    None
                } else {
                    Some(HtmlBlock::Text(styled(t, InlineStyle { bold: false, italic: false, strikethrough: false, link: false, code: true })))
                }
            } else if chars_are(&n, "pre") {
                let t = text_between(doc, c + 1, e);
                Some(HtmlBlock::Preformatted(drop_newline(t)))
            } else if chars_are(&n, "p") {
                text_block_of(inline_children(doc, c, e, false, false, false))
            } else if is_container_name(&n) || chars_are(&n, "details") {
                let ch = children_blocks_of(doc, c + 1, e);
                proof {
                    lemma_blocks_view(ch@);
                }
                if ch.len() == 0 {
                    None
                } else {
                    Some(HtmlBlock::Group(ch))
                }
            } else if heading_level_of(&n).is_some() {
                let level = match heading_level_of(&n) {
                    Some(l) => l,
                    None => 0,
                };
                let cv = inline_children(doc, c, e, false, false, false);
                if cv.text.as_str().unicode_len() == 0 {
                    None
                } else {
                    Some(HtmlBlock::Heading { level, content: make_bold(cv) })
                }
            } else if chars_are(&n, "ul") || chars_are(&n, "ol") {
                let ordered = chars_are(&n, "ol");
                let number = if ordered {
                    list_start_of(el)
                } else {
                    0
                };
                let items = list_items_of(doc, c + 1, e, ordered, number);
                proof {
                    lemma_blocks_view(items@);
                }
                if items.len() == 0 {
                    None
                } else {
                    Some(HtmlBlock::List { ordered, items })
                }
            } else if chars_are(&n, "blockquote") {
                let ch = children_blocks_of(doc, c + 1, e);
                proof {
                    lemma_blocks_view(ch@);
                }
                if ch.len() == 0 {
                    None
                } else {
                    Some(HtmlBlock::Quote(ch))
                }
            } else if chars_are(&n, "table") {
                render_html_table(doc, c + 1, e)
            } else if chars_are(&n, "hr") {
                Some(HtmlBlock::Rule)
            } else if chars_are(&n, "summary") {
                let t = text_between(doc, c + 1, e);
                if t.as_str().unicode_len() == 0 {
                    None
                } else {
                    Some(HtmlBlock::Text(styled(t, InlineStyle { bold: true, italic: false, strikethrough: false, link: false, code: false })))
                }
            } else if chars_are(&n, "source") {
                None
            } else if chars_are(&n, "picture") {
                first_img_of(doc, c + 1, e)
            } else if chars_are(&n, "sub") || chars_are(&n, "sup") {
                let t = text_between(doc, c + 1, e);
                if t.as_str().unicode_len() == 0 {
                    None
                } else {
                    Some(HtmlBlock::Text(plain(t)))
                }
            } else {
                let mut ch = children_blocks_of(doc, c + 1, e);
                proof {
                    lemma_blocks_view(ch@);
                }
                if ch.len() == 0 {
                    let t = text_between(doc, c + 1, e);
                    if t.as_str().unicode_len() == 0 {
                        None
                    } else {
                        Some(HtmlBlock::Text(plain(t)))
                    }
                } else if ch.len() == 1 {
                    Some(ch.remove(0))
                } else {
                    Some(HtmlBlock::Group(ch))
                }
            }
        },
    }
}

fn drop_newline(t: String) -> (r: String)
    ensures
        r@ == drop_final_newline(t@),
{
    let cs = chars_of(t.as_str());
    if cs.len() > 0 && cs[cs.len() - 1] == '\n' {
        let r = crate::text::string_of(&cs, 0, cs.len() - 1);
        assert(r@ =~= t@.drop_last());
        r
    } else {
        t
    }
}

/// The blocks of the siblings from `c` to `end`.
pub fn children_blocks_of(doc: &[HtmlItem], c: usize, end: usize) -> (r: Vec<HtmlBlock>)
    requires
        end <= doc.len(),
    ensures
        blocks_view(r@) == children_blocks(item_views(doc@), c as int, end as int),
    decreases end - c, 1int,
{
    if c >= end {
        let r: Vec<HtmlBlock> = Vec::new();
        assert(blocks_view(r@) =~= Seq::<BlockView>::empty());
        return r;
    }
    let e = next_sibling_of(doc, c, end);
    let first = render_html_node(doc, c, e);
    let rest = children_blocks_of(doc, e, end);
    match first {
        Some(b) => prepend(b, rest),
        None => rest,
    }
}

/// The items of a list from the siblings from `c` to `end`.
fn list_items_of(doc: &[HtmlItem], c: usize, end: usize, ordered: bool, number: u64) -> (r: Vec<HtmlBlock>)
    requires
        end <= doc.len(),
    ensures
        blocks_view(r@) == list_items(item_views(doc@), c as int, end as int, ordered, number),
    decreases end - c, 1int,
{
    if c >= end {
        let r: Vec<HtmlBlock> = Vec::new();
        assert(blocks_view(r@) =~= Seq::<BlockView>::empty());
        return r;
    }
    let e = next_sibling_of(doc, c, end);
    if !is_named(&doc[c], "li") {
        return list_items_of(doc, e, end, ordered, number);
    }
    let item = if has_block_child_of(doc, c + 1, e) {
        let ch = children_blocks_of(doc, c + 1, e);
        proof {
            lemma_blocks_view(ch@);
        }
        if ch.len() == 0 {
            None
        } else {
            Some(HtmlBlock::ListItem { number, blocks: ch })
        }
    } else {
        let cv = inline_children(doc, c, e, false, false, false);
        if cv.text.as_str().unicode_len() == 0 {
            None
        } else {
            Some(HtmlBlock::ListItemText { number, content: cv })
        }
    };
    match item {
        Some(it) => {
            let next = if ordered {
                if number == u64::MAX {
                    0
                } else {
                    number + 1
                }
            } else {
                number
            };
            let rest = list_items_of(doc, e, end, ordered, next);
            prepend(it, rest)
        },
        None => list_items_of(doc, e, end, ordered, number),
    }
}

// ---------------------------------------------------------------------------
// Building tables
// ---------------------------------------------------------------------------

fn collect_html_table_cells(doc: &[HtmlItem], c: usize, end: usize) -> (r: Vec<InlineContent>)
    requires
        end <= doc.len(),
    ensures
        contents_view(r@) == row_cells(item_views(doc@), c as int, end as int),
    decreases end - c,
{
    if c >= end {
        let r: Vec<InlineContent> = Vec::new();
        assert(contents_view(r@) =~= Seq::<ContentView>::empty());
        return r;
    }
    let e = next_sibling_of(doc, c, end);
    let mut rest = collect_html_table_cells(doc, e, end);
    let ghost rv = rest@;
    if is_named(&doc[c], "td") {
        let cell = inline_children(doc, c, e, false, false, false);
        rest.insert(0, cell);
        assert(contents_view(rest@) =~= seq![content_view(rest@[0])] + contents_view(rv));
    } else if is_named(&doc[c], "th") {
        let cell = inline_children(doc, c, e, true, false, false);
        rest.insert(0, cell);
        assert(contents_view(rest@) =~= seq![content_view(rest@[0])] + contents_view(rv));
    }
    rest
}

fn body_rows_of(doc: &[HtmlItem], c: usize, end: usize) -> (r: Vec<Vec<InlineContent>>)
    requires
        end <= doc.len(),
    ensures
        rows_view(r@) == body_rows(item_views(doc@), c as int, end as int),
    decreases end - c,
{
    if c >= end {
        let r: Vec<Vec<InlineContent>> = Vec::new();
        assert(rows_view(r@) =~= Seq::<Seq<ContentView>>::empty());
        return r;
    }
    let e = next_sibling_of(doc, c, end);
    let mut rest = body_rows_of(doc, e, end);
    let ghost rv = rest@;
    if is_named(&doc[c], "tr") {
        let cells = collect_html_table_cells(doc, c + 1, e);
        rest.insert(0, cells);
        assert(rows_view(rest@) =~= seq![contents_view(rest@[0]@)] + rows_view(rv));
    }
    rest
}

fn last_row_of(doc: &[HtmlItem], c: usize, end: usize, header: Vec<InlineContent>) -> (r: Vec<InlineContent>)
    requires
        end <= doc.len(),
    ensures
        contents_view(r@) == last_row(item_views(doc@), c as int, end as int, contents_view(header@)),
    decreases end - c,
{
    if c >= end {
        return header;
    }
    let e = next_sibling_of(doc, c, end);
    if is_named(&doc[c], "tr") {
        let cells = collect_html_table_cells(doc, c + 1, e);
        last_row_of(doc, e, end, cells)
    } else {
        last_row_of(doc, e, end, header)
    }
}

fn table_parts_of(
    doc: &[HtmlItem],
    c: usize,
    end: usize,
    header: Vec<InlineContent>,
    rows: Vec<Vec<InlineContent>>,
) -> (r: (Vec<InlineContent>, Vec<Vec<InlineContent>>))
    requires
        end <= doc.len(),
    ensures
        (contents_view(r.0@), rows_view(r.1@)) == table_parts(
            item_views(doc@),
            c as int,
            end as int,
            contents_view(header@),
            rows_view(rows@),
        ),
    decreases end - c,
{
    if c >= end {
        return (header, rows);
    }
    let e = next_sibling_of(doc, c, end);
    if is_named(&doc[c], "thead") {
        let h = last_row_of(doc, c + 1, e, header);
        table_parts_of(doc, e, end, h, rows)
    } else if is_named(&doc[c], "tbody") {
        let mut more = body_rows_of(doc, c + 1, e);
        let ghost rv = rows@;
        let ghost mv = more@;
        let mut rows = rows;
        rows.append(&mut more);
        assert(rows_view(rows@) =~= rows_view(rv) + rows_view(mv));
        table_parts_of(doc, e, end, header, rows)
    } else if is_named(&doc[c], "tr") {
        let cells = collect_html_table_cells(doc, c + 1, e);
        if header.len() == 0 {
            table_parts_of(doc, e, end, cells, rows)
        } else {
            let ghost rv = rows@;
            let ghost cv = contents_view(cells@);
            let mut rows = rows;
            rows.push(cells);
            assert(rows_view(rows@) =~= rows_view(rv).push(cv));
            table_parts_of(doc, e, end, header, rows)
        }
    } else {
        table_parts_of(doc, e, end, header, rows)
    }
}

fn widest_of(rows: &Vec<Vec<InlineContent>>, m: usize) -> (r: usize)
    ensures
        r == widest(rows_view(rows@), m as int),
{
    let ghost rv = rows_view(rows@);
    let mut w = m;
    let mut i: usize = 0;
    while i < rows.len()
        invariant
            i <= rows.len(),
            rv == rows_view(rows@),
            w == widest(rv.take(i as int), m as int),
        decreases rows.len() - i,
    {
        assert(rv.take(i + 1).drop_last() =~= rv.take(i as int));
        assert(rv.take(i + 1).last() == contents_view(rows@[i as int]@));
        if rows[i].len() > w {
            w = rows[i].len();
        }
        i = i + 1;
    }
    assert(rv.take(i as int) =~= rv);
    w
}

fn render_html_table(doc: &[HtmlItem], c: usize, end: usize) -> (r: Option<HtmlBlock>)
    requires
        end <= doc.len(),
    ensures
        opt_block_view(r) == table_block(item_views(doc@), c as int, end as int),
{
    let (header, rows) = table_parts_of(doc, c, end, Vec::new(), Vec::new());
    proof {
        assert(contents_view(Seq::<InlineContent>::empty()) =~= Seq::empty());
        assert(rows_view(Seq::<Vec<InlineContent>>::empty()) =~= Seq::empty());
    }
    if header.len() == 0 && rows.len() == 0 {
        return None;
    }
    let m = if header.len() > 1 {
        header.len()
    } else {
        1
    };
    let columns = widest_of(&rows, m);
    let mut bold_header: Vec<InlineContent> = Vec::new();
    let mut header = header;
    let ghost hv = contents_view(header@);
    let mut k: usize = 0;
    let n = header.len();
    while header.len() > 0
        invariant
            k + header.len() == n,
            n == hv.len(),
            contents_view(header@) == hv.skip(k as int),
            contents_view(bold_header@) == hv.take(k as int).map_values(|cv: ContentView| bold_content(cv)),
        decreases header.len(),
    {
        let ghost hb = header@;
        let cell = header.remove(0);
        let ghost bv = bold_header@;
        assert(contents_view(hb)[0] == hv[k as int]);
        assert(content_view(cell) == hv[k as int]);
        bold_header.push(make_bold(cell));
        assert(header@ =~= hb.subrange(1, hb.len() as int));
        assert(contents_view(header@) =~= contents_view(hb).subrange(1, hb.len() as int));
        assert(contents_view(hb).subrange(1, hb.len() as int) =~= hv.skip(k + 1));
        assert(contents_view(bold_header@) =~= contents_view(bv).push(bold_content(hv[k as int])));
        assert(hv.take(k + 1).map_values(|cv: ContentView| bold_content(cv)) =~= hv.take(k as int).map_values(
            |cv: ContentView| bold_content(cv),
        ).push(bold_content(hv[k as int])));
        k = k + 1;
    }
    assert(hv.take(k as int) =~= hv);
    Some(HtmlBlock::Table { header: bold_header, rows, columns })
}

// ---------------------------------------------------------------------------
// HTML in a Markdown document
// ---------------------------------------------------------------------------

/// The blocks of an HTML fragment: those of the nodes below its root.
pub open spec fn fragment_blocks(html: Seq<char>) -> Seq<BlockView> {
    let doc = crate::html_dom::fragment_items(html);
    children_blocks(doc, 0, doc.len() as int)
}

/// The blocks an HTML fragment renders as.
pub fn parse_and_render_html(html: &str) -> (r: Vec<HtmlBlock>)
    ensures
        blocks_view(r@) == fragment_blocks(html@),
{
    let doc = parse_fragment(html);
    assert(item_views(doc@).len() == doc@.len());
    children_blocks_of(doc.as_slice(), 0, doc.len())
}

/// The text of the HTML events from `j` on, joined, and the event after
/// them.
pub open spec fn html_run(events: Seq<MdEventView>, j: int) -> (Seq<char>, int)
    decreases events.len() - j,
{
    if j < 0 || j >= events.len() {
        (Seq::empty(), j)
    } else {
        match events[j] {
            MdEventView::Html(t) => {
                let r = html_run(events, j + 1);
                (t + r.0, r.1)
            },
            _ => (Seq::empty(), j),
        }
    }
}

/// Whether `s` ends with `p`.
pub open spec fn has_suffix(s: Seq<char>, p: Seq<char>) -> bool {
    p.len() <= s.len() && s.skip(s.len() - p.len()) == p
}

/// The text under the first `<summary>` element from position `j` on
/// whose text is not empty.
pub open spec fn first_summary(doc: Seq<ItemView>, j: int) -> Option<Seq<char>>
    decreases doc.len() - j,
{
    if j < 0 || j >= doc.len() {
        None
    } else if named(doc[j], "summary"@) && inner_text(doc, j + 1, next_sibling(doc, j, doc.len() as int)).len() > 0 {
        Some(inner_text(doc, j + 1, next_sibling(doc, j, doc.len() as int)))
    } else {
        first_summary(doc, j + 1)
    }
}

/// What a run of HTML events from `start` renders as, and the event after
/// the run: nothing for a comment or a bare closing tag; for an opening
/// `<details>` (its content follows as Markdown), the text of its summary
/// in bold; otherwise the blocks of the joined HTML.
pub open spec fn html_block(events: Seq<MdEventView>, start: int) -> (Seq<BlockView>, int) {
    let (html, cursor) = html_run(events, start);
    let t = trimmed(html);
    if has_prefix(t, "<!--"@) && has_suffix(t, "-->"@) {
        (Seq::empty(), cursor)
    } else if has_prefix(t, "</"@) {
        (Seq::empty(), cursor)
    } else if has_prefix(lowercase(t), "<details"@) {
        match first_summary(crate::html_dom::fragment_items(t), 0) {
            Some(s) => (seq![BlockView::Text(styled_content(s, bold_style()))], cursor),
            None => (Seq::empty(), cursor),
        }
    } else {
        (fragment_blocks(html), cursor)
    }
}

fn join_html(events: &[MdEvent], start: usize) -> (r: (String, usize))
    ensures
        r.0@ == html_run(event_views(events@), start as int).0,
        r.1 == html_run(event_views(events@), start as int).1,
{
    let ghost ev = event_views(events@);
    let mut html = String::new();
    let mut k = start;
    assert(html@ + html_run(ev, start as int).0 =~= html_run(ev, start as int).0);
    while k < events.len()
        invariant
            start <= k,
            ev == event_views(events@),
            html@ + html_run(ev, k as int).0 == html_run(ev, start as int).0,
            html_run(ev, k as int).1 == html_run(ev, start as int).1,
        decreases events.len() - k,
    {
        assert(ev[k as int] == events@[k as int]@);
        match &events[k] {
            MdEvent::Html(t) => {
                let ghost before = html@;
                html.append(t.as_str());
                assert(html@ + html_run(ev, k + 1).0 =~= before + html_run(ev, k as int).0);
            },
            _ => {
                assert(html@ + html_run(ev, k as int).0 =~= html@);
                return (html, k);
            },
        }
        k = k + 1;
    }
    assert(html@ + html_run(ev, k as int).0 =~= html@);
    (html, k)
}

fn ends_with_chars(s: &Vec<char>, lit: &str) -> (r: bool)
    ensures
        r == has_suffix(s@, lit@),
{
    let p = chars_of(lit);
    if p.len() > s.len() {
        return false;
    }
    let off = s.len() - p.len();
    let mut i: usize = 0;
    while i < p.len()
        invariant
            i <= p.len(),
            off + p.len() == s.len(),
            p@ == lit@,
            forall|j: int| 0 <= j < i ==> s@[off + j] == p@[j],
        decreases p.len() - i,
    {
        if s[off + i] != p[i] {
            assert(s@.skip(off as int)[i as int] != p@[i as int]);
            assert(s@.skip(off as int) != lit@);
            return false;
        }
        i = i + 1;
    }
    assert(s@.skip(off as int) =~= p@);
    true
}

fn summary_text(doc: &[HtmlItem]) -> (r: Option<String>)
    ensures
        match r {
            Some(t) => Some(t@),
            None => None,
        } == first_summary(item_views(doc@), 0),
{
    let ghost dv = item_views(doc@);
    let mut j: usize = 0;
    while j < doc.len()
        invariant
            j <= doc.len(),
            dv == item_views(doc@),
            first_summary(dv, 0) == first_summary(dv, j as int),
        decreases doc.len() - j,
    {
        if is_named(&doc[j], "summary") {
            let e = next_sibling_of(doc, j, doc.len());
            let t = text_between(doc, j + 1, e);
            if t.as_str().unicode_len() > 0 {
                return Some(t);
            }
        }
        j = j + 1;
    }
    None
}

/// What the run of HTML events from `start` renders as, and the event
/// after the run.
pub fn render_html_block(events: &[MdEvent], start: usize) -> (r: (Vec<HtmlBlock>, usize))
    ensures
        blocks_view(r.0@) == html_block(event_views(events@), start as int).0,
        r.1 == html_block(event_views(events@), start as int).1,
{
    let (html, cursor) = join_html(events, start);
    let t = crate::markdown_inline::trim_text(html.as_str());
    let tc = chars_of(t.as_str());
    let none: Vec<HtmlBlock> = Vec::new();
    assert(blocks_view(none@) =~= Seq::<BlockView>::empty());
    if has_prefix_chars(&tc, &chars_of("<!--")) && ends_with_chars(&tc, "-->") {
        return (none, cursor);
    }
    if has_prefix_chars(&tc, &chars_of("</")) {
        return (none, cursor);
    }
    let lower = to_lowercase(t.as_str());
    if has_prefix_chars(&chars_of(lower.as_str()), &chars_of("<details")) {
        let doc = parse_fragment(t.as_str());
        match summary_text(doc.as_slice()) {
            Some(s) => {
                let b = HtmlBlock::Text(styled(s, InlineStyle { bold: true, italic: false, strikethrough: false, link: false, code: false }));
                let ghost bv = block_view(b);
                let mut v: Vec<HtmlBlock> = Vec::new();
                v.push(b);
                proof {
                    lemma_blocks_view(v@);
                }
                assert(blocks_view(v@) =~= seq![bv]);
                return (v, cursor);
            },
            None => {
                return (none, cursor);
            },
        }
    }
    (parse_and_render_html(html.as_str()), cursor)
}

} // verus!
