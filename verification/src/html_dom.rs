//! An HTML fragment as the HTML parser builds it, kept as the list of its
//! nodes in document order with their depths; the elements of a fragment,
//! the text under a node, and the styled inline text of a node's children.
use vstd::prelude::*;
use crate::markdown_inline::{
    append_text, builder_state, byte_offset, image_label, image_placeholder, link_over, opt_str, InlineBuilder, InlineContent,
    InlineState, InlineStyle,
};
use crate::text::{chars_are, chars_of};
use scraper::Node;

verus! {

/// An element: its tag name and the attributes rendering reads from it.
#[derive(Clone, Debug)]
pub struct HtmlElement {
    pub name: String,
    pub href: Option<String>,
    pub src: Option<String>,
    pub alt: Option<String>,
    pub start: Option<String>,
}

pub struct HtmlElementView {
    pub name: Seq<char>,
    pub href: Option<Seq<char>>,
    pub src: Option<Seq<char>>,
    pub alt: Option<Seq<char>>,
    pub start: Option<Seq<char>>,
}

pub open spec fn element_view(e: HtmlElement) -> HtmlElementView {
    HtmlElementView {
        name: e.name@,
        href: opt_str(e.href),
        src: opt_str(e.src),
        alt: opt_str(e.alt),
        start: opt_str(e.start),
    }
}

pub open spec fn element_views(v: Seq<HtmlElement>) -> Seq<HtmlElementView> {
    v.map_values(|e: HtmlElement| element_view(e))
}

/// What a node of the fragment is.
#[derive(Clone, Debug)]
pub enum HtmlKind {
    Text(String),
    Element(HtmlElement),
    /// A comment, a doctype or another node that holds no content.
    Other,
}

/// A node of the fragment and its depth: the number of its ancestors.
#[derive(Clone, Debug)]
pub struct HtmlItem {
    pub depth: usize,
    pub kind: HtmlKind,
}

pub enum KindView {
    Text(Seq<char>),
    Element(HtmlElementView),
    Other,
}

pub struct ItemView {
    pub depth: int,
    pub kind: KindView,
}

pub open spec fn item_view(x: HtmlItem) -> ItemView {
    ItemView {
        depth: x.depth as int,
        kind: match x.kind {
            HtmlKind::Text(t) => KindView::Text(t@),
            HtmlKind::Element(e) => KindView::Element(element_view(e)),
            HtmlKind::Other => KindView::Other,
        },
    }
}

pub open spec fn item_views(v: Seq<HtmlItem>) -> Seq<ItemView> {
    v.map_values(|x: HtmlItem| item_view(x))
}

/// The nodes of an HTML fragment below its root, in document order, as the
/// HTML parser builds them.
pub uninterp spec fn fragment_items(html: Seq<char>) -> Seq<ItemView>;

/// `scraper::Html::parse_fragment`: parses the text as an HTML fragment and
/// lists the nodes below the root in document order (`descendants`), each
/// with its number of ancestors, its text (`Text::text`), or its tag name
/// and `href`, `src`, `alt` and `start` attributes (`Element::name`,
/// `Element::attr`). What the HTML parser builds is not stated beyond its
/// being a function of the text.
#[verifier::external_body]
pub(crate) fn parse_fragment(html: &str) -> (r: Vec<HtmlItem>)
    ensures
        item_views(r@) == fragment_items(html@),
{
    let doc = scraper::Html::parse_fragment(html);
    let mut r = Vec::new();
    for node in doc.tree.root().descendants().skip(1) {
        let kind = match node.value() {
            Node::Text(t) => HtmlKind::Text(t.text.to_string()),
            Node::Element(e) => HtmlKind::Element(HtmlElement { name: e.name().to_string(),
                href: e.attr("href").map(str::to_string), src: e.attr("src").map(str::to_string),
                alt: e.attr("alt").map(str::to_string), start: e.attr("start").map(str::to_string) }),
            _ => HtmlKind::Other,
        };
        r.push(HtmlItem { depth: node.ancestors().count(), kind });
    }
    r
}

// ---------------------------------------------------------------------------
// Elements
// ---------------------------------------------------------------------------

pub open spec fn element_of(it: ItemView) -> Option<HtmlElementView> {
    match it.kind {
        KindView::Element(e) => Some(e),
        _ => None,
    }
}

/// The elements of an HTML fragment, in document order.
pub open spec fn fragment_elements(html: Seq<char>) -> Seq<HtmlElementView> {
    fragment_items(html).filter_map(|it: ItemView| element_of(it))
}

fn copy_element(e: &HtmlElement) -> (r: HtmlElement)
    ensures
        element_view(r) == element_view(*e),
{
    HtmlElement {
        name: e.name.clone(),
        href: copy_opt(&e.href),
        src: copy_opt(&e.src),
        alt: copy_opt(&e.alt),
        start: copy_opt(&e.start),
    }
}

fn copy_opt(o: &Option<String>) -> (r: Option<String>)
    ensures
        opt_str(r) == opt_str(*o),
{
    match o {
        Some(s) => Some(s.clone()),
        None => None,
    }
}

/// The elements of an HTML fragment, in document order.
pub fn fragment_element_list(html: &str) -> (r: Vec<HtmlElement>)
    ensures
        element_views(r@) == fragment_elements(html@),
{
    let items = parse_fragment(html);
    let ghost iv = item_views(items@);
    let mut out: Vec<HtmlElement> = Vec::new();
    let mut i: usize = 0;
    assert(iv.take(0).filter_map(|it: ItemView| element_of(it)) =~= Seq::empty());
    assert(element_views(out@) =~= Seq::empty());
    while i < items.len()
        invariant
            i <= items.len(),
            iv == item_views(items@),
            element_views(out@) == iv.take(i as int).filter_map(|it: ItemView| element_of(it)),
        decreases items.len() - i,
    {
        assert(iv.take(i + 1).drop_last() =~= iv.take(i as int));
        assert(iv.take(i + 1).last() == item_view(items@[i as int]));
        let ghost before = out@;
        match &items[i].kind {
            HtmlKind::Element(e) => {
                out.push(copy_element(e));
                assert(element_views(out@) =~= element_views(before).push(element_view(*e)));
            },
            _ => {},
        }
        i = i + 1;
    }
    assert(iv.take(i as int) =~= iv);
    out
}

/// The first element named `name` from position `from` on.
pub open spec fn first_named(els: Seq<HtmlElementView>, name: Seq<char>, from: int) -> Option<HtmlElementView>
    decreases els.len() - from,
{
    if from < 0 || from >= els.len() {
        None
    } else if els[from].name == name {
        Some(els[from])
    } else {
        first_named(els, name, from + 1)
    }
}

/// The first element named `name`.
pub fn find_named(els: &Vec<HtmlElement>, name: &str) -> (r: Option<usize>)
    ensures
        match first_named(element_views(els@), name@, 0) {
            Some(e) => r matches Some(i) && i < els@.len() && element_views(els@)[i as int] == e,
            None => r is None,
        },
{
    let ghost ev = element_views(els@);
    let mut i: usize = 0;
    while i < els.len()
        invariant
            i <= els.len(),
            ev == element_views(els@),
            first_named(ev, name@, 0) == first_named(ev, name@, i as int),
        decreases els.len() - i,
    {
        let n = chars_of(els[i].name.as_str());
        if chars_are(&n, name) {
            return Some(i);
        }
        i = i + 1;
    }
    None
}

// ---------------------------------------------------------------------------
// Subtrees
// ---------------------------------------------------------------------------

/// The first position from `j` on whose node is no deeper than `d`, or the
/// end of the list.
pub open spec fn scan_end(doc: Seq<ItemView>, d: int, j: int) -> int
    decreases doc.len() - j,
{
    if j < 0 || j >= doc.len() {
        doc.len() as int
    } else if doc[j].depth <= d {
        j
    } else {
        scan_end(doc, d, j + 1)
    }
}

/// Where the subtree of the node at `c` ends: the next node that is no
/// deeper than it.
pub open spec fn subtree_end(doc: Seq<ItemView>, c: int) -> int {
    scan_end(doc, doc[c].depth, c + 1)
}

/// The position of the sibling after the node at `c`, within `end`.
pub open spec fn next_sibling(doc: Seq<ItemView>, c: int, end: int) -> int {
    let e = subtree_end(doc, c);
    if c < e && e <= end {
        e
    } else {
        end
    }
}

/// The position of the sibling after the node at `c`, within `end`.
pub fn next_sibling_of(doc: &[HtmlItem], c: usize, end: usize) -> (e: usize)
    requires
        c < end <= doc.len(),
    ensures
        e == next_sibling(item_views(doc@), c as int, end as int),
        c < e <= end,
{
    let ghost dv = item_views(doc@);
    let d = doc[c].depth;
    let mut j = c + 1;
    while j < doc.len() && doc[j].depth > d
        invariant
            c < j <= doc.len(),
            dv == item_views(doc@),
            d == dv[c as int].depth,
            scan_end(dv, d as int, c + 1) == scan_end(dv, d as int, j as int),
        decreases doc.len() - j,
    {
        j = j + 1;
    }
    if j <= end {
        j
    } else {
        end
    }
}

// ---------------------------------------------------------------------------
// Text under a node
// ---------------------------------------------------------------------------

/// The text of the nodes from `c` to `end` taken as siblings, with the text
/// of their subtrees.
pub open spec fn inner_text(doc: Seq<ItemView>, c: int, end: int) -> Seq<char>
    decreases end - c,
{
    if c < 0 || c >= end || end > doc.len() {
        Seq::empty()
    } else {
        let e = next_sibling(doc, c, end);
        let here = match doc[c].kind {
            KindView::Text(t) => t,
            KindView::Element(_) => inner_text(doc, c + 1, e),
            KindView::Other => Seq::empty(),
        };
        here + inner_text(doc, e, end)
    }
}

/// Appends the text of the nodes from `c` to `end` taken as siblings.
pub fn push_inner_text(doc: &[HtmlItem], c: usize, end: usize, out: &mut String)
    requires
        end <= doc.len(),
    ensures
        final(out)@ == old(out)@ + inner_text(item_views(doc@), c as int, end as int),
    decreases end - c,
{
    let ghost dv = item_views(doc@);
    if c >= end {
        assert(old(out)@ + inner_text(dv, c as int, end as int) =~= old(out)@);
        return;
    }
    let e = next_sibling_of(doc, c, end);
    let ghost start = out@;
    match &doc[c].kind {
        HtmlKind::Text(t) => {
            out.append(t.as_str());
        },
        HtmlKind::Element(_) => {
            push_inner_text(doc, c + 1, e, out);
        },
        HtmlKind::Other => {},
    }
    let ghost mid = out@;
    push_inner_text(doc, e, end, out);
    assert(out@ =~= old(out)@ + inner_text(dv, c as int, end as int));
}

/// The text under the node at `c`.
pub fn collect_html_text_inner(doc: &[HtmlItem], c: usize) -> (r: String)
    requires
        c < doc.len(),
    ensures
        r@ == inner_text(item_views(doc@), c + 1, next_sibling(item_views(doc@), c as int, doc.len() as int)),
{
    let e = next_sibling_of(doc, c, doc.len());
    let mut out = String::new();
    push_inner_text(doc, c + 1, e, &mut out);
    assert(out@ =~= inner_text(item_views(doc@), c + 1, e as int));
    out
}

// ---------------------------------------------------------------------------
// Inline text of HTML
// ---------------------------------------------------------------------------

/// The style of text inside bold, italic and struck-through elements; none
/// outside all of them.
pub open spec fn flag_style(b: bool, i: bool, s: bool) -> Option<InlineStyle> {
    if b || i || s {
        Some(InlineStyle { bold: b, italic: i, strikethrough: s, link: false, code: false })
    } else {
        None
    }
}

/// The style of code: a shaded background, bold or italic as the code
/// sits.
pub open spec fn code_style(b: bool, i: bool) -> InlineStyle {
    InlineStyle { bold: b, italic: i, strikethrough: false, link: false, code: true }
}

/// `t` appended with its style; an empty text changes nothing.
pub open spec fn add_run(st: InlineState, t: Seq<char>, style: Option<InlineStyle>) -> InlineState {
    if t.len() > 0 {
        append_text(st, t, style)
    } else {
        st
    }
}

/// The inline text of the nodes from `c` to `end` taken as siblings, inside
/// bold (`b`), italic (`i`) and struck-through (`s`) elements: text is
/// appended in the style these give; `<b>`/`<strong>`, `<i>`/`<em>` and
/// `<s>`/`<del>` add their style to their content; `<code>`/`<kbd>` add
/// the text under them as code; `<a>` with an `href` makes its content a
/// link; `<br>` breaks the line; `<img>` adds its label, a link to its
/// `src` when it has one; other elements add their content.
pub open spec fn walk(doc: Seq<ItemView>, c: int, end: int, b: bool, i: bool, s: bool, st: InlineState) -> InlineState
    decreases end - c,
{
    if c < 0 || c >= end || end > doc.len() {
        st
    } else {
        let e = next_sibling(doc, c, end);
        let st2 = match doc[c].kind {
            KindView::Text(t) => add_run(st, t, flag_style(b, i, s)),
            KindView::Element(el) => if el.name == "b"@ || el.name == "strong"@ {
                walk(doc, c + 1, e, true, i, s, st)
            } else if el.name == "i"@ || el.name == "em"@ {
                walk(doc, c + 1, e, b, true, s, st)
            } else if el.name == "s"@ || el.name == "del"@ {
                walk(doc, c + 1, e, b, i, true, st)
            } else if el.name == "code"@ || el.name == "kbd"@ {
                add_run(st, inner_text(doc, c + 1, e), Some(code_style(b, i)))
            } else if el.name == "a"@ {
                match el.href {
                    Some(h) => link_over(walk(doc, c + 1, e, b, i, s, st), byte_offset(st.text), h),
                    None => walk(doc, c + 1, e, b, i, s, st),
                }
            } else if el.name == "br"@ {
                append_text(st, seq!['\n'], None)
            } else if el.name == "img"@ {
                let label = image_label(
                    match el.alt {
                        Some(a) => a,
                        None => Seq::empty(),
                    },
                );
                match el.src {
                    Some(src) => crate::markdown_inline::add_image(st, label, src),
                    None => append_text(st, label, None),
                }
            } else {
                walk(doc, c + 1, e, b, i, s, st)
            },
            KindView::Other => st,
        };
        walk(doc, e, end, b, i, s, st2)
    }
}

fn newline() -> (s: String)
    ensures
        s@ == seq!['\n'],
{
    let mut s = String::new();
    s.append("\n");
    proof {
        reveal_strlit("\n");
    }
    assert(s@ =~= seq!['\n']);
    s
}

/// Appends `t` in `style` unless it is empty.
fn add_run_to(out: &mut InlineBuilder, t: &str, style: Option<InlineStyle>)
    ensures
        builder_state(*final(out)) == add_run(builder_state(*old(out)), t@, style),
{
    if t.unicode_len() > 0 {
        out.append(t, style);
    }
}

/// Appends the inline text of the nodes from `c` to `end` taken as
/// siblings.
pub(crate) fn walk_html_inline(doc: &[HtmlItem], c: usize, end: usize, b: bool, i: bool, s: bool, out: &mut InlineBuilder)
    requires
        end <= doc.len(),
    ensures
        builder_state(*final(out)) == walk(item_views(doc@), c as int, end as int, b, i, s, builder_state(*old(out))),
    decreases end - c,
{
    if c >= end {
        return;
    }
    let e = next_sibling_of(doc, c, end);
    match &doc[c].kind {
        HtmlKind::Text(t) => {
            let style = if b || i || s {
                Some(InlineStyle { bold: b, italic: i, strikethrough: s, link: false, code: false })
            } else {
                None
            };
            add_run_to(out, t.as_str(), style);
        },
        HtmlKind::Element(el) => {
            let n = chars_of(el.name.as_str());
            if chars_are(&n, "b") || chars_are(&n, "strong") {
                walk_html_inline(doc, c + 1, e, true, i, s, out);
            } else if chars_are(&n, "i") || chars_are(&n, "em") {
                walk_html_inline(doc, c + 1, e, b, true, s, out);
            } else if chars_are(&n, "s") || chars_are(&n, "del") {
                walk_html_inline(doc, c + 1, e, b, i, true, out);
            } else if chars_are(&n, "code") || chars_are(&n, "kbd") {
                let mut code = String::new();
                push_inner_text(doc, c + 1, e, &mut code);
                assert(code@ =~= inner_text(item_views(doc@), c + 1, e as int));
                add_run_to(out, code.as_str(), Some(InlineStyle { bold: b, italic: i, strikethrough: false, link: false, code: true }));
            } else if chars_are(&n, "a") {
                match &el.href {
                    Some(h) => {
                        let start = out.text_len();
                        walk_html_inline(doc, c + 1, e, b, i, s, out);
                        out.mark_link(start, h.clone());
                    },
                    None => {
                        walk_html_inline(doc, c + 1, e, b, i, s, out);
                    },
                }
            } else if chars_are(&n, "br") {
                let nl = newline();
                out.append(nl.as_str(), None);
            } else if chars_are(&n, "img") {
                let label = match &el.alt {
                    Some(a) => if a.as_str().unicode_len() == 0 {
                        image_placeholder()
                    } else {
                        a.clone()
                    },
                    None => image_placeholder(),
                };
                match &el.src {
                    Some(src) => {
                        out.add_image(label.as_str(), src.clone());
                    },
                    None => {
                        out.append(label.as_str(), None);
                    },
                }
            } else {
                walk_html_inline(doc, c + 1, e, b, i, s, out);
            }
        },
        HtmlKind::Other => {},
    }
    walk_html_inline(doc, e, end, b, i, s, out);
}

/// The inline text of the children of the node at `c`, inside the given
/// styles.
pub open spec fn inline_of(doc: Seq<ItemView>, c: int, b: bool, i: bool, s: bool) -> InlineState {
    walk(doc, c + 1, next_sibling(doc, c, doc.len() as int), b, i, s, crate::markdown_inline::initial_state())
}

/// The inline content of the children of the node at `c`, inside the given
/// styles.
pub fn collect_html_inline(doc: &[HtmlItem], c: usize, b: bool, i: bool, s: bool) -> (r: InlineContent)
    requires
        c < doc.len(),
    ensures
        r.text@ == inline_of(item_views(doc@), c as int, b, i, s).text,
        r.highlights@ == inline_of(item_views(doc@), c as int, b, i, s).spans,
        r.link_ranges@ == inline_of(item_views(doc@), c as int, b, i, s).links,
        crate::markdown_inline::string_views(r.link_urls@) == inline_of(item_views(doc@), c as int, b, i, s).urls,
{
    let e = next_sibling_of(doc, c, doc.len());
    let mut out = InlineBuilder::new();
    walk_html_inline(doc, c + 1, e, b, i, s, &mut out);
    out.finish()
}

} // verus!
