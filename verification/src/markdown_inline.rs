//! The inline text of rendered Markdown: the events of a paragraph, heading
//! or table cell turned into one text with styled byte ranges and links.
use vstd::prelude::*;
use vstd::utf8::encode_utf8;
use crate::html_dom::{find_named, first_named, fragment_element_list, fragment_elements};
use crate::text::{chars_are, chars_of, has_prefix, has_prefix_chars, is_white_space, is_white_space_char, lowercase, to_lowercase};

verus! {

// ---------------------------------------------------------------------------
// Events and styles
// ---------------------------------------------------------------------------

/// The kind of a Markdown container, as its start and end events name it.
#[derive(Clone, Copy, Debug, PartialEq, Eq, Structural)]
pub enum MdTag {
    Paragraph,
    Heading(u8),
    BlockQuote,
    CodeBlock,
    List(bool),
    Item,
    Table,
    TableHead,
    TableRow,
    TableCell,
    Emphasis,
    Strong,
    Strikethrough,
    Link,
    Image,
    Other,
}

/// An event of a parsed Markdown document.
#[derive(Clone, Debug)]
pub enum MdEvent {
    /// The start of a container other than a list, a link or an image.
    Start(MdTag),
    /// The start of a list: the number of its first item when it is
    /// ordered.
    StartList(Option<u64>),
    /// The start of a link to the URL.
    StartLink(String),
    /// The start of an image at the URL; its text is the alternative text.
    StartImage(String),
    /// The end of a container.
    End(MdTag),
    Text(String),
    Code(String),
    InlineHtml(String),
    Html(String),
    SoftBreak,
    HardBreak,
    Rule,
    Other,
}

pub enum MdEventView {
    Start(MdTag),
    StartList(Option<u64>),
    StartLink(Seq<char>),
    StartImage(Seq<char>),
    End(MdTag),
    Text(Seq<char>),
    Code(Seq<char>),
    InlineHtml(Seq<char>),
    Html(Seq<char>),
    SoftBreak,
    HardBreak,
    Rule,
    Other,
}

impl View for MdEvent {
    type V = MdEventView;

    open spec fn view(&self) -> MdEventView {
        match self {
            MdEvent::Start(t) => MdEventView::Start(*t),
            MdEvent::StartList(n) => MdEventView::StartList(*n),
            MdEvent::StartLink(u) => MdEventView::StartLink(u@),
            MdEvent::StartImage(u) => MdEventView::StartImage(u@),
            MdEvent::End(t) => MdEventView::End(*t),
            MdEvent::Text(t) => MdEventView::Text(t@),
            MdEvent::Code(t) => MdEventView::Code(t@),
            MdEvent::InlineHtml(t) => MdEventView::InlineHtml(t@),
            MdEvent::Html(t) => MdEventView::Html(t@),
            MdEvent::SoftBreak => MdEventView::SoftBreak,
            MdEvent::HardBreak => MdEventView::HardBreak,
            MdEvent::Rule => MdEventView::Rule,
            MdEvent::Other => MdEventView::Other,
        }
    }
}

pub open spec fn event_views(es: Seq<MdEvent>) -> Seq<MdEventView> {
    es.map_values(|e: MdEvent| e@)
}

/// The styles of a run of text: bold, italic, struck through, a link
/// (link colour, underlined) and code (shaded background).
#[derive(Clone, Copy, Debug, PartialEq, Eq, Structural)]
pub struct InlineStyle {
    pub bold: bool,
    pub italic: bool,
    pub strikethrough: bool,
    pub link: bool,
    pub code: bool,
}

/// A styled byte range of the text.
#[derive(Clone, Copy, Debug)]
pub struct StyledSpan {
    pub start: usize,
    pub end: usize,
    pub style: InlineStyle,
}

/// The text of a paragraph, heading or cell, its styled byte ranges, and
/// the byte ranges of its links with their URLs.
#[derive(Clone, Debug)]
pub struct InlineContent {
    pub text: String,
    pub highlights: Vec<StyledSpan>,
    pub link_ranges: Vec<(usize, usize)>,
    pub link_urls: Vec<String>,
}

/// The number of bytes of the UTF-8 form of a text, as `str::len` gives it.
pub open spec fn byte_offset(s: Seq<char>) -> usize {
    encode_utf8(s).len() as usize
}

pub open spec fn string_views(v: Seq<String>) -> Seq<Seq<char>> {
    v.map_values(|s: String| s@)
}

/// The style of plain text, the one a link shows, and the style of code.
pub open spec fn plain_style() -> InlineStyle {
    InlineStyle { bold: false, italic: false, strikethrough: false, link: false, code: false }
}

pub open spec fn link_style() -> InlineStyle {
    InlineStyle { link: true, ..plain_style() }
}

/// Two styles put together: each style that either has.
pub open spec fn merged(a: InlineStyle, b: InlineStyle) -> InlineStyle {
    InlineStyle {
        bold: a.bold || b.bold,
        italic: a.italic || b.italic,
        strikethrough: a.strikethrough || b.strikethrough,
        link: a.link || b.link,
        code: a.code || b.code,
    }
}

/// Two styles put together: each style that either has.
pub fn merge_styles(a: InlineStyle, b: InlineStyle) -> (r: InlineStyle)
    ensures
        r == merged(a, b),
{
    InlineStyle {
        bold: a.bold || b.bold,
        italic: a.italic || b.italic,
        strikethrough: a.strikethrough || b.strikethrough,
        link: a.link || b.link,
        code: a.code || b.code,
    }
}

pub open spec fn opt_str(o: Option<String>) -> Option<Seq<char>> {
    match o {
        Some(s) => Some(s@),
        None => None,
    }
}

// ---------------------------------------------------------------------------
// Trimming
// ---------------------------------------------------------------------------

/// The position of the first character from `from` on that is not white
/// space, or the length.
pub open spec fn skip_ws(s: Seq<char>, from: int) -> int
    decreases s.len() - from,
{
    if from < 0 || from >= s.len() {
        s.len() as int
    } else if is_white_space(s[from]) {
        skip_ws(s, from + 1)
    } else {
        from
    }
}

/// The end of `s[..to]` once trailing white space is dropped.
pub open spec fn trim_end_at(s: Seq<char>, to: int) -> int
    decreases to,
{
    if to <= 0 {
        0
    } else if is_white_space(s[to - 1]) {
        trim_end_at(s, to - 1)
    } else {
        to
    }
}

/// `str::trim`: the text without leading and trailing white space.
pub open spec fn trimmed(s: Seq<char>) -> Seq<char> {
    let a = skip_ws(s, 0);
    if a >= s.len() {
        Seq::empty()
    } else {
        s.subrange(a, trim_end_at(s, s.len() as int))
    }
}

pub proof fn lemma_skip_ws(s: Seq<char>, from: int)
    requires
        0 <= from <= s.len(),
    ensures
        from <= skip_ws(s, from) <= s.len(),
        skip_ws(s, from) < s.len() ==> !is_white_space(s[skip_ws(s, from)]),
    decreases s.len() - from,
{
    if from < s.len() && is_white_space(s[from]) {
        lemma_skip_ws(s, from + 1);
    }
}

pub proof fn lemma_trim_end(s: Seq<char>, a: int, to: int)
    requires
        0 <= a < to <= s.len(),
        !is_white_space(s[a]),
    ensures
        a < trim_end_at(s, to) <= to,
    decreases to,
{
    if is_white_space(s[to - 1]) {
        lemma_trim_end(s, a, to - 1);
    }
}

/// The text without leading and trailing white space.
pub(crate) fn trim_text(s: &str) -> (r: String)
    ensures
        r@ == trimmed(s@),
{
    let c = chars_of(s);
    let mut a: usize = 0;
    while a < c.len() && is_white_space_char(c[a])
        invariant
            a <= c.len(),
            skip_ws(c@, 0) == skip_ws(c@, a as int),
        decreases c.len() - a,
    {
        a = a + 1;
    }
    if a >= c.len() {
        return String::new();
    }
    let mut b: usize = c.len();
    while b > a && is_white_space_char(c[b - 1])
        invariant
            a < c.len(),
            !is_white_space(c@[a as int]),
            a < b <= c.len(),
            trim_end_at(c@, c.len() as int) == trim_end_at(c@, b as int),
        decreases b,
    {
        b = b - 1;
    }
    assert(skip_ws(c@, a as int) == a);
    assert(trim_end_at(c@, b as int) == b);
    crate::text::string_of(&c, a, b)
}

// ---------------------------------------------------------------------------
// Collecting inline content
// ---------------------------------------------------------------------------

/// Where the collection of inline content stands.
pub struct InlineState {
    pub text: Seq<char>,
    pub spans: Seq<StyledSpan>,
    pub links: Seq<(usize, usize)>,
    pub urls: Seq<Seq<char>>,
    pub bold: int,
    pub italic: int,
    pub strike: int,
    pub code: int,
    pub link: Option<Seq<char>>,
    pub link_start: usize,
}

pub open spec fn initial_state() -> InlineState {
    InlineState {
        text: Seq::empty(),
        spans: Seq::empty(),
        links: Seq::empty(),
        urls: Seq::empty(),
        bold: 0,
        italic: 0,
        strike: 0,
        code: 0,
        link: None,
        link_start: 0,
    }
}

/// The styles the open containers give.
pub open spec fn open_style(st: InlineState) -> InlineStyle {
    InlineStyle {
        bold: st.bold > 0,
        italic: st.italic > 0,
        strikethrough: st.strike > 0,
        link: st.link is Some,
        code: false,
    }
}

/// The style of a text run: the open styles, with the code style inside
/// inline code; none when nothing is open.
pub open spec fn text_style(st: InlineState) -> Option<InlineStyle> {
    if st.code > 0 {
        Some(InlineStyle { code: true, ..open_style(st) })
    } else if open_style(st) != plain_style() {
        Some(open_style(st))
    } else {
        None
    }
}

/// The text with `t` appended, its bytes styled with `style` if any.
pub open spec fn append_text(st: InlineState, t: Seq<char>, style: Option<InlineStyle>) -> InlineState {
    let start = byte_offset(st.text);
    let text = st.text + t;
    let end = byte_offset(text);
    InlineState {
        text,
        spans: match style {
            Some(s) => st.spans.push(StyledSpan { start, end, style: s }),
            None => st.spans,
        },
        ..st
    }
}

/// The link that is open ends here; it is kept when it covers any text.
pub open spec fn close_link(st: InlineState) -> InlineState {
    match st.link {
        Some(url) => if st.link_start < byte_offset(st.text) {
            InlineState {
                links: st.links.push((st.link_start, byte_offset(st.text))),
                urls: st.urls.push(url),
                link: None,
                ..st
            }
        } else {
            InlineState { link: None, ..st }
        },
        None => st,
    }
}

/// A link to `url` opens here.
pub open spec fn open_link(st: InlineState, url: Seq<char>) -> InlineState {
    InlineState { link: Some(url), link_start: byte_offset(st.text), ..st }
}

/// An inline image: its label, styled and linked like a link to its URL.
pub open spec fn add_image(st: InlineState, label: Seq<char>, url: Seq<char>) -> InlineState {
    let start = byte_offset(st.text);
    let text = st.text + label;
    let end = byte_offset(text);
    InlineState {
        text,
        spans: st.spans.push(StyledSpan { start, end, style: link_style() }),
        links: st.links.push((start, end)),
        urls: st.urls.push(url),
        ..st
    }
}

/// The text appended since byte `start` becomes a link to `url`, styled as
/// a link; nothing changes when no text was appended.
pub open spec fn link_over(st: InlineState, start: usize, url: Seq<char>) -> InlineState {
    let end = byte_offset(st.text);
    if start < end {
        InlineState {
            spans: st.spans.push(StyledSpan { start, end, style: link_style() }),
            links: st.links.push((start, end)),
            urls: st.urls.push(url),
            ..st
        }
    } else {
        st
    }
}

/// The label of an image: its alternative text, or `"[image]"` when that
/// is empty.
pub open spec fn image_label(alt: Seq<char>) -> Seq<char> {
    if alt.len() == 0 {
        "[image]"@
    } else {
        alt
    }
}

/// One less, but not below zero.
pub open spec fn dec(x: int) -> int {
    if x > 0 {
        x - 1
    } else {
        0
    }
}

/// The alternative text of an image from event `j` on, and the event after
/// the image's end.
pub open spec fn image_alt(events: Seq<MdEventView>, j: int) -> (Seq<char>, int)
    decreases events.len() - j,
{
    if j < 0 || j >= events.len() {
        (Seq::empty(), j)
    } else {
        match events[j] {
            MdEventView::Text(t) => {
                let rest = image_alt(events, j + 1);
                (t + rest.0, rest.1)
            },
            MdEventView::End(MdTag::Image) => (Seq::empty(), j + 1),
            _ => image_alt(events, j + 1),
        }
    }
}

pub proof fn lemma_image_alt_cursor(events: Seq<MdEventView>, j: int)
    requires
        0 <= j,
    ensures
        j <= image_alt(events, j).1,
        j <= events.len() ==> image_alt(events, j).1 <= events.len(),
    decreases events.len() - j,
{
    if j < events.len() {
        lemma_image_alt_cursor(events, j + 1);
    }
}

/// What a piece of inline HTML does: `<br>` breaks the line; `<b>`,
/// `<strong>`, `<i>`, `<em>`, `<s>`, `<del>` and `<code>` open a style and
/// their closing tags close it; `</a>` ends a link; `<a ...>` with an
/// `href` opens a link; `<img ...>` with a `src` adds an image.  Tags are
/// compared in lowercase, with surrounding white space dropped.
pub open spec fn html_step(st: InlineState, h: Seq<char>) -> InlineState {
    let lower = lowercase(trimmed(h));
    if lower == "<br>"@ || lower == "<br/>"@ || lower == "<br />"@ {
        append_text(st, seq!['\n'], None)
    } else if lower == "<b>"@ || lower == "<strong>"@ {
        InlineState { bold: st.bold + 1, ..st }
    } else if lower == "</b>"@ || lower == "</strong>"@ {
        InlineState { bold: dec(st.bold), ..st }
    } else if lower == "<i>"@ || lower == "<em>"@ {
        InlineState { italic: st.italic + 1, ..st }
    } else if lower == "</i>"@ || lower == "</em>"@ {
        InlineState { italic: dec(st.italic), ..st }
    } else if lower == "<s>"@ || lower == "<del>"@ {
        InlineState { strike: st.strike + 1, ..st }
    } else if lower == "</s>"@ || lower == "</del>"@ {
        InlineState { strike: dec(st.strike), ..st }
    } else if lower == "<code>"@ {
        InlineState { code: st.code + 1, ..st }
    } else if lower == "</code>"@ {
        InlineState { code: dec(st.code), ..st }
    } else if lower == "</a>"@ {
        close_link(st)
    } else if has_prefix(lower, "<a "@) {
        match first_named(fragment_elements(trimmed(h)), "a"@, 0) {
            Some(e) => match e.href {
                Some(href) => open_link(st, href),
                None => st,
            },
            None => st,
        }
    } else if has_prefix(lower, "<img"@) {
        match first_named(fragment_elements(trimmed(h)), "img"@, 0) {
            Some(e) => match e.src {
                Some(src) => add_image(
                    st,
                    image_label(
                        match e.alt {
                            Some(a) => a,
                            None => Seq::empty(),
                        },
                    ),
                    src,
                ),
                None => st,
            },
            None => st,
        }
    } else {
        st
    }
}

/// The inline content from event `i` on, up to and past the end event
/// `end_tag` (or the last event), and the event after it.
pub open spec fn inline_run(events: Seq<MdEventView>, end_tag: MdTag, i: int, st: InlineState) -> (
    InlineState,
    int,
)
    decreases events.len() - i,
{
    if i < 0 || i >= events.len() {
        (st, i)
    } else {
        match events[i] {
            MdEventView::End(t) => if t == end_tag {
                (st, i + 1)
            } else if t == MdTag::Strong {
                inline_run(events, end_tag, i + 1, InlineState { bold: dec(st.bold), ..st })
            } else if t == MdTag::Emphasis {
                inline_run(events, end_tag, i + 1, InlineState { italic: dec(st.italic), ..st })
            } else if t == MdTag::Strikethrough {
                inline_run(events, end_tag, i + 1, InlineState { strike: dec(st.strike), ..st })
            } else if t == MdTag::Link {
                inline_run(events, end_tag, i + 1, close_link(st))
            } else {
                inline_run(events, end_tag, i + 1, st)
            },
            MdEventView::Text(t) => inline_run(events, end_tag, i + 1, append_text(st, t, text_style(st))),
            MdEventView::Code(c) => inline_run(
                events,
                end_tag,
                i + 1,
                append_text(st, c, Some(InlineStyle { code: true, ..open_style(st) })),
            ),
            MdEventView::SoftBreak => inline_run(events, end_tag, i + 1, append_text(st, seq![' '], None)),
            MdEventView::HardBreak => inline_run(events, end_tag, i + 1, append_text(st, seq!['\n'], None)),
            MdEventView::Start(t) => if t == MdTag::Strong {
                inline_run(events, end_tag, i + 1, InlineState { bold: st.bold + 1, ..st })
            } else if t == MdTag::Emphasis {
                inline_run(events, end_tag, i + 1, InlineState { italic: st.italic + 1, ..st })
            } else if t == MdTag::Strikethrough {
                inline_run(events, end_tag, i + 1, InlineState { strike: st.strike + 1, ..st })
            } else {
                inline_run(events, end_tag, i + 1, st)
            },
            MdEventView::StartLink(url) => inline_run(events, end_tag, i + 1, open_link(st, url)),
            MdEventView::StartImage(url) => {
                proof {
                    lemma_image_alt_cursor(events, i + 1);
                }
                let (alt, k) = image_alt(events, i + 1);
                inline_run(events, end_tag, k, add_image(st, image_label(alt), url))
            },
            MdEventView::InlineHtml(h) => inline_run(events, end_tag, i + 1, html_step(st, h)),
            _ => inline_run(events, end_tag, i + 1, st),
        }
    }
}


/// The content being collected.
pub(crate) struct InlineBuilder {
    pub(crate) text: String,
    pub(crate) spans: Vec<StyledSpan>,
    pub(crate) links: Vec<(usize, usize)>,
    pub(crate) urls: Vec<String>,
    pub(crate) bold: usize,
    pub(crate) italic: usize,
    pub(crate) strike: usize,
    pub(crate) code: usize,
    pub(crate) link: Option<String>,
    pub(crate) link_start: usize,
}

pub(crate) open spec fn builder_state(b: InlineBuilder) -> InlineState {
    InlineState {
        text: b.text@,
        spans: b.spans@,
        links: b.links@,
        urls: string_views(b.urls@),
        bold: b.bold as int,
        italic: b.italic as int,
        strike: b.strike as int,
        code: b.code as int,
        link: opt_str(b.link),
        link_start: b.link_start,
    }
}

pub(crate) open spec fn depth_sum(b: InlineBuilder) -> int {
    b.bold + b.italic + b.strike + b.code
}

/// `"[image]"`.
pub(crate) fn image_placeholder() -> (s: String)
    ensures
        s@ == "[image]"@,
{
    let mut s = String::new();
    s.append("[image]");
    s
}

impl InlineBuilder {
    pub(crate) fn new() -> (b: Self)
        ensures
            builder_state(b) == initial_state(),
            depth_sum(b) == 0,
    {
        let b = InlineBuilder {
            text: String::new(),
            spans: Vec::new(),
            links: Vec::new(),
            urls: Vec::new(),
            bold: 0,
            italic: 0,
            strike: 0,
            code: 0,
            link: None,
            link_start: 0,
        };
        assert(string_views(b.urls@) =~= Seq::<Seq<char>>::empty());
        b
    }

    fn open_style(&self) -> (s: InlineStyle)
        ensures
            s == open_style(builder_state(*self)),
    {
        InlineStyle {
            bold: self.bold > 0,
            italic: self.italic > 0,
            strikethrough: self.strike > 0,
            link: self.link.is_some(),
            code: false,
        }
    }

    fn text_style(&self) -> (s: Option<InlineStyle>)
        ensures
            s == text_style(builder_state(*self)),
    {
        let open = self.open_style();
        if self.code > 0 {
            Some(InlineStyle { code: true, ..open })
        } else if open.bold || open.italic || open.strikethrough || open.link || open.code {
            Some(open)
        } else {
            None
        }
    }

    pub(crate) fn append(&mut self, t: &str, style: Option<InlineStyle>)
        ensures
            builder_state(*final(self)) == append_text(builder_state(*old(self)), t@, style),
            depth_sum(*final(self)) == depth_sum(*old(self)),
    {
        let start = self.text.as_str().len();
        self.text.append(t);
        let end = self.text.as_str().len();
        match style {
            Some(s) => {
                self.spans.push(StyledSpan { start, end, style: s });
            },
            None => {},
        }
    }

    fn close_link(&mut self)
        ensures
            builder_state(*final(self)) == close_link(builder_state(*old(self))),
            depth_sum(*final(self)) == depth_sum(*old(self)),
    {
        let taken = self.link.take();
        match taken {
            Some(url) => {
                let end = self.text.as_str().len();
                if self.link_start < end {
                    self.links.push((self.link_start, end));
                    let ghost before = self.urls@;
                    let ghost uv = url@;
                    self.urls.push(url);
                    assert(string_views(self.urls@) =~= string_views(before).push(uv));
                }
            },
            None => {},
        }
    }

    fn open_link(&mut self, url: String)
        ensures
            builder_state(*final(self)) == open_link(builder_state(*old(self)), url@),
            depth_sum(*final(self)) == depth_sum(*old(self)),
    {
        self.link = Some(url);
        self.link_start = self.text.as_str().len();
    }

    pub(crate) fn add_image(&mut self, label: &str, url: String)
        ensures
            builder_state(*final(self)) == add_image(builder_state(*old(self)), label@, url@),
            depth_sum(*final(self)) == depth_sum(*old(self)),
    {
        let start = self.text.as_str().len();
        self.text.append(label);
        let end = self.text.as_str().len();
        self.spans.push(StyledSpan { start, end, style: InlineStyle { bold: false, italic: false, strikethrough: false, link: true, code: false } });
        self.links.push((start, end));
        let ghost before = self.urls@;
        let ghost uv = url@;
        self.urls.push(url);
        assert(string_views(self.urls@) =~= string_views(before).push(uv));
    }

    /// Handles a piece of inline HTML.
    fn html(&mut self, h: &str)
        requires
            depth_sum(*old(self)) < usize::MAX,
        ensures
            builder_state(*final(self)) == html_step(builder_state(*old(self)), h@),
            depth_sum(*final(self)) <= depth_sum(*old(self)) + 1,
    {
        let tr = trim_text(h);
        let lower_s = to_lowercase(tr.as_str());
        let lower = chars_of(lower_s.as_str());
        if chars_are(&lower, "<br>") || chars_are(&lower, "<br/>") || chars_are(&lower, "<br />") {
            let mut nl = String::new();
            nl.append("\n");
            proof {
                reveal_strlit("\n");
            }
            assert(nl@ =~= seq!['\n']);
            self.append(nl.as_str(), None);
        } else if chars_are(&lower, "<b>") || chars_are(&lower, "<strong>") {
            self.bold = self.bold + 1;
        } else if chars_are(&lower, "</b>") || chars_are(&lower, "</strong>") {
            self.bold = if self.bold > 0 { self.bold - 1 } else { 0 };
        } else if chars_are(&lower, "<i>") || chars_are(&lower, "<em>") {
            self.italic = self.italic + 1;
        } else if chars_are(&lower, "</i>") || chars_are(&lower, "</em>") {
            self.italic = if self.italic > 0 { self.italic - 1 } else { 0 };
        } else if chars_are(&lower, "<s>") || chars_are(&lower, "<del>") {
            self.strike = self.strike + 1;
        } else if chars_are(&lower, "</s>") || chars_are(&lower, "</del>") {
            self.strike = if self.strike > 0 { self.strike - 1 } else { 0 };
        } else if chars_are(&lower, "<code>") {
            self.code = self.code + 1;
        } else if chars_are(&lower, "</code>") {
            self.code = if self.code > 0 { self.code - 1 } else { 0 };
        } else if chars_are(&lower, "</a>") {
            self.close_link();
        } else if has_prefix_chars(&lower, &chars_of("<a ")) {
            let els = fragment_element_list(tr.as_str());
            match find_named(&els, "a") {
                Some(i) => {
                    match &els[i].href {
                        Some(href) => {
                            self.open_link(href.clone());
                        },
                        None => {},
                    }
                },
                None => {},
            }
        } else if has_prefix_chars(&lower, &chars_of("<img")) {
            let els = fragment_element_list(tr.as_str());
            match find_named(&els, "img") {
                Some(i) => {
                    match &els[i].src {
                        Some(src) => {
                            let label = match &els[i].alt {
                                Some(a) => if a.as_str().unicode_len() == 0 {
                                    image_placeholder()
                                } else {
                                    a.clone()
                                },
                                None => image_placeholder(),
                            };
                            self.add_image(label.as_str(), src.clone());
                        },
                        None => {},
                    }
                },
                None => {},
            }
        }
    }

    /// Makes the text appended since byte `start` a link to `url`.
    pub(crate) fn mark_link(&mut self, start: usize, url: String)
        ensures
            builder_state(*final(self)) == link_over(builder_state(*old(self)), start, url@),
            depth_sum(*final(self)) == depth_sum(*old(self)),
    {
        let end = self.text.as_str().len();
        if start < end {
            self.spans.push(StyledSpan { start, end, style: InlineStyle { bold: false, italic: false, strikethrough: false, link: true, code: false } });
            self.links.push((start, end));
            let ghost before = self.urls@;
            let ghost uv = url@;
            self.urls.push(url);
            assert(string_views(self.urls@) =~= string_views(before).push(uv));
        }
    }

    /// The number of bytes of the text so far.
    pub(crate) fn text_len(&self) -> (n: usize)
        ensures
            n == byte_offset(builder_state(*self).text),
    {
        self.text.as_str().len()
    }

    pub(crate) fn finish(self) -> (c: InlineContent)
        ensures
            c.text@ == builder_state(self).text,
            c.highlights@ == builder_state(self).spans,
            c.link_ranges@ == builder_state(self).links,
            string_views(c.link_urls@) == builder_state(self).urls,
    {
        InlineContent { text: self.text, highlights: self.spans, link_ranges: self.links, link_urls: self.urls }
    }
}

/// The alternative text of an image from event `j` on, and the event
/// after the image's end.
fn collect_image_alt(events: &[MdEvent], j: usize) -> (r: (String, usize))
    ensures
        r.0@ == image_alt(event_views(events@), j as int).0,
        r.1 == image_alt(event_views(events@), j as int).1,
{
    let ghost ev = event_views(events@);
    let mut alt = String::new();
    let mut k = j;
    proof {
        assert(alt@ + image_alt(ev, j as int).0 =~= image_alt(ev, j as int).0);
    }
    while k < events.len()
        invariant
            j <= k,
            ev == event_views(events@),
            alt@ + image_alt(ev, k as int).0 == image_alt(ev, j as int).0,
            image_alt(ev, k as int).1 == image_alt(ev, j as int).1,
        decreases events.len() - k,
    {
        assert(ev[k as int] == events@[k as int]@);
        match &events[k] {
            MdEvent::Text(t) => {
                let ghost before = alt@;
                alt.append(t.as_str());
                assert(alt@ + image_alt(ev, k + 1).0 =~= before + image_alt(ev, k as int).0);
            },
            MdEvent::End(MdTag::Image) => {
                assert(alt@ + image_alt(ev, k as int).0 =~= alt@);
                return (alt, k + 1);
            },
            _ => {},
        }
        k = k + 1;
    }
    assert(alt@ + image_alt(ev, k as int).0 =~= alt@);
    (alt, k)
}

/// The inline content of a paragraph, heading, list item or table cell:
/// the events from `start` on, up to the end event `end_tag`, turned into
/// one text whose byte ranges carry the open styles, with the byte ranges
/// and URLs of its links (see `inline_run`).  Also gives the event after
/// the end event.
pub fn collect_inline(events: &[MdEvent], start: usize, end_tag: MdTag) -> (r: (InlineContent, usize))
    ensures
        ({
            let (st, k) = inline_run(event_views(events@), end_tag, start as int, initial_state());
            &&& r.0.text@ == st.text
            &&& r.0.highlights@ == st.spans
            &&& r.0.link_ranges@ == st.links
            &&& string_views(r.0.link_urls@) == st.urls
            &&& r.1 == k
        }),
{
    let ghost ev = event_views(events@);
    let mut b = InlineBuilder::new();
    let mut cursor = start;
    while cursor < events.len()
        invariant
            ev == event_views(events@),
            start <= cursor,
            depth_sum(b) <= cursor,
            inline_run(ev, end_tag, start as int, initial_state()) == inline_run(
                ev,
                end_tag,
                cursor as int,
                builder_state(b),
            ),
        decreases events.len() - cursor,
    {
        assert(ev[cursor as int] == events@[cursor as int]@);
        match &events[cursor] {
            MdEvent::End(t) => {
                if *t == end_tag {
                    return (b.finish(), cursor + 1);
                } else if *t == MdTag::Strong {
                    b.bold = if b.bold > 0 { b.bold - 1 } else { 0 };
                } else if *t == MdTag::Emphasis {
                    b.italic = if b.italic > 0 { b.italic - 1 } else { 0 };
                } else if *t == MdTag::Strikethrough {
                    b.strike = if b.strike > 0 { b.strike - 1 } else { 0 };
                } else if *t == MdTag::Link {
                    b.close_link();
                }
                cursor = cursor + 1;
            },
            MdEvent::Text(t) => {
                let style = b.text_style();
                b.append(t.as_str(), style);
                cursor = cursor + 1;
            },
            MdEvent::Code(c) => {
                let open = b.open_style();
                b.append(c.as_str(), Some(InlineStyle { code: true, ..open }));
                cursor = cursor + 1;
            },
            MdEvent::SoftBreak => {
                let mut sp = String::new();
                sp.append(" ");
                proof {
                    reveal_strlit(" ");
                }
                assert(sp@ =~= seq![' ']);
                b.append(sp.as_str(), None);
                cursor = cursor + 1;
            },
            MdEvent::HardBreak => {
                let mut nl = String::new();
                nl.append("\n");
                proof {
                    reveal_strlit("\n");
                }
                assert(nl@ =~= seq!['\n']);
                b.append(nl.as_str(), None);
                cursor = cursor + 1;
            },
            MdEvent::Start(t) => {
                if *t == MdTag::Strong {
                    b.bold = b.bold + 1;
                } else if *t == MdTag::Emphasis {
                    b.italic = b.italic + 1;
                } else if *t == MdTag::Strikethrough {
                    b.strike = b.strike + 1;
                }
                cursor = cursor + 1;
            },
            MdEvent::StartLink(url) => {
                b.open_link(url.clone());
                cursor = cursor + 1;
            },
            MdEvent::StartImage(url) => {
                proof {
                    lemma_image_alt_cursor(ev, cursor + 1);
                }
                let (alt, k) = collect_image_alt(events, cursor + 1);
                let label = if alt.as_str().unicode_len() == 0 {
                    image_placeholder()
                } else {
                    alt
                };
                b.add_image(label.as_str(), url.clone());
                cursor = k;
            },
            MdEvent::InlineHtml(h) => {
                b.html(h.as_str());
                cursor = cursor + 1;
            },
            _ => {
                cursor = cursor + 1;
            },
        }
    }
    (b.finish(), cursor)
}


// ---------------------------------------------------------------------------
// Styled ranges
// ---------------------------------------------------------------------------

/// The ranges with the gaps before each one filled by the default style,
/// for the first `n` ranges, and the byte where the last range ends.
pub open spec fn gaps_filled(spans: Seq<StyledSpan>, n: int, default: InlineStyle) -> (Seq<StyledSpan>, usize)
    decreases n,
{
    if n <= 0 {
        (Seq::empty(), 0)
    } else {
        let (r, ix) = gaps_filled(spans, n - 1, default);
        let sp = spans[n - 1];
        let r2 = if ix < sp.start {
            r.push(StyledSpan { start: ix, end: sp.start, style: default })
        } else {
            r
        };
        (r2.push(sp), sp.end)
    }
}

/// The ranges with every gap, and the rest of the text after the last
/// range, given the default style.
pub open spec fn fill_gaps(text_len: usize, spans: Seq<StyledSpan>, default: InlineStyle) -> Seq<StyledSpan> {
    let (r, ix) = gaps_filled(spans, spans.len() as int, default);
    if ix < text_len {
        r.push(StyledSpan { start: ix, end: text_len, style: default })
    } else {
        r
    }
}

/// The styled ranges of a text with each gap between them, and the rest
/// of the text after the last one, styled `default_style`.
pub fn fill_gaps_with_default(text: &str, highlights: &[StyledSpan], default_style: InlineStyle) -> (r: Vec<StyledSpan>)
    ensures
        r@ == fill_gaps(byte_offset(text@), highlights@, default_style),
{
    let mut r: Vec<StyledSpan> = Vec::new();
    let mut ix: usize = 0;
    let mut i: usize = 0;
    while i < highlights.len()
        invariant
            i <= highlights.len(),
            (r@, ix) == gaps_filled(highlights@, i as int, default_style),
        decreases highlights.len() - i,
    {
        let sp = highlights[i];
        if ix < sp.start {
            r.push(StyledSpan { start: ix, end: sp.start, style: default_style });
        }
        r.push(sp);
        ix = sp.end;
        i = i + 1;
    }
    let len = text.len();
    if ix < len {
        r.push(StyledSpan { start: ix, end: len, style: default_style });
    }
    r
}

/// The ranges with bold added to each.
pub open spec fn emboldened(spans: Seq<StyledSpan>) -> Seq<StyledSpan> {
    spans.map_values(|sp: StyledSpan| StyledSpan { style: InlineStyle { bold: true, ..sp.style }, ..sp })
}

/// The styled ranges with bold added to each, as headings and header
/// cells show them.
pub fn embolden(highlights: &[StyledSpan]) -> (r: Vec<StyledSpan>)
    ensures
        r@ == emboldened(highlights@),
{
    let mut r: Vec<StyledSpan> = Vec::new();
    let mut i: usize = 0;
    while i < highlights.len()
        invariant
            i <= highlights.len(),
            r@ == emboldened(highlights@.take(i as int)),
        decreases highlights.len() - i,
    {
        let sp = highlights[i];
        r.push(StyledSpan { start: sp.start, end: sp.end, style: InlineStyle { bold: true, ..sp.style } });
        i = i + 1;
        assert(r@ =~= emboldened(highlights@.take(i as int)));
    }
    assert(highlights@.take(highlights.len() as int) =~= highlights@);
    r
}

// ---------------------------------------------------------------------------
// Code blocks and images
// ---------------------------------------------------------------------------

/// The text of a code block from event `j` on, and the event after its
/// end.
pub open spec fn code_run(events: Seq<MdEventView>, j: int) -> (Seq<char>, int)
    decreases events.len() - j,
{
    if j < 0 || j >= events.len() {
        (Seq::empty(), j)
    } else {
        match events[j] {
            MdEventView::Text(t) => {
                let rest = code_run(events, j + 1);
                (t + rest.0, rest.1)
            },
            MdEventView::End(MdTag::CodeBlock) => (Seq::empty(), j + 1),
            _ => code_run(events, j + 1),
        }
    }
}

/// The text without one final line break.
pub open spec fn drop_final_newline(s: Seq<char>) -> Seq<char> {
    if s.len() > 0 && s.last() == '\n' {
        s.drop_last()
    } else {
        s
    }
}

/// The text of a code block from event `j` on, and the event after its
/// end.
fn collect_code_run(events: &[MdEvent], j: usize) -> (r: (Vec<char>, usize))
    ensures
        r.0@ == code_run(event_views(events@), j as int).0,
        r.1 == code_run(event_views(events@), j as int).1,
{
    let ghost ev = event_views(events@);
    let mut code: Vec<char> = Vec::new();
    let mut k = j;
    assert(code@ + code_run(ev, j as int).0 =~= code_run(ev, j as int).0);
    while k < events.len()
        invariant
            j <= k,
            ev == event_views(events@),
            code@ + code_run(ev, k as int).0 == code_run(ev, j as int).0,
            code_run(ev, k as int).1 == code_run(ev, j as int).1,
        decreases events.len() - k,
    {
        assert(ev[k as int] == events@[k as int]@);
        match &events[k] {
            MdEvent::Text(t) => {
                let ghost before = code@;
                let tc = chars_of(t.as_str());
                let mut m: usize = 0;
                while m < tc.len()
                    invariant
                        m <= tc.len(),
                        code@ == before + tc@.take(m as int),
                    decreases tc.len() - m,
                {
                    code.push(tc[m]);
                    m = m + 1;
                    assert(code@ =~= before + tc@.take(m as int));
                }
                assert(tc@.take(tc.len() as int) =~= tc@);
                assert(code@ + code_run(ev, k + 1).0 =~= before + code_run(ev, k as int).0);
            },
            MdEvent::End(MdTag::CodeBlock) => {
                assert(code@ + code_run(ev, k as int).0 =~= code@);
                return (code, k + 1);
            },
            _ => {},
        }
        k = k + 1;
    }
    assert(code@ + code_run(ev, k as int).0 =~= code@);
    (code, k)
}

/// The text of the code block that starts at event `start`, without its
/// final line break, and the event after the block.
pub fn code_block_text(events: &[MdEvent], start: usize) -> (r: (String, usize))
    requires
        start < usize::MAX,
    ensures
        r.0@ == drop_final_newline(code_run(event_views(events@), start + 1).0),
        r.1 == code_run(event_views(events@), start + 1).1,
{
    let (mut code, last) = collect_code_run(events, start + 1);
    let ghost whole = code@;
    if code.len() > 0 && code[code.len() - 1] == '\n' {
        code.pop();
    }
    assert(code@ =~= drop_final_newline(whole));
    (crate::text::string_of_all(&code), last)
}

/// A paragraph that holds nothing but an image: its URL, its alternative
/// text and the event after the paragraph.
pub open spec fn paragraph_image_spec(events: Seq<MdEventView>, start: int) -> Option<(Seq<char>, Seq<char>, int)> {
    let first = start + 1;
    if 0 <= first < events.len() {
        match events[first] {
            MdEventView::StartImage(url) => {
                let (alt, k) = image_alt(events, first + 1);
                if 0 <= k < events.len() && events[k] == MdEventView::End(MdTag::Paragraph) {
                    Some((url, alt, k + 1))
                } else {
                    None
                }
            },
            _ => None,
        }
    } else {
        None
    }
}

/// The image of a paragraph that starts at event `start` and holds nothing
/// but that image: its URL, its alternative text, and the event after the
/// paragraph.
pub fn paragraph_image(events: &[MdEvent], start: usize) -> (r: Option<(String, String, usize)>)
    ensures
        match paragraph_image_spec(event_views(events@), start as int) {
            Some((url, alt, k)) => r matches Some(x) && x.0@ == url && x.1@ == alt && x.2 == k,
            None => r is None,
        },
{
    let ghost ev = event_views(events@);
    if start >= events.len() {
        return None;
    }
    let first = start + 1;
    if first >= events.len() {
        return None;
    }
    assert(ev[first as int] == events@[first as int]@);
    match &events[first] {
        MdEvent::StartImage(url) => {
            proof {
                lemma_image_alt_cursor(ev, first + 1);
            }
            let (alt, k) = collect_image_alt(events, first + 1);
            if k < events.len() {
                assert(ev[k as int] == events@[k as int]@);
                match &events[k] {
                    MdEvent::End(MdTag::Paragraph) => Some((url.clone(), alt, k + 1)),
                    _ => None,
                }
            } else {
                None
            }
        },
        _ => None,
    }
}


// ---------------------------------------------------------------------------
// Laws
// ---------------------------------------------------------------------------

pub proof fn lemma_encode_concat(a: Seq<char>, b: Seq<char>)
    ensures
        encode_utf8(a + b) == encode_utf8(a) + encode_utf8(b),
    decreases a.len(),
{
    if a.len() == 0 {
        assert(a + b =~= b);
        assert(encode_utf8(a) + encode_utf8(b) =~= encode_utf8(b));
    } else {
        assert((a + b)[0] == a[0]);
        assert((a + b).drop_first() =~= a.drop_first() + b);
        lemma_encode_concat(a.drop_first(), b);
        assert(encode_utf8(a + b) =~= encode_utf8(a) + encode_utf8(b));
    }
}

/// The text of a state starts with the text of another.
pub open spec fn extends(st: InlineState, st2: InlineState) -> bool {
    st.text.len() <= st2.text.len() && st2.text.subrange(0, st.text.len() as int) == st.text
}

/// The styled ranges and the links lie in the text, in order; every link
/// has its URL; an open link starts in the text.
pub open spec fn ranges_wf(st: InlineState) -> bool {
    let n = encode_utf8(st.text).len();
    &&& forall|i: int| 0 <= i < st.spans.len() ==> (#[trigger] st.spans[i]).start <= st.spans[i].end <= n
    &&& forall|i: int| 0 <= i < st.spans.len() - 1 ==> (#[trigger] st.spans[i]).end <= st.spans[i + 1].start
    &&& st.links.len() == st.urls.len()
    &&& forall|i: int| 0 <= i < st.links.len() ==> (#[trigger] st.links[i]).0 < st.links[i].1 <= n
    &&& st.link is Some ==> st.link_start <= n
}

/// The text of a state fits the byte offsets.
pub open spec fn fits(st: InlineState) -> bool {
    encode_utf8(st.text).len() <= usize::MAX
}

pub proof fn lemma_extends_fits(st: InlineState, st2: InlineState)
    requires
        extends(st, st2),
        fits(st2),
    ensures
        fits(st),
        encode_utf8(st.text).len() <= encode_utf8(st2.text).len(),
{
    let rest = st2.text.subrange(st.text.len() as int, st2.text.len() as int);
    assert(st2.text =~= st.text + rest);
    lemma_encode_concat(st.text, rest);
}

pub proof fn lemma_extends_trans(a: InlineState, b: InlineState, c: InlineState)
    requires
        extends(a, b),
        extends(b, c),
    ensures
        extends(a, c),
{
    assert(c.text.subrange(0, a.text.len() as int) =~= b.text.subrange(0, a.text.len() as int));
}

pub proof fn lemma_append_text(st: InlineState, t: Seq<char>, style: Option<InlineStyle>)
    requires
        ranges_wf(st),
        fits(append_text(st, t, style)),
    ensures
        extends(st, append_text(st, t, style)),
        ranges_wf(append_text(st, t, style)),
{
    let st2 = append_text(st, t, style);
    assert(st2.text.subrange(0, st.text.len() as int) =~= st.text);
    lemma_encode_concat(st.text, t);
    let n = encode_utf8(st.text).len();
    let m = encode_utf8(st2.text).len();
    assert(n <= m);
    assert(byte_offset(st.text) == n);
    assert(byte_offset(st2.text) == m);
    match style {
        Some(sty) => {
            let sp = StyledSpan { start: n as usize, end: m as usize, style: sty };
            assert(st2.spans == st.spans.push(sp));
            assert forall|i: int| 0 <= i < st2.spans.len() - 1 implies (#[trigger] st2.spans[i]).end <= st2.spans[i + 1].start by {
                if i < st.spans.len() - 1 {
                    assert(st2.spans[i] == st.spans[i] && st2.spans[i + 1] == st.spans[i + 1]);
                } else {
                    assert(st2.spans[i] == st.spans[i]);
                }
            }
            assert forall|i: int| 0 <= i < st2.spans.len() implies (#[trigger] st2.spans[i]).start <= st2.spans[i].end <= m by {
                if i < st.spans.len() {
                    assert(st2.spans[i] == st.spans[i]);
                }
            }
        },
        None => {},
    }
}

pub proof fn lemma_close_link(st: InlineState)
    requires
        ranges_wf(st),
        fits(st),
    ensures
        close_link(st).text == st.text,
        ranges_wf(close_link(st)),
{
    let st2 = close_link(st);
    assert(byte_offset(st.text) == encode_utf8(st.text).len());
    if st.link is Some && st.link_start < byte_offset(st.text) {
        assert forall|i: int| 0 <= i < st2.links.len() implies (#[trigger] st2.links[i]).0 < st2.links[i].1
            <= encode_utf8(st2.text).len() by {
            if i < st.links.len() {
                assert(st2.links[i] == st.links[i]);
            }
        }
    }
}

pub proof fn lemma_encode_nonempty(s: Seq<char>)
    requires
        s.len() > 0,
    ensures
        encode_utf8(s).len() > 0,
{
    assert(encode_utf8(s) == vstd::utf8::encode_scalar(s[0] as u32) + encode_utf8(s.drop_first()));
}

pub proof fn lemma_image_label_nonempty(alt: Seq<char>)
    ensures
        image_label(alt).len() > 0,
{
    reveal_strlit("[image]");
}

pub proof fn lemma_add_image(st: InlineState, label: Seq<char>, url: Seq<char>)
    requires
        ranges_wf(st),
        label.len() > 0,
        fits(add_image(st, label, url)),
    ensures
        extends(st, add_image(st, label, url)),
        ranges_wf(add_image(st, label, url)),
{
    let st2 = add_image(st, label, url);
    assert(st2.text.subrange(0, st.text.len() as int) =~= st.text);
    lemma_encode_concat(st.text, label);
    lemma_encode_nonempty(label);
    let n = encode_utf8(st.text).len();
    let m = encode_utf8(st2.text).len();
    assert(byte_offset(st.text) == n);
    assert(byte_offset(st2.text) == m);
    assert forall|i: int| 0 <= i < st2.spans.len() - 1 implies (#[trigger] st2.spans[i]).end <= st2.spans[i + 1].start by {
        if i < st.spans.len() - 1 {
            assert(st2.spans[i] == st.spans[i] && st2.spans[i + 1] == st.spans[i + 1]);
        } else {
            assert(st2.spans[i] == st.spans[i]);
        }
    }
    assert forall|i: int| 0 <= i < st2.spans.len() implies (#[trigger] st2.spans[i]).start <= st2.spans[i].end <= m by {
        if i < st.spans.len() {
            assert(st2.spans[i] == st.spans[i]);
        }
    }
    assert forall|i: int| 0 <= i < st2.links.len() implies (#[trigger] st2.links[i]).0 < st2.links[i].1 <= m by {
        if i < st.links.len() {
            assert(st2.links[i] == st.links[i]);
        }
    }
}

/// A step keeps the ranges in order, when the longer text still fits.
pub open spec fn step_ok(st: InlineState, st2: InlineState) -> bool {
    fits(st2) ==> ranges_wf(st2)
}

pub proof fn lemma_html_step(st: InlineState, h: Seq<char>)
    requires
        ranges_wf(st),
    ensures
        step_ok(st, html_step(st, h)),
{
    let st2 = html_step(st, h);
    let lower = lowercase(trimmed(h));
    if fits(st2) {
        if lower == "<br>"@ || lower == "<br/>"@ || lower == "<br />"@ {
            lemma_append_text(st, seq!['\n'], None);
        } else if lower == "<b>"@ || lower == "<strong>"@ || lower == "</b>"@ || lower == "</strong>"@
            || lower == "<i>"@ || lower == "<em>"@ || lower == "</i>"@ || lower == "</em>"@ || lower
            == "<s>"@ || lower == "<del>"@ || lower == "</s>"@ || lower == "</del>"@ || lower
            == "<code>"@ || lower == "</code>"@ {
        } else if lower == "</a>"@ {
            lemma_close_link(st);
        } else if has_prefix(lower, "<a "@) {
            assert(byte_offset(st.text) == encode_utf8(st.text).len());
        } else if has_prefix(lower, "<img"@) {
            match first_named(fragment_elements(trimmed(h)), "img"@, 0) {
                Some(e) => match e.src {
                    Some(src) => {
                        let label = image_label(
                            match e.alt {
                                Some(a) => a,
                                None => Seq::empty(),
                            },
                        );
                        lemma_image_label_nonempty(
                            match e.alt {
                                Some(a) => a,
                                None => Seq::empty(),
                            },
                        );
                        lemma_add_image(st, label, src);
                    },
                    None => {},
                },
                None => {},
            }
        }
    }
}

/// The state after event `i`, when it is not the end event.
pub open spec fn step_state(events: Seq<MdEventView>, i: int, st: InlineState) -> InlineState {
    match events[i] {
        MdEventView::End(t) => if t == MdTag::Strong {
            InlineState { bold: dec(st.bold), ..st }
        } else if t == MdTag::Emphasis {
            InlineState { italic: dec(st.italic), ..st }
        } else if t == MdTag::Strikethrough {
            InlineState { strike: dec(st.strike), ..st }
        } else if t == MdTag::Link {
            close_link(st)
        } else {
            st
        },
        MdEventView::Text(t) => append_text(st, t, text_style(st)),
        MdEventView::Code(c) => append_text(st, c, Some(InlineStyle { code: true, ..open_style(st) })),
        MdEventView::SoftBreak => append_text(st, seq![' '], None),
        MdEventView::HardBreak => append_text(st, seq!['\n'], None),
        MdEventView::Start(t) => if t == MdTag::Strong {
            InlineState { bold: st.bold + 1, ..st }
        } else if t == MdTag::Emphasis {
            InlineState { italic: st.italic + 1, ..st }
        } else if t == MdTag::Strikethrough {
            InlineState { strike: st.strike + 1, ..st }
        } else {
            st
        },
        MdEventView::StartLink(url) => open_link(st, url),
        MdEventView::StartImage(url) => add_image(st, image_label(image_alt(events, i + 1).0), url),
        MdEventView::InlineHtml(h) => html_step(st, h),
        _ => st,
    }
}

/// The event after event `i`.
pub open spec fn step_cursor(events: Seq<MdEventView>, i: int) -> int {
    match events[i] {
        MdEventView::StartImage(_) => image_alt(events, i + 1).1,
        _ => i + 1,
    }
}

/// Whether event `i` ends the collection.
pub open spec fn ends_run(events: Seq<MdEventView>, end_tag: MdTag, i: int) -> bool {
    events[i] matches MdEventView::End(t) && t == end_tag
}

pub proof fn lemma_run_unfold(events: Seq<MdEventView>, end_tag: MdTag, i: int, st: InlineState)
    requires
        0 <= i < events.len(),
        !ends_run(events, end_tag, i),
    ensures
        inline_run(events, end_tag, i, st) == inline_run(events, end_tag, step_cursor(events, i), step_state(events, i, st)),
        i < step_cursor(events, i) <= events.len(),
{
    lemma_image_alt_cursor(events, i + 1);
}

pub proof fn lemma_self_extends(st: InlineState)
    ensures
        extends(st, st),
{
    assert(st.text.subrange(0, st.text.len() as int) =~= st.text);
}

pub proof fn lemma_append_extends(st: InlineState, t: Seq<char>, st2: InlineState)
    requires
        st2.text == st.text + t,
    ensures
        extends(st, st2),
{
    assert(st2.text.subrange(0, st.text.len() as int) =~= st.text);
}

pub proof fn lemma_step_extends(events: Seq<MdEventView>, i: int, st: InlineState)
    requires
        0 <= i < events.len(),
    ensures
        extends(st, step_state(events, i, st)),
{
    lemma_self_extends(st);
    let st2 = step_state(events, i, st);
    match events[i] {
        MdEventView::Text(t) => lemma_append_extends(st, t, st2),
        MdEventView::Code(c) => lemma_append_extends(st, c, st2),
        MdEventView::SoftBreak => lemma_append_extends(st, seq![' '], st2),
        MdEventView::HardBreak => lemma_append_extends(st, seq!['\n'], st2),
        MdEventView::StartImage(url) => lemma_append_extends(st, image_label(image_alt(events, i + 1).0), st2),
        MdEventView::InlineHtml(h) => {
            let lower = lowercase(trimmed(h));
            if lower == "<br>"@ || lower == "<br/>"@ || lower == "<br />"@ {
                lemma_append_extends(st, seq!['\n'], st2);
            } else if st2.text != st.text {
                let e = first_named(fragment_elements(trimmed(h)), "img"@, 0);
                let label = image_label(
                    match e->0.alt {
                        Some(a) => a,
                        None => Seq::empty(),
                    },
                );
                lemma_append_extends(st, label, st2);
            }
        },
        _ => {},
    }
}

pub proof fn lemma_run_extends(events: Seq<MdEventView>, end_tag: MdTag, i: int, st: InlineState)
    requires
        0 <= i,
    ensures
        extends(st, inline_run(events, end_tag, i, st).0),
    decreases events.len() - i,
{
    lemma_self_extends(st);
    if i < events.len() && !ends_run(events, end_tag, i) {
        lemma_run_unfold(events, end_tag, i, st);
        let next = step_state(events, i, st);
        lemma_step_extends(events, i, st);
        lemma_run_extends(events, end_tag, step_cursor(events, i), next);
        lemma_extends_trans(st, next, inline_run(events, end_tag, i, st).0);
    }
}

#[verifier::rlimit(50)]
pub proof fn lemma_step_wf(events: Seq<MdEventView>, i: int, st: InlineState)
    requires
        0 <= i < events.len(),
        ranges_wf(st),
        fits(step_state(events, i, st)),
    ensures
        ranges_wf(step_state(events, i, st)),
{
    lemma_step_extends(events, i, st);
    lemma_extends_fits(st, step_state(events, i, st));
    match events[i] {
        MdEventView::End(t) => {
            if t == MdTag::Link {
                lemma_close_link(st);
            }
        },
        MdEventView::Text(t) => lemma_append_text(st, t, text_style(st)),
        MdEventView::Code(c) => lemma_append_text(st, c, Some(InlineStyle { code: true, ..open_style(st) })),
        MdEventView::SoftBreak => lemma_append_text(st, seq![' '], None),
        MdEventView::HardBreak => lemma_append_text(st, seq!['\n'], None),
        MdEventView::StartLink(url) => {
            assert(byte_offset(st.text) == encode_utf8(st.text).len());
        },
        MdEventView::StartImage(url) => {
            lemma_image_label_nonempty(image_alt(events, i + 1).0);
            lemma_add_image(st, image_label(image_alt(events, i + 1).0), url);
        },
        MdEventView::InlineHtml(h) => lemma_html_step(st, h),
        _ => {},
    }
}

#[verifier::rlimit(50)]
pub proof fn lemma_run_wf(events: Seq<MdEventView>, end_tag: MdTag, i: int, st: InlineState)
    requires
        0 <= i,
        ranges_wf(st),
        fits(inline_run(events, end_tag, i, st).0),
    ensures
        ranges_wf(inline_run(events, end_tag, i, st).0),
    decreases events.len() - i,
{
    if i < events.len() && !ends_run(events, end_tag, i) {
        lemma_run_unfold(events, end_tag, i, st);
        let next = step_state(events, i, st);
        let j = step_cursor(events, i);
        lemma_run_extends(events, end_tag, j, next);
        lemma_extends_fits(next, inline_run(events, end_tag, j, next).0);
        lemma_step_wf(events, i, st);
        lemma_run_wf(events, end_tag, j, next);
    }
}

/// The styled byte ranges of collected inline content never overlap and
/// come in order, inside the text; so do the links, each with its URL.
/// (Stated for a text whose length fits a `usize`.)
pub proof fn law_inline_ranges_in_order(events: Seq<MdEventView>, end_tag: MdTag, start: int)
    requires
        0 <= start,
        fits(inline_run(events, end_tag, start, initial_state()).0),
    ensures
        ranges_wf(inline_run(events, end_tag, start, initial_state()).0),
{
    lemma_run_wf(events, end_tag, start, initial_state());
}

} // verus!
