//! A Markdown document read from its text: the parser's events, with
//! strikethrough and tables enabled, and the blocks the document renders as.
use vstd::prelude::*;
use crate::markdown_inline::{event_views, MdEvent, MdEventView, MdTag};
use crate::md_blocks::{md_blocks, md_views, render_blocks, MdBlock};
use pulldown_cmark::{Event, Options, Parser, Tag, TagEnd};

verus! {

/// `pulldown_cmark::Event`, an event of a parsed document; opaque here.
#[verifier::external_type_specification]
#[verifier::external_body]
pub struct ExMarkdownEvent<'a>(Event<'a>);

/// `pulldown_cmark::TagEnd`, the kind of a container; opaque here.
#[verifier::external_type_specification]
#[verifier::external_body]
pub struct ExMarkdownTagEnd(TagEnd);

/// The events `pulldown_cmark::Parser::new_ext` yields for a document with
/// strikethrough and tables enabled, each taken as the library's event.
pub uninterp spec fn markdown_event_list(markdown: Seq<char>) -> Seq<MdEventView>;

/// The kind of a block container (`TagEnd`), one arm per variant; the
/// inline ones are told apart by `inline_tag_kind`.
#[verifier::external_body]
fn tag_kind(end: TagEnd) -> MdTag {
    match end {
        TagEnd::Paragraph => MdTag::Paragraph,
        TagEnd::Heading(level) => MdTag::Heading(level as u8),
        TagEnd::BlockQuote(_) => MdTag::BlockQuote,
        TagEnd::CodeBlock => MdTag::CodeBlock,
        TagEnd::List(ordered) => MdTag::List(ordered),
        TagEnd::Item => MdTag::Item,
        TagEnd::Table => MdTag::Table,
        TagEnd::TableHead => MdTag::TableHead,
        TagEnd::TableRow => MdTag::TableRow,
        TagEnd::TableCell => MdTag::TableCell,
        other => inline_tag_kind(other),
    }
}

/// The kind of an inline container (`TagEnd`), one arm per variant.
#[verifier::external_body]
fn inline_tag_kind(end: TagEnd) -> MdTag {
    match end {
        TagEnd::Emphasis => MdTag::Emphasis,
        TagEnd::Strong => MdTag::Strong,
        TagEnd::Strikethrough => MdTag::Strikethrough,
        TagEnd::Link => MdTag::Link,
        TagEnd::Image => MdTag::Image,
        _ => MdTag::Other,
    }
}

/// A container's start or end (`Event::Start`, `Event::End`) as the
/// library's event; the other events go to `leaf_event`.
#[verifier::external_body]
fn event_of(event: Event<'_>) -> MdEvent {
    match event {
        Event::Start(Tag::Link { dest_url, .. }) => MdEvent::StartLink(dest_url.to_string()),
        Event::Start(Tag::Image { dest_url, .. }) => MdEvent::StartImage(dest_url.to_string()),
        Event::Start(Tag::List(start)) => MdEvent::StartList(start),
        Event::Start(tag) => MdEvent::Start(tag_kind(tag.to_end())),
        Event::End(end) => MdEvent::End(tag_kind(end)),
        other => leaf_event(other),
    }
}

/// A text, code, HTML, break or rule event as the library's event, one arm
/// per variant.
#[verifier::external_body]
fn leaf_event(event: Event<'_>) -> MdEvent {
    match event {
        Event::Text(t) => MdEvent::Text(t.to_string()),
        Event::Code(t) => MdEvent::Code(t.to_string()),
        Event::InlineHtml(t) => MdEvent::InlineHtml(t.to_string()),
        Event::Html(t) => MdEvent::Html(t.to_string()),
        Event::SoftBreak => MdEvent::SoftBreak,
        Event::HardBreak => MdEvent::HardBreak,
        Event::Rule => MdEvent::Rule,
        _ => MdEvent::Other,
    }
}

/// `pulldown_cmark::Parser::new_ext` with strikethrough and tables: the
/// events of the document in order. What the parser yields is not stated
/// beyond its being a function of the text.
#[verifier::external_body]
pub(crate) fn markdown_events(markdown: &str) -> (r: Vec<MdEvent>)
    ensures
        event_views(r@) == markdown_event_list(markdown@),
{
    let options = Options::ENABLE_STRIKETHROUGH | Options::ENABLE_TABLES;
    let mut r = Vec::new();
    for event in Parser::new_ext(markdown, options) {
        r.push(event_of(event));
    }
    r
}

/// The blocks a Markdown document renders as.
pub fn render_markdown(markdown: &str) -> (r: Vec<MdBlock>)
    ensures
        md_views(r@) == md_blocks(markdown_event_list(markdown@), 0),
{
    let events = markdown_events(markdown);
    render_blocks(&events)
}

} // verus!
