use august::markdown_inline::{
    code_block_text, collect_inline, embolden, fill_gaps_with_default, merge_styles, paragraph_image, InlineStyle,
    MdEvent, MdTag, StyledSpan,
};

fn text(s: &str) -> MdEvent {
    MdEvent::Text(s.to_string())
}

fn html(s: &str) -> MdEvent {
    MdEvent::InlineHtml(s.to_string())
}

fn plain() -> InlineStyle {
    InlineStyle { bold: false, italic: false, strikethrough: false, link: false, code: false }
}

fn spans(v: &[StyledSpan]) -> Vec<(usize, usize, InlineStyle)> {
    v.iter().map(|s| (s.start, s.end, s.style)).collect()
}

#[test]
fn styles_and_links_become_ranges() {
    let events = vec![
        text("Hello "),
        MdEvent::Start(MdTag::Strong),
        text("bold"),
        MdEvent::End(MdTag::Strong),
        text(" and "),
        MdEvent::StartLink("https://x".to_string()),
        text("link"),
        MdEvent::End(MdTag::Link),
        MdEvent::End(MdTag::Paragraph),
        text("after"),
    ];
    let (content, next) = collect_inline(&events, 0, MdTag::Paragraph);
    assert_eq!(content.text, "Hello bold and link");
    assert_eq!(next, 9);
    assert_eq!(
        spans(&content.highlights),
        vec![(6, 10, InlineStyle { bold: true, ..plain() }), (15, 19, InlineStyle { link: true, ..plain() })]
    );
    assert_eq!(content.link_ranges, vec![(15, 19)]);
    assert_eq!(content.link_urls, vec!["https://x".to_string()]);
}

#[test]
fn code_is_shaded_and_keeps_open_styles() {
    let events = vec![MdEvent::Start(MdTag::Emphasis), MdEvent::Code("x()".to_string()), MdEvent::End(MdTag::Emphasis), MdEvent::Code("y".to_string())];
    let (content, next) = collect_inline(&events, 0, MdTag::Paragraph);
    assert_eq!(content.text, "x()y");
    assert_eq!(next, 4);
    assert_eq!(
        spans(&content.highlights),
        vec![(0, 3, InlineStyle { italic: true, code: true, ..plain() }), (3, 4, InlineStyle { code: true, ..plain() })]
    );
}

#[test]
fn breaks_become_space_and_newline() {
    let events = vec![text("a"), MdEvent::SoftBreak, text("b"), MdEvent::HardBreak, text("c"), MdEvent::End(MdTag::TableCell)];
    let (content, _) = collect_inline(&events, 0, MdTag::TableCell);
    assert_eq!(content.text, "a b\nc");
    assert!(content.highlights.is_empty());
}

#[test]
fn images_show_their_alt_text_as_links() {
    let events = vec![
        MdEvent::StartImage("pic.png".to_string()),
        text("a cat"),
        MdEvent::End(MdTag::Image),
        MdEvent::StartImage("none.png".to_string()),
        MdEvent::End(MdTag::Image),
        MdEvent::End(MdTag::Paragraph),
    ];
    let (content, next) = collect_inline(&events, 0, MdTag::Paragraph);
    assert_eq!(content.text, "a cat[image]");
    assert_eq!(next, 6);
    assert_eq!(content.link_ranges, vec![(0, 5), (5, 12)]);
    assert_eq!(content.link_urls, vec!["pic.png".to_string(), "none.png".to_string()]);
}

#[test]
fn offsets_count_bytes() {
    let events = vec![text("é"), MdEvent::Start(MdTag::Strong), text("ü"), MdEvent::End(MdTag::Strong)];
    let (content, _) = collect_inline(&events, 0, MdTag::Paragraph);
    assert_eq!(spans(&content.highlights), vec![(2, 4, InlineStyle { bold: true, ..plain() })]);
}

#[test]
fn inline_html_tags_style_text() {
    let events = vec![
        html(" <B> "),
        text("b"),
        html("</b>"),
        html("<br/>"),
        html("<del>"),
        text("s"),
        html("</DEL>"),
        html("<code>"),
        text("c"),
        html("</code>"),
        html("<span>"),
        MdEvent::End(MdTag::Paragraph),
    ];
    let (content, _) = collect_inline(&events, 0, MdTag::Paragraph);
    assert_eq!(content.text, "b\nsc");
    assert_eq!(
        spans(&content.highlights),
        vec![
            (0, 1, InlineStyle { bold: true, ..plain() }),
            (2, 3, InlineStyle { strikethrough: true, ..plain() }),
            (3, 4, InlineStyle { code: true, ..plain() }),
        ]
    );
}

#[test]
fn html_links_and_images() {
    let events = vec![
        html("<a href=\"https://y.example\">"),
        text("y"),
        html("</a>"),
        html("<img src=\"p.png\" alt=\"pic\">"),
        html("<img src=\"q.png\">"),
        html("<a name=\"x\">"),
        MdEvent::End(MdTag::Paragraph),
    ];
    let (content, _) = collect_inline(&events, 0, MdTag::Paragraph);
    assert_eq!(content.text, "ypic[image]");
    assert_eq!(content.link_ranges, vec![(0, 1), (1, 4), (4, 11)]);
    assert_eq!(
        content.link_urls,
        vec!["https://y.example".to_string(), "p.png".to_string(), "q.png".to_string()]
    );
}

#[test]
fn empty_link_is_dropped() {
    let events = vec![MdEvent::StartLink("u".to_string()), MdEvent::End(MdTag::Link), MdEvent::End(MdTag::Paragraph)];
    let (content, _) = collect_inline(&events, 0, MdTag::Paragraph);
    assert!(content.link_ranges.is_empty());
    assert!(content.link_urls.is_empty());
}

#[test]
fn gaps_get_the_default_style() {
    let bold = InlineStyle { bold: true, ..plain() };
    let filled = fill_gaps_with_default("abcdef", &[StyledSpan { start: 2, end: 4, style: bold }], plain());
    assert_eq!(spans(&filled), vec![(0, 2, plain()), (2, 4, bold), (4, 6, plain())]);
    assert_eq!(spans(&fill_gaps_with_default("ab", &[], bold)), vec![(0, 2, bold)]);
}

#[test]
fn headings_are_bold_throughout() {
    let link = InlineStyle { link: true, ..plain() };
    let bold = embolden(&[StyledSpan { start: 0, end: 3, style: link }]);
    assert_eq!(spans(&bold), vec![(0, 3, InlineStyle { bold: true, link: true, ..plain() })]);
    assert_eq!(merge_styles(link, InlineStyle { code: true, ..plain() }), InlineStyle { link: true, code: true, ..plain() });
}

#[test]
fn code_block_drops_final_newline() {
    let events = vec![MdEvent::Start(MdTag::CodeBlock), text("let x;\n"), text("x\n"), MdEvent::End(MdTag::CodeBlock), text("z")];
    let (code, next) = code_block_text(&events, 0);
    assert_eq!(code, "let x;\nx");
    assert_eq!(next, 4);
}

#[test]
fn paragraph_holding_only_an_image() {
    let events = vec![
        MdEvent::Start(MdTag::Paragraph),
        MdEvent::StartImage("u.png".to_string()),
        text("alt"),
        MdEvent::End(MdTag::Image),
        MdEvent::End(MdTag::Paragraph),
    ];
    assert_eq!(paragraph_image(&events, 0), Some(("u.png".to_string(), "alt".to_string(), 5)));
    let mixed = vec![
        MdEvent::Start(MdTag::Paragraph),
        MdEvent::StartImage("u.png".to_string()),
        MdEvent::End(MdTag::Image),
        text("more"),
        MdEvent::End(MdTag::Paragraph),
    ];
    assert_eq!(paragraph_image(&mixed, 0), None);
    assert_eq!(paragraph_image(&[text("x")], 0), None);
}
