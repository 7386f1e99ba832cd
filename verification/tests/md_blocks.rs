use august::html_blocks::HtmlBlock;
use august::markdown_inline::{InlineContent, InlineStyle, MdEvent, MdTag};
use august::md_blocks::{render_blocks, MdBlock};

fn text(s: &str) -> MdEvent {
    MdEvent::Text(s.to_string())
}

fn bold() -> InlineStyle {
    InlineStyle { bold: true, italic: false, strikethrough: false, link: false, code: false }
}

fn spans(c: &InlineContent) -> Vec<(usize, usize, InlineStyle)> {
    c.highlights.iter().map(|s| (s.start, s.end, s.style)).collect()
}

fn para(s: &str) -> Vec<MdEvent> {
    vec![MdEvent::Start(MdTag::Paragraph), text(s), MdEvent::End(MdTag::Paragraph)]
}

#[test]
fn heading_paragraph_code_and_rule() {
    let events = vec![
        MdEvent::Start(MdTag::Heading(1)),
        text("Title"),
        MdEvent::End(MdTag::Heading(1)),
        MdEvent::Start(MdTag::Paragraph),
        text("Hi "),
        MdEvent::Start(MdTag::Strong),
        text("you"),
        MdEvent::End(MdTag::Strong),
        MdEvent::End(MdTag::Paragraph),
        MdEvent::Start(MdTag::CodeBlock),
        text("let x;\n"),
        MdEvent::End(MdTag::CodeBlock),
        MdEvent::Rule,
    ];
    let blocks = render_blocks(&events);
    assert_eq!(blocks.len(), 4);
    match &blocks[0] {
        MdBlock::Heading { level, content } => {
            assert_eq!(*level, 1);
            assert_eq!(content.text, "Title");
            assert_eq!(spans(content), vec![(0, 5, bold())]);
        }
        other => panic!("unexpected {other:?}"),
    }
    match &blocks[1] {
        MdBlock::Text(c) => {
            assert_eq!(c.text, "Hi you");
            assert_eq!(spans(c), vec![(3, 6, bold())]);
        }
        other => panic!("unexpected {other:?}"),
    }
    match &blocks[2] {
        MdBlock::Code(code) => assert_eq!(code, "let x;"),
        other => panic!("unexpected {other:?}"),
    }
    assert!(matches!(blocks[3], MdBlock::Rule));
}

#[test]
fn paragraph_of_only_an_image_is_a_block_image() {
    let events = vec![
        MdEvent::Start(MdTag::Paragraph),
        MdEvent::StartImage("u.png".to_string()),
        text("alt"),
        MdEvent::End(MdTag::Image),
        MdEvent::End(MdTag::Paragraph),
    ];
    match &render_blocks(&events)[..] {
        [MdBlock::Image { url, alt }] => {
            assert_eq!(url, "u.png");
            assert_eq!(alt, "alt");
        }
        other => panic!("unexpected {other:?}"),
    }
}

#[test]
fn ordered_list_numbers_items_and_nests() {
    let mut events = vec![MdEvent::StartList(Some(3)), MdEvent::Start(MdTag::Item), text("a"), MdEvent::End(MdTag::Item)];
    events.push(MdEvent::Start(MdTag::Item));
    events.extend(para("b"));
    events.extend(vec![
        MdEvent::StartList(None),
        MdEvent::Start(MdTag::Item),
        text("c"),
        MdEvent::End(MdTag::Item),
        MdEvent::End(MdTag::List(false)),
        MdEvent::End(MdTag::Item),
        MdEvent::End(MdTag::List(true)),
    ]);
    events.extend(para("after"));
    let blocks = render_blocks(&events);
    assert_eq!(blocks.len(), 2);
    match &blocks[0] {
        MdBlock::List { ordered, items } => {
            assert!(*ordered);
            assert_eq!(items.len(), 2);
            match &items[0] {
                MdBlock::Item { number, blocks } => {
                    assert_eq!(*number, 3);
                    assert!(matches!(&blocks[..], [MdBlock::Text(c)] if c.text == "a"));
                }
                other => panic!("unexpected {other:?}"),
            }
            match &items[1] {
                MdBlock::Item { number, blocks } => {
                    assert_eq!(*number, 4);
                    assert_eq!(blocks.len(), 2);
                    match &blocks[1] {
                        MdBlock::List { ordered, items } => {
                            assert!(!*ordered);
                            assert!(matches!(&items[..], [MdBlock::Item { number: 1, .. }]));
                        }
                        other => panic!("unexpected {other:?}"),
                    }
                }
                other => panic!("unexpected {other:?}"),
            }
        }
        other => panic!("unexpected {other:?}"),
    }
    assert!(matches!(&blocks[1], MdBlock::Text(c) if c.text == "after"));
}

#[test]
fn nested_quotes() {
    let mut events = vec![MdEvent::Start(MdTag::BlockQuote)];
    events.extend(para("q"));
    events.push(MdEvent::Start(MdTag::BlockQuote));
    events.extend(para("r"));
    events.push(MdEvent::End(MdTag::BlockQuote));
    events.push(MdEvent::End(MdTag::BlockQuote));
    events.extend(para("after"));
    let blocks = render_blocks(&events);
    assert_eq!(blocks.len(), 2);
    match &blocks[0] {
        MdBlock::Quote(inner) => {
            assert_eq!(inner.len(), 2);
            assert!(matches!(&inner[0], MdBlock::Text(c) if c.text == "q"));
            assert!(matches!(&inner[1], MdBlock::Quote(deeper) if deeper.len() == 1));
        }
        other => panic!("unexpected {other:?}"),
    }
}

#[test]
fn table_header_is_bold_and_sets_columns() {
    let events = vec![
        MdEvent::Start(MdTag::Table),
        MdEvent::Start(MdTag::TableHead),
        MdEvent::Start(MdTag::TableCell),
        text("A"),
        MdEvent::End(MdTag::TableCell),
        MdEvent::Start(MdTag::TableCell),
        text("B"),
        MdEvent::End(MdTag::TableCell),
        MdEvent::End(MdTag::TableHead),
        MdEvent::Start(MdTag::TableRow),
        MdEvent::Start(MdTag::TableCell),
        text("1"),
        MdEvent::End(MdTag::TableCell),
        MdEvent::End(MdTag::TableRow),
        MdEvent::End(MdTag::Table),
    ];
    match &render_blocks(&events)[..] {
        [MdBlock::Table { header, rows, columns }] => {
            assert_eq!(header.len(), 2);
            assert_eq!(spans(&header[1]), vec![(0, 1, bold())]);
            assert_eq!(rows.len(), 1);
            assert_eq!(rows[0][0].text, "1");
            assert_eq!(*columns, 2);
        }
        other => panic!("unexpected {other:?}"),
    }
}

#[test]
fn html_in_document_becomes_html_blocks() {
    let events = vec![MdEvent::Html("<b>x</b>".to_string()), MdEvent::Rule];
    let blocks = render_blocks(&events);
    assert_eq!(blocks.len(), 2);
    match &blocks[0] {
        MdBlock::Html(HtmlBlock::Text(c)) => {
            assert_eq!(c.text, "x");
            assert_eq!(spans(c), vec![(0, 1, bold())]);
        }
        other => panic!("unexpected {other:?}"),
    }
}
