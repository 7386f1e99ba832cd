use august::html_blocks::{parse_and_render_html, render_html_block, HtmlBlock};
use august::markdown_inline::{InlineContent, InlineStyle, MdEvent};

fn style(bold: bool, italic: bool, link: bool, code: bool) -> InlineStyle {
    InlineStyle { bold, italic, strikethrough: false, link, code }
}

fn spans(c: &InlineContent) -> Vec<(usize, usize, InlineStyle)> {
    c.highlights.iter().map(|s| (s.start, s.end, s.style)).collect()
}

fn only(blocks: Vec<HtmlBlock>) -> HtmlBlock {
    assert_eq!(blocks.len(), 1, "{blocks:?}");
    blocks.into_iter().next().unwrap()
}

#[test]
fn paragraph_with_bold_and_link() {
    let b = only(parse_and_render_html("<p>Hello <b>bold</b> and <a href=\"https://x\">link</a></p>"));
    match b {
        HtmlBlock::Text(c) => {
            assert_eq!(c.text, "Hello bold and link");
            assert_eq!(spans(&c), vec![(6, 10, style(true, false, false, false)), (15, 19, style(false, false, true, false))]);
            assert_eq!(c.link_ranges, vec![(15, 19)]);
            assert_eq!(c.link_urls, vec!["https://x".to_string()]);
        }
        other => panic!("unexpected {other:?}"),
    }
}

#[test]
fn image_without_alt_gets_placeholder() {
    match only(parse_and_render_html("<img src=\"a.png\" alt=\"\">")) {
        HtmlBlock::Image { src, alt } => {
            assert_eq!(src, "a.png");
            assert_eq!(alt, "[image]");
        }
        other => panic!("unexpected {other:?}"),
    }
    assert!(parse_and_render_html("<img alt=\"x\">").is_empty());
}

#[test]
fn unordered_list_skips_empty_items() {
    match only(parse_and_render_html("<ul><li>one</li><li></li><li>two</li></ul>")) {
        HtmlBlock::List { ordered, items } => {
            assert!(!ordered);
            assert_eq!(items.len(), 2);
            match &items[1] {
                HtmlBlock::ListItemText { number, content } => {
                    assert_eq!(*number, 0);
                    assert_eq!(content.text, "two");
                }
                other => panic!("unexpected {other:?}"),
            }
        }
        other => panic!("unexpected {other:?}"),
    }
}

#[test]
fn ordered_list_counts_from_start() {
    match only(parse_and_render_html("<ol start=\"3\"><li>a</li><li><p>b</p></li></ol>")) {
        HtmlBlock::List { ordered, items } => {
            assert!(ordered);
            assert!(matches!(items[0], HtmlBlock::ListItemText { number: 3, .. }));
            assert!(matches!(items[1], HtmlBlock::ListItem { number: 4, .. }));
        }
        other => panic!("unexpected {other:?}"),
    }
}

#[test]
fn table_with_head_and_body() {
    let html = "<table><thead><tr><th>A</th><th>B</th></tr></thead><tbody><tr><td>1</td></tr><tr><td>2</td><td>3</td><td>4</td></tr></tbody></table>";
    match only(parse_and_render_html(html)) {
        HtmlBlock::Table { header, rows, columns } => {
            assert_eq!(header.len(), 2);
            assert_eq!(header[0].text, "A");
            assert_eq!(spans(&header[0]), vec![(0, 1, style(true, false, false, false))]);
            assert_eq!(rows.len(), 2);
            assert_eq!(rows[1][2].text, "4");
            assert_eq!(columns, 3);
        }
        other => panic!("unexpected {other:?}"),
    }
}

#[test]
fn table_rows_without_head_land_in_body() {
    // the HTML parser puts bare rows into an implied body
    match only(parse_and_render_html("<table><tr><td>x</td><td>y</td></tr></table>")) {
        HtmlBlock::Table { header, rows, columns } => {
            assert!(header.is_empty());
            assert_eq!(rows.len(), 1);
            assert_eq!(columns, 2);
        }
        other => panic!("unexpected {other:?}"),
    }
}

#[test]
fn preformatted_drops_final_newline() {
    match only(parse_and_render_html("<pre>code\n</pre>")) {
        HtmlBlock::Preformatted(t) => assert_eq!(t, "code"),
        other => panic!("unexpected {other:?}"),
    }
}

#[test]
fn heading_is_bold_throughout() {
    match only(parse_and_render_html("<h2>Title <i>x</i></h2>")) {
        HtmlBlock::Heading { level, content } => {
            assert_eq!(level, 2);
            assert_eq!(content.text, "Title x");
            assert_eq!(spans(&content), vec![(0, 6, style(true, false, false, false)), (6, 7, style(true, true, false, false))]);
        }
        other => panic!("unexpected {other:?}"),
    }
}

#[test]
fn div_groups_its_blocks() {
    match only(parse_and_render_html("<div><p>a</p><p>b</p></div>")) {
        HtmlBlock::Group(bs) => assert_eq!(bs.len(), 2),
        other => panic!("unexpected {other:?}"),
    }
}

#[test]
fn linked_image_and_picture_and_break() {
    match only(parse_and_render_html("<a href=\"u\"><img src=\"i.png\" alt=\"pic\"></a>")) {
        HtmlBlock::Group(bs) => assert!(matches!(&bs[0], HtmlBlock::Image { alt, .. } if alt == "pic")),
        other => panic!("unexpected {other:?}"),
    }
    match only(parse_and_render_html("<picture><source srcset=\"x\"><img src=\"p.png\"></picture>")) {
        HtmlBlock::Image { src, alt } => {
            assert_eq!(src, "p.png");
            assert_eq!(alt, "[image]");
        }
        other => panic!("unexpected {other:?}"),
    }
    assert!(matches!(only(parse_and_render_html("<br>")), HtmlBlock::Spacer));
}

#[test]
fn code_is_shaded() {
    match only(parse_and_render_html("<code>x()</code>")) {
        HtmlBlock::Text(c) => assert_eq!(spans(&c), vec![(0, 3, style(false, false, false, true))]),
        other => panic!("unexpected {other:?}"),
    }
}

#[test]
fn html_events_comment_and_closing_tag_render_nothing() {
    let events = vec![MdEvent::Html("<!-- note -->".to_string()), MdEvent::Text("x".to_string())];
    let (blocks, next) = render_html_block(&events, 0);
    assert!(blocks.is_empty());
    assert_eq!(next, 1);
    let events = vec![MdEvent::Html("</div>\n".to_string())];
    let (blocks, next) = render_html_block(&events, 0);
    assert!(blocks.is_empty());
    assert_eq!(next, 1);
}

#[test]
fn html_events_details_show_summary_in_bold() {
    let events = vec![
        MdEvent::Html("<details>\n".to_string()),
        MdEvent::Html("<summary>More</summary>\n".to_string()),
        MdEvent::Text("body".to_string()),
    ];
    let (blocks, next) = render_html_block(&events, 0);
    assert_eq!(next, 2);
    match only(blocks) {
        HtmlBlock::Text(c) => {
            assert_eq!(c.text, "More");
            assert_eq!(spans(&c), vec![(0, 4, style(true, false, false, false))]);
        }
        other => panic!("unexpected {other:?}"),
    }
}

#[test]
fn html_events_render_joined_fragment() {
    let events = vec![MdEvent::Html("<p>one</p>".to_string()), MdEvent::Html("<hr>".to_string())];
    let (blocks, next) = render_html_block(&events, 0);
    assert_eq!(next, 2);
    assert_eq!(blocks.len(), 1);
    match &blocks[0] {
        HtmlBlock::Group(bs) => {
            assert_eq!(bs.len(), 2);
            assert!(matches!(bs[1], HtmlBlock::Rule));
        }
        other => panic!("unexpected {other:?}"),
    }
}

fn element(depth: usize, name: &str, href: Option<&str>) -> august::html_dom::HtmlItem {
    august::html_dom::HtmlItem {
        depth,
        kind: august::html_dom::HtmlKind::Element(august::html_dom::HtmlElement {
            name: name.to_string(),
            href: href.map(|h| h.to_string()),
            src: None,
            alt: None,
            start: None,
        }),
    }
}

fn text_node(depth: usize, t: &str) -> august::html_dom::HtmlItem {
    august::html_dom::HtmlItem { depth, kind: august::html_dom::HtmlKind::Text(t.to_string()) }
}

#[test]
fn text_and_inline_of_a_hand_built_tree() {
    // <p>x<b>y</b><a href="u">z</a></p><p>w</p>
    let doc = vec![
        element(1, "p", None),
        text_node(2, "x"),
        element(2, "b", None),
        text_node(3, "y"),
        element(2, "a", Some("u")),
        text_node(3, "z"),
        element(1, "p", None),
        text_node(2, "w"),
    ];
    assert_eq!(august::html_dom::collect_html_text_inner(&doc, 0), "xyz");
    let c = august::html_dom::collect_html_inline(&doc, 0, false, false, false);
    assert_eq!(c.text, "xyz");
    assert_eq!(spans(&c), vec![(1, 2, style(true, false, false, false)), (2, 3, style(false, false, true, false))]);
    assert_eq!(c.link_ranges, vec![(2, 3)]);
    assert_eq!(c.link_urls, vec!["u".to_string()]);
    assert_eq!(august::html_dom::collect_html_text_inner(&doc, 6), "w");
}
