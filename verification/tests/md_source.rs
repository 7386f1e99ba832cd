use august::md_blocks::MdBlock;
use august::md_source::render_markdown;

#[test]
fn markdown_text_renders_heading_paragraph_code_rule() {
    let blocks = render_markdown("# Title\n\nHi **you** and ~~not~~\n\n```\nlet x;\n```\n\n---\n");
    assert_eq!(blocks.len(), 4);
    match &blocks[0] {
        MdBlock::Heading { level, content } => {
            assert_eq!(*level, 1);
            assert_eq!(content.text, "Title");
        }
        other => panic!("unexpected {other:?}"),
    }
    match &blocks[1] {
        MdBlock::Text(c) => {
            assert_eq!(c.text, "Hi you and not");
            assert!(c.highlights.iter().any(|s| s.start == 3 && s.end == 6 && s.style.bold));
            assert!(c.highlights.iter().any(|s| s.start == 11 && s.end == 14 && s.style.strikethrough));
        }
        other => panic!("unexpected {other:?}"),
    }
    match &blocks[2] {
        MdBlock::Code(code) => assert_eq!(code, "let x;"),
        other => panic!("unexpected {other:?}"),
    }
    assert!(matches!(blocks[3], MdBlock::Rule));
}

#[test]
fn markdown_text_renders_ordered_list_and_table() {
    let blocks = render_markdown("3. a\n4. b\n\n| h1 | h2 |\n|---|---|\n| x | y |\n");
    assert_eq!(blocks.len(), 2);
    match &blocks[0] {
        MdBlock::List { ordered, items } => {
            assert!(*ordered);
            let numbers: Vec<u64> = items
                .iter()
                .map(|i| match i {
                    MdBlock::Item { number, .. } => *number,
                    other => panic!("unexpected {other:?}"),
                })
                .collect();
            assert_eq!(numbers, vec![3, 4]);
        }
        other => panic!("unexpected {other:?}"),
    }
    match &blocks[1] {
        MdBlock::Table { header, rows, columns } => {
            assert_eq!(*columns, 2);
            assert_eq!(header[0].text, "h1");
            assert_eq!(rows[0][1].text, "y");
        }
        other => panic!("unexpected {other:?}"),
    }
}

#[test]
fn markdown_text_renders_image_and_empty_document() {
    let blocks = render_markdown("![logo](https://x/y.png)");
    match &blocks[0] {
        MdBlock::Image { url, alt } => {
            assert_eq!(url, "https://x/y.png");
            assert_eq!(alt, "logo");
        }
        other => panic!("unexpected {other:?}"),
    }
    assert!(render_markdown("").is_empty());
}
