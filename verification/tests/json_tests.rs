use markdown_viewer::json_types::{Document, JsonAlign, JsonBlock, JsonInline};
use markdown_viewer::{Block, ColumnAlign, Inline, MarkdownParser};

#[test]
fn document_has_version_one_and_same_blocks() {
    let blocks = MarkdownParser::parse("# Title\n\nSome **bold** text.\n\n---");
    let n = blocks.len();
    let doc = Document::from_blocks(blocks);
    assert_eq!(doc.version, 1);
    assert_eq!(doc.blocks.len(), n);
    match &doc.blocks[0] {
        JsonBlock::Heading { level, anchor, inlines } => {
            assert_eq!(*level, 1);
            assert_eq!(anchor, "title");
            assert!(matches!(&inlines[0], JsonInline::Text { content } if content == "Title"));
        }
        other => panic!("Expected heading, got {:?}", other),
    }
    match &doc.blocks[1] {
        JsonBlock::Paragraph { inlines } => {
            assert_eq!(inlines.len(), 3);
            match &inlines[1] {
                JsonInline::Bold { children } => {
                    assert!(matches!(&children[0], JsonInline::Text { content } if content == "bold"));
                }
                other => panic!("Expected bold, got {:?}", other),
            }
        }
        other => panic!("Expected paragraph, got {:?}", other),
    }
    assert!(matches!(doc.blocks[2], JsonBlock::HorizontalRule));
}

#[test]
fn json_link_keeps_url_title_and_children() {
    let inline = Inline::Link {
        text: vec![Inline::Code("f".to_string())],
        url: "https://x".to_string(),
        title: Some("T".to_string()),
    };
    match JsonInline::from_inline(&inline) {
        JsonInline::Link { url, title, children } => {
            assert_eq!(url, "https://x");
            assert_eq!(title.as_deref(), Some("T"));
            assert!(matches!(&children[0], JsonInline::Code { content } if content == "f"));
        }
        other => panic!("Expected link, got {:?}", other),
    }
}

#[test]
fn json_alignments_map_one_for_one() {
    assert_eq!(JsonAlign::from_align(ColumnAlign::Unaligned), JsonAlign::Unaligned);
    assert_eq!(JsonAlign::from_align(ColumnAlign::Left), JsonAlign::Left);
    assert_eq!(JsonAlign::from_align(ColumnAlign::Center), JsonAlign::Center);
    assert_eq!(JsonAlign::from_align(ColumnAlign::Right), JsonAlign::Right);
}

#[test]
fn json_table_keeps_shape() {
    let block = Block::Table {
        alignments: vec![ColumnAlign::Left, ColumnAlign::Right],
        headers: vec![vec![Inline::Text("A".to_string())], vec![]],
        rows: vec![vec![vec![Inline::SoftBreak], vec![Inline::HardBreak]]],
    };
    match JsonBlock::from_block(&block) {
        JsonBlock::Table { alignments, headers, rows } => {
            assert_eq!(alignments, vec![JsonAlign::Left, JsonAlign::Right]);
            assert_eq!(headers.len(), 2);
            assert!(headers[1].is_empty());
            assert!(matches!(rows[0][0][0], JsonInline::SoftBreak));
            assert!(matches!(rows[0][1][0], JsonInline::HardBreak));
        }
        other => panic!("Expected table, got {:?}", other),
    }
}
