use markdown_viewer::{heading_to_anchor, inlines_to_text, Block, ColumnAlign, Inline, MarkdownParser};

fn parse_first_block(md: &str) -> Block {
    let blocks = MarkdownParser::parse(md);
    assert!(!blocks.is_empty(), "Expected at least one block from: {:?}", md);
    blocks.into_iter().next().unwrap()
}

#[test]
fn parser_test_parse_h1() {
    let block = parse_first_block("# Hello World");
    match block {
        Block::Heading { level, content, anchor } => {
            assert_eq!(level, 1);
            assert_eq!(inlines_to_text(&content), "Hello World");
            assert_eq!(anchor, "hello-world");
        }
        _ => panic!("Expected heading, got {:?}", block),
    }
}

#[test]
fn test_parse_h2_through_h6() {
    for n in 2..=6u8 {
        let md = format!("{} Heading {}", "#".repeat(n as usize), n);
        let block = parse_first_block(&md);
        match block {
            Block::Heading { level, .. } => assert_eq!(level, n),
            _ => panic!("Expected heading for H{}", n),
        }
    }
}

#[test]
fn test_heading_anchor_slug() {
    assert_eq!(heading_to_anchor("Hello World"), "hello-world");
    assert_eq!(heading_to_anchor("My Section!"), "my-section");
    assert_eq!(heading_to_anchor("  spaces  "), "spaces");
}

#[test]
fn parser_test_parse_paragraph() {
    let block = parse_first_block("Hello, world!");
    match block {
        Block::Paragraph(content) => {
            assert_eq!(inlines_to_text(&content), "Hello, world!");
        }
        _ => panic!("Expected paragraph"),
    }
}

#[test]
fn test_parse_bold_text() {
    let block = parse_first_block("**bold text**");
    match block {
        Block::Paragraph(inlines) => {
            assert!(matches!(&inlines[0], Inline::Bold(_)));
            if let Inline::Bold(inner) = &inlines[0] {
                assert_eq!(inlines_to_text(inner), "bold text");
            }
        }
        _ => panic!("Expected paragraph"),
    }
}

#[test]
fn test_parse_italic_text() {
    let block = parse_first_block("*italic text*");
    match block {
        Block::Paragraph(inlines) => {
            assert!(matches!(&inlines[0], Inline::Italic(_)));
        }
        _ => panic!("Expected paragraph"),
    }
}

#[test]
fn test_parse_strikethrough() {
    let block = parse_first_block("~~struck~~");
    match block {
        Block::Paragraph(inlines) => {
            assert!(matches!(&inlines[0], Inline::Strikethrough(_)));
            if let Inline::Strikethrough(inner) = &inlines[0] {
                assert_eq!(inlines_to_text(inner), "struck");
            }
        }
        _ => panic!("Expected paragraph with strikethrough"),
    }
}

#[test]
fn test_parse_inline_code() {
    let block = parse_first_block("Use `foo()` function");
    match block {
        Block::Paragraph(inlines) => {
            let has_code = inlines.iter().any(|i| matches!(i, Inline::Code(c) if c == "foo()"));
            assert!(has_code);
        }
        _ => panic!("Expected paragraph"),
    }
}

#[test]
fn test_parse_code_block_with_language() {
    let md = "```rust\nfn main() {}\n```";
    let block = parse_first_block(md);
    match block {
        Block::CodeBlock { language, code } => {
            assert_eq!(language, Some("rust".to_string()));
            assert!(code.contains("fn main()"));
        }
        _ => panic!("Expected code block"),
    }
}

#[test]
fn test_parse_code_block_no_language() {
    let md = "```\nsome code\n```";
    let block = parse_first_block(md);
    match block {
        Block::CodeBlock { language, .. } => {
            assert_eq!(language, None);
        }
        _ => panic!("Expected code block"),
    }
}

#[test]
fn test_parse_horizontal_rule() {
    let blocks = MarkdownParser::parse("---");
    let has_hr = blocks.iter().any(|b| matches!(b, Block::HorizontalRule));
    assert!(has_hr);
}

#[test]
fn test_parse_bullet_list() {
    let md = "- item one\n- item two\n- item three";
    let block = parse_first_block(md);
    match block {
        Block::BulletList(items) => assert_eq!(items.len(), 3),
        _ => panic!("Expected bullet list"),
    }
}

#[test]
fn test_parse_ordered_list() {
    let md = "1. first\n2. second\n3. third";
    let block = parse_first_block(md);
    match block {
        Block::OrderedList { start, items } => {
            assert_eq!(start, 1);
            assert_eq!(items.len(), 3);
        }
        _ => panic!("Expected ordered list"),
    }
}

#[test]
fn test_parse_blockquote() {
    let md = "> This is a quote";
    let block = parse_first_block(md);
    assert!(matches!(block, Block::BlockQuote(_)));
}

#[test]
fn test_parse_link() {
    let md = "[click here](https://example.com)";
    let block = parse_first_block(md);
    match block {
        Block::Paragraph(inlines) => {
            let has_link = inlines
                .iter()
                .any(|i| matches!(i, Inline::Link { url, .. } if url == "https://example.com"));
            assert!(has_link);
        }
        _ => panic!("Expected paragraph"),
    }
}

#[test]
fn test_parse_anchor_link() {
    let md = "[Go to section](#my-section)";
    let block = parse_first_block(md);
    match block {
        Block::Paragraph(inlines) => {
            let has_anchor = inlines
                .iter()
                .any(|i| matches!(i, Inline::Link { url, .. } if url == "#my-section"));
            assert!(has_anchor);
        }
        _ => panic!("Expected paragraph"),
    }
}

#[test]
fn test_parse_multiple_blocks() {
    let md = "# Title\n\nParagraph text.\n\n---\n\n- item";
    let blocks = MarkdownParser::parse(md);
    assert!(blocks.len() >= 3);
}

#[test]
fn test_inlines_to_text_strips_formatting() {
    let inlines = vec![
        Inline::Text("Hello ".to_string()),
        Inline::Bold(vec![Inline::Text("world".to_string())]),
        Inline::Text("!".to_string()),
    ];
    assert_eq!(inlines_to_text(&inlines), "Hello world!");
}

#[test]
fn test_tight_list_items_have_content() {
    let md = "- alpha\n- beta\n- gamma";
    let block = parse_first_block(md);
    match block {
        Block::BulletList(items) => {
            assert_eq!(items.len(), 3);
            for item in &items {
                let text: String = item
                    .content
                    .iter()
                    .map(|b| match b {
                        Block::Paragraph(inlines) => inlines_to_text(inlines),
                        _ => String::new(),
                    })
                    .collect();
                assert!(!text.is_empty(), "list item should have text content");
            }
        }
        _ => panic!("Expected bullet list"),
    }
}

#[test]
fn test_ordered_list_items_have_content() {
    let md = "1. one\n2. two\n3. three";
    let block = parse_first_block(md);
    match block {
        Block::OrderedList { items, .. } => {
            for item in &items {
                let text: String = item
                    .content
                    .iter()
                    .map(|b| match b {
                        Block::Paragraph(inlines) => inlines_to_text(inlines),
                        _ => String::new(),
                    })
                    .collect();
                assert!(!text.is_empty());
            }
        }
        _ => panic!("Expected ordered list"),
    }
}

#[test]
fn test_empty_input() {
    let blocks = MarkdownParser::parse("");
    assert!(blocks.is_empty());
}

#[test]
fn test_nested_emphasis() {
    let md = "***bold italic***";
    let block = parse_first_block(md);
    match block {
        Block::Paragraph(inlines) => {
            let text = inlines_to_text(&inlines);
            assert_eq!(text, "bold italic");
        }
        _ => panic!("Expected paragraph"),
    }
}

#[test]
fn test_inlines_to_text_handles_strikethrough() {
    let inlines = vec![Inline::Strikethrough(vec![Inline::Text("del".to_string())])];
    assert_eq!(inlines_to_text(&inlines), "del");
}

#[test]
fn parser_test_parse_table() {
    let md = "| Name | Age |\n|---|---|\n| Alice | 30 |\n| Bob | 25 |";
    let blocks = MarkdownParser::parse(md);
    let table = blocks.into_iter().find(|b| matches!(b, Block::Table { .. }));
    assert!(table.is_some(), "Expected a Table block");
    match table.unwrap() {
        Block::Table { headers, rows, .. } => {
            assert_eq!(headers.len(), 2, "Expected 2 header columns");
            assert_eq!(inlines_to_text(&headers[0]), "Name");
            assert_eq!(inlines_to_text(&headers[1]), "Age");
            assert_eq!(rows.len(), 2, "Expected 2 data rows");
            assert_eq!(inlines_to_text(&rows[0][0]), "Alice");
            assert_eq!(inlines_to_text(&rows[1][0]), "Bob");
        }
        _ => panic!("Expected Table"),
    }
}

#[test]
fn test_parse_table_with_alignment() {
    let md = "| Left | Center | Right |\n|:---|:---:|---:|\n| a | b | c |";
    let blocks = MarkdownParser::parse(md);
    let table = blocks.into_iter().find(|b| matches!(b, Block::Table { .. }));
    assert!(table.is_some());
    match table.unwrap() {
        Block::Table { alignments, .. } => {
            assert_eq!(alignments[0], ColumnAlign::Left);
            assert_eq!(alignments[1], ColumnAlign::Center);
            assert_eq!(alignments[2], ColumnAlign::Right);
        }
        _ => panic!("Expected Table"),
    }
}

#[test]
fn test_markdown_parses_to_blocks_for_rendering() {
    let md = "# Title\n\nSome paragraph text.\n\n```rust\nlet x = 1;\n```";
    let blocks = MarkdownParser::parse(md);
    assert!(blocks.len() >= 3);
}

#[test]
fn nested_quote_keeps_nesting_and_what_follows() {
    let blocks = MarkdownParser::parse("> > a\n\nb");
    assert_eq!(blocks.len(), 2);
    match &blocks[0] {
        Block::BlockQuote(outer) => match &outer[..] {
            [Block::BlockQuote(inner)] => match &inner[..] {
                [Block::Paragraph(p)] => assert_eq!(inlines_to_text(p), "a"),
                other => panic!("Expected one paragraph, got {:?}", other),
            },
            other => panic!("Expected one nested quote, got {:?}", other),
        },
        other => panic!("Expected block quote, got {:?}", other),
    }
    match &blocks[1] {
        Block::Paragraph(q) => assert_eq!(inlines_to_text(q), "b"),
        other => panic!("Expected paragraph, got {:?}", other),
    }
}

#[test]
fn html_block_is_skipped_and_rule_kept() {
    let blocks = MarkdownParser::parse("<div>x</div>\n\n---\n");
    assert_eq!(blocks.len(), 1);
    assert!(matches!(blocks[0], Block::HorizontalRule));
}

#[test]
fn containers_hold_code_rules_and_tables() {
    let md = "> ```rs\n> let x = 1;\n> ```\n>\n> ---\n>\n> | a |\n> |---|\n> | 1 |\n\n- item\n\n      indented code\n";
    let blocks = MarkdownParser::parse(md);
    assert_eq!(blocks.len(), 2, "{:?}", blocks);
    match &blocks[0] {
        Block::BlockQuote(inner) => {
            assert!(matches!(&inner[0], Block::CodeBlock { language: Some(l), code } if l == "rs" && code == "let x = 1;\n"));
            assert!(matches!(inner[1], Block::HorizontalRule));
            assert!(matches!(&inner[2], Block::Table { rows, .. } if rows.len() == 1));
        }
        other => panic!("Expected block quote, got {:?}", other),
    }
    match &blocks[1] {
        Block::BulletList(items) => {
            let content = &items[0].content;
            assert!(matches!(&content[0], Block::Paragraph(p) if inlines_to_text(p) == "item"));
            assert!(matches!(&content[1], Block::CodeBlock { language: None, code } if code == "indented code\n"));
        }
        other => panic!("Expected bullet list, got {:?}", other),
    }
}
