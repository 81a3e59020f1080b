use markdown_viewer::events::{CodeBlockStyle, EndTag, HeadingDepth, MdEvent, StartTag, TableAlign};
use markdown_viewer::parser::parse_events;
use markdown_viewer::{inlines_to_text, Block, ColumnAlign, Inline};

fn text(s: &str) -> MdEvent {
    MdEvent::Text(s.to_string())
}

#[test]
fn events_heading_gets_level_and_anchor() {
    let ev = vec![
        MdEvent::Start(StartTag::Heading(HeadingDepth::H3)),
        text("Hi "),
        MdEvent::Start(StartTag::Emphasis),
        text("There"),
        MdEvent::End(EndTag::Emphasis),
        MdEvent::End(EndTag::Heading),
    ];
    let blocks = parse_events(&ev);
    assert_eq!(blocks.len(), 1);
    match &blocks[0] {
        Block::Heading { level, content, anchor } => {
            assert_eq!(*level, 3);
            assert_eq!(inlines_to_text(content), "Hi There");
            assert_eq!(anchor, "hi-there");
            assert!(matches!(&content[1], Inline::Italic(_)));
        }
        other => panic!("Expected heading, got {:?}", other),
    }
}

#[test]
fn events_empty_paragraph_is_dropped() {
    let ev = vec![
        MdEvent::Start(StartTag::Paragraph),
        MdEvent::End(EndTag::Paragraph),
        MdEvent::Rule,
    ];
    let blocks = parse_events(&ev);
    assert_eq!(blocks.len(), 1);
    assert!(matches!(blocks[0], Block::HorizontalRule));
}

#[test]
fn events_stray_end_is_passed_over() {
    let ev = vec![MdEvent::Rule, MdEvent::End(EndTag::Other), MdEvent::Rule];
    let blocks = parse_events(&ev);
    assert_eq!(blocks.len(), 2);
}

#[test]
fn events_html_block_is_skipped_and_parsing_goes_on() {
    let ev = vec![
        MdEvent::Start(StartTag::Other),
        MdEvent::Other,
        MdEvent::End(EndTag::Other),
        MdEvent::Rule,
    ];
    let blocks = parse_events(&ev);
    assert_eq!(blocks.len(), 1);
    assert!(matches!(blocks[0], Block::HorizontalRule));
}

#[test]
fn events_nested_quote_closes_only_itself() {
    let ev = vec![
        MdEvent::Start(StartTag::BlockQuote),
        MdEvent::Start(StartTag::BlockQuote),
        MdEvent::Start(StartTag::Paragraph),
        text("a"),
        MdEvent::End(EndTag::Paragraph),
        MdEvent::End(EndTag::BlockQuote),
        MdEvent::Rule,
        MdEvent::End(EndTag::BlockQuote),
        MdEvent::Start(StartTag::Paragraph),
        text("b"),
        MdEvent::End(EndTag::Paragraph),
    ];
    let blocks = parse_events(&ev);
    assert_eq!(blocks.len(), 2);
    match &blocks[0] {
        Block::BlockQuote(outer) => {
            assert_eq!(outer.len(), 2);
            assert!(matches!(&outer[0], Block::BlockQuote(inner) if inner.len() == 1));
            assert!(matches!(outer[1], Block::HorizontalRule));
        }
        other => panic!("Expected block quote, got {:?}", other),
    }
    assert!(matches!(&blocks[1], Block::Paragraph(c) if inlines_to_text(c) == "b"));
}

#[test]
fn events_code_block_collects_text_and_language() {
    let ev = vec![
        MdEvent::Start(StartTag::CodeBlock(CodeBlockStyle::Fenced("py".to_string()))),
        text("a = 1\n"),
        MdEvent::SoftBreak,
        text("b = 2\n"),
        MdEvent::End(EndTag::CodeBlock),
        MdEvent::Start(StartTag::CodeBlock(CodeBlockStyle::Fenced(String::new()))),
        text("x"),
        MdEvent::End(EndTag::CodeBlock),
    ];
    let blocks = parse_events(&ev);
    match &blocks[0] {
        Block::CodeBlock { language, code } => {
            assert_eq!(language.as_deref(), Some("py"));
            assert_eq!(code, "a = 1\nb = 2\n");
        }
        other => panic!("Expected code block, got {:?}", other),
    }
    match &blocks[1] {
        Block::CodeBlock { language, code } => {
            assert!(language.is_none());
            assert_eq!(code, "x");
        }
        other => panic!("Expected code block, got {:?}", other),
    }
}

#[test]
fn events_unclosed_paragraph_runs_to_the_end() {
    let ev = vec![MdEvent::Start(StartTag::Paragraph), text("dangling")];
    let blocks = parse_events(&ev);
    assert_eq!(blocks.len(), 1);
    match &blocks[0] {
        Block::Paragraph(c) => assert_eq!(inlines_to_text(c), "dangling"),
        other => panic!("Expected paragraph, got {:?}", other),
    }
}

#[test]
fn events_table_with_alignments() {
    let ev = vec![
        MdEvent::Start(StartTag::Table(vec![TableAlign::Right, TableAlign::Unaligned])),
        MdEvent::Start(StartTag::TableHead),
        MdEvent::Start(StartTag::TableCell),
        text("H"),
        MdEvent::End(EndTag::TableCell),
        MdEvent::End(EndTag::TableHead),
        MdEvent::Start(StartTag::TableRow),
        MdEvent::Start(StartTag::TableCell),
        text("1"),
        MdEvent::End(EndTag::TableCell),
        MdEvent::Start(StartTag::TableCell),
        text("2"),
        MdEvent::End(EndTag::TableCell),
        MdEvent::End(EndTag::TableRow),
        MdEvent::End(EndTag::Table),
    ];
    let blocks = parse_events(&ev);
    match &blocks[0] {
        Block::Table { alignments, headers, rows } => {
            assert_eq!(alignments, &vec![ColumnAlign::Right, ColumnAlign::Unaligned]);
            assert_eq!(headers.len(), 1);
            assert_eq!(inlines_to_text(&headers[0]), "H");
            assert_eq!(rows.len(), 1);
            assert_eq!(inlines_to_text(&rows[0][1]), "2");
        }
        other => panic!("Expected table, got {:?}", other),
    }
}

#[test]
fn events_ordered_list_keeps_start_number() {
    let ev = vec![
        MdEvent::Start(StartTag::List(Some(7))),
        MdEvent::Start(StartTag::Item),
        text("seven"),
        MdEvent::End(EndTag::Item),
        MdEvent::End(EndTag::List),
    ];
    let blocks = parse_events(&ev);
    match &blocks[0] {
        Block::OrderedList { start, items } => {
            assert_eq!(*start, 7);
            assert_eq!(items.len(), 1);
            match &items[0].content[0] {
                Block::Paragraph(c) => assert_eq!(inlines_to_text(c), "seven"),
                other => panic!("Expected paragraph, got {:?}", other),
            }
        }
        other => panic!("Expected ordered list, got {:?}", other),
    }
}
