use markdown_viewer::{heading_to_anchor, inlines_to_text, Block, Inline, MarkdownParser};

#[test]
fn anchor_keeps_each_whitespace_as_a_dash() {
    assert_eq!(heading_to_anchor("A  B"), "a--b");
    assert_eq!(heading_to_anchor("a\tb"), "a-b");
}

#[test]
fn anchor_trims_dashes_at_both_ends() {
    assert_eq!(heading_to_anchor("--x--"), "x");
    assert_eq!(heading_to_anchor(" - Intro - "), "intro");
    assert_eq!(heading_to_anchor("!!!"), "");
    assert_eq!(heading_to_anchor(""), "");
}

#[test]
fn anchor_keeps_underscores_dashes_and_unicode_letters() {
    assert_eq!(heading_to_anchor("snake_case-name"), "snake_case-name");
    assert_eq!(heading_to_anchor("Über Größe 2"), "über-größe-2");
    // Lowercasing may yield more than one character.
    assert_eq!(heading_to_anchor("İ"), "i\u{307}");
}

#[test]
fn anchor_shape_holds_on_samples() {
    for text in ["  Hello, World!  ", "- a -", "Tabs\tand\nlines", "C++ & Rust", "__x__"] {
        let a = heading_to_anchor(text);
        assert!(!a.starts_with('-') && !a.ends_with('-'), "{:?}", a);
        assert!(a.chars().all(|c| c == '-' || !c.is_whitespace()), "{:?}", a);
    }
}

#[test]
fn text_of_concatenation_is_concatenation_of_texts() {
    let a = vec![Inline::Text("one ".to_string()), Inline::Code("two".to_string())];
    let b = vec![Inline::SoftBreak, Inline::Italic(vec![Inline::Text("three".to_string())])];
    let mut both = Vec::new();
    both.extend(a.iter().map(clone_inline));
    both.extend(b.iter().map(clone_inline));
    assert_eq!(inlines_to_text(&both), inlines_to_text(&a) + &inlines_to_text(&b));
    assert_eq!(inlines_to_text(&both), "one two three");
}

#[test]
fn formatting_keeps_text() {
    let inner = vec![Inline::Text("x".to_string()), Inline::HardBreak];
    let expected = inlines_to_text(&inner);
    for wrapped in [
        Inline::Bold(inner.iter().map(clone_inline).collect()),
        Inline::Italic(inner.iter().map(clone_inline).collect()),
        Inline::Strikethrough(inner.iter().map(clone_inline).collect()),
        Inline::Link { text: inner.iter().map(clone_inline).collect(), url: "u".into(), title: None },
    ] {
        assert_eq!(inlines_to_text(&[wrapped]), expected);
    }
}

#[test]
fn image_text_is_its_alt() {
    let img = Inline::Image { alt: "a cat".into(), url: "c.png".into(), title: Some("t".into()) };
    assert_eq!(inlines_to_text(&[img]), "a cat");
}

fn clone_inline(i: &Inline) -> Inline {
    match i {
        Inline::Text(s) => Inline::Text(s.clone()),
        Inline::Bold(v) => Inline::Bold(v.iter().map(clone_inline).collect()),
        Inline::Italic(v) => Inline::Italic(v.iter().map(clone_inline).collect()),
        Inline::Strikethrough(v) => Inline::Strikethrough(v.iter().map(clone_inline).collect()),
        Inline::Code(s) => Inline::Code(s.clone()),
        Inline::Link { text, url, title } => Inline::Link {
            text: text.iter().map(clone_inline).collect(),
            url: url.clone(),
            title: title.clone(),
        },
        Inline::Image { alt, url, title } => {
            Inline::Image { alt: alt.clone(), url: url.clone(), title: title.clone() }
        }
        Inline::SoftBreak => Inline::SoftBreak,
        Inline::HardBreak => Inline::HardBreak,
    }
}

fn check_blocks(blocks: &[Block]) {
    for b in blocks {
        match b {
            Block::Heading { level, content, anchor } => {
                assert!((1..=6).contains(level));
                assert_eq!(anchor, &heading_to_anchor(&inlines_to_text(content)));
            }
            Block::Paragraph(c) => assert!(!c.is_empty()),
            Block::BlockQuote(inner) => check_blocks(inner),
            Block::BulletList(items) | Block::OrderedList { items, .. } => {
                for item in items {
                    check_blocks(&item.content);
                }
            }
            _ => {}
        }
    }
}

#[test]
fn parsed_headings_carry_the_slug_of_their_text() {
    let md = "# **Bold** Title\n\n> ### Quoted `code` heading\n\n- item\n\n  ## Nested *one*\n\n###### Six";
    let blocks = MarkdownParser::parse(md);
    assert!(blocks.len() >= 4);
    check_blocks(&blocks);
    match &blocks[0] {
        Block::Heading { anchor, .. } => assert_eq!(anchor, "bold-title"),
        other => panic!("Expected heading, got {:?}", other),
    }
}

#[test]
fn ascii_anchor_is_its_own_anchor() {
    assert_eq!(heading_to_anchor("a  b"), "a--b");
    for text in ["Hello World", "  My Section!  ", "API v2.0 -- Notes", "snake_case & CamelCase", "---", "a  b"] {
        let a = heading_to_anchor(text);
        assert!(a.chars().all(|c| c.is_ascii_lowercase() || c.is_ascii_digit() || c == '-' || c == '_'), "{:?}", a);
        assert!(!a.starts_with('-') && !a.ends_with('-'), "{:?}", a);
        assert!(a.is_ascii() && a.len() <= text.len());
        assert_eq!(heading_to_anchor(&a), a);
    }
}
