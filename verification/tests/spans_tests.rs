use markdown_viewer::render::InlineFmt;
use markdown_viewer::spans::{layout_spans, SpanColor, SpanStyle};
use markdown_viewer::{Inline, MarkdownParser, Block};

fn text(s: &str) -> Inline {
    Inline::Text(s.to_string())
}

#[test]
fn spans_follow_nested_formatting() {
    let inlines = vec![
        text("plain "),
        Inline::Bold(vec![text("bold "), Inline::Italic(vec![text("both")])]),
        Inline::SoftBreak,
        Inline::Strikethrough(vec![Inline::Code("x()".to_string())]),
    ];
    let (spans, links) = layout_spans(&inlines, InlineFmt::default());
    assert!(links.is_empty());
    let texts: Vec<&str> = spans.iter().map(|s| s.text.as_str()).collect();
    assert_eq!(texts, vec!["plain ", "bold ", "both", " ", "x()"]);
    assert_eq!(spans[0].color, SpanColor::Base);
    assert!(!spans[0].fmt.bold);
    assert_eq!(spans[1].color, SpanColor::Strong);
    assert!(spans[1].fmt.bold && !spans[1].fmt.italic);
    assert_eq!(spans[2].color, SpanColor::Strong);
    assert!(spans[2].fmt.bold && spans[2].fmt.italic);
    assert_eq!(spans[3].fmt, InlineFmt::default());
    assert_eq!(spans[4].style, SpanStyle::Code);
    assert!(spans[4].fmt.strikethrough);
}

#[test]
fn link_spans_are_recorded_with_their_url() {
    let inlines = vec![
        text("see "),
        Inline::Link {
            text: vec![text("the "), Inline::Bold(vec![text("docs")])],
            url: "#docs".to_string(),
            title: None,
        },
        Inline::HardBreak,
    ];
    let (spans, links) = layout_spans(&inlines, InlineFmt::default());
    assert_eq!(spans.len(), 4);
    assert_eq!(links.len(), 1);
    assert_eq!(links[0].first, 1);
    assert_eq!(links[0].end, 3);
    assert_eq!(links[0].url, "#docs");
    assert_eq!(spans[1].color, SpanColor::Link);
    assert!(spans[1].fmt.is_link);
    // Bold inside a link takes the strong colour but stays a link.
    assert_eq!(spans[2].color, SpanColor::Strong);
    assert!(spans[2].fmt.is_link && spans[2].fmt.bold);
    assert_eq!(spans[3].text, "\n");
    assert!(!spans[3].fmt.is_link);
}

#[test]
fn empty_link_and_nested_links_are_not_clickable() {
    let inlines = vec![
        Inline::Link { text: vec![], url: "https://a".to_string(), title: None },
        Inline::Link {
            text: vec![
                text("outer"),
                Inline::Link { text: vec![text("inner")], url: "#in".to_string(), title: None },
            ],
            url: "#out".to_string(),
            title: None,
        },
        Inline::Link { text: vec![text("")], url: "#blank".to_string(), title: None },
    ];
    let (spans, links) = layout_spans(&inlines, InlineFmt::default());
    assert_eq!(spans.len(), 3);
    assert_eq!(links.len(), 1);
    assert_eq!((links[0].first, links[0].end), (0, 2));
    assert_eq!(links[0].url, "#out");
}

#[test]
fn image_shows_alt_text_in_brackets() {
    let inlines = vec![Inline::Image {
        alt: "logo".to_string(),
        url: "logo.png".to_string(),
        title: None,
    }];
    let (spans, _) = layout_spans(&inlines, InlineFmt::default());
    assert_eq!(spans.len(), 1);
    assert_eq!(spans[0].text, "[logo]");
    assert_eq!(spans[0].style, SpanStyle::Image);
}

#[test]
fn heading_format_is_kept_by_every_text_span() {
    let heading = InlineFmt { bold: true, ..InlineFmt::default() };
    let inlines = vec![text("Title "), Inline::Italic(vec![text("part")])];
    let (spans, _) = layout_spans(&inlines, heading);
    assert!(spans.iter().all(|s| s.fmt.bold));
    assert!(spans[1].fmt.italic);
}

#[test]
fn parsed_paragraph_lays_out_its_link() {
    let blocks = MarkdownParser::parse("Go [to section](#my-section) now");
    let inlines = match &blocks[0] {
        Block::Paragraph(inlines) => inlines,
        other => panic!("Expected paragraph, got {:?}", other),
    };
    let (spans, links) = layout_spans(inlines, InlineFmt::default());
    let all: String = spans.iter().map(|s| s.text.as_str()).collect();
    assert_eq!(all, "Go to section now");
    assert_eq!(links.len(), 1);
    assert_eq!(links[0].url, "#my-section");
    let linked: String = spans[links[0].first..links[0].end].iter().map(|s| s.text.as_str()).collect();
    assert_eq!(linked, "to section");
}

#[test]
fn span_texts_join_to_the_shown_text() {
    let inlines = vec![
        text("a "),
        Inline::Image { alt: "pic".to_string(), url: "p.png".to_string(), title: None },
        Inline::Bold(vec![Inline::Code("c".to_string()), Inline::HardBreak]),
        Inline::Link { text: vec![text("l")], url: "#l".to_string(), title: None },
    ];
    let (spans, _) = layout_spans(&inlines, InlineFmt::default());
    let all: String = spans.iter().map(|s| s.text.as_str()).collect();
    assert_eq!(all, "a [pic]c\nl");
}

#[test]
fn spans_without_images_show_plain_text() {
    let inlines = vec![
        text("x "),
        Inline::Strikethrough(vec![text("y"), Inline::SoftBreak]),
        Inline::Link { text: vec![Inline::Code("z".to_string())], url: "u".to_string(), title: None },
    ];
    let (spans, _) = layout_spans(&inlines, InlineFmt::default());
    let all: String = spans.iter().map(|s| s.text.as_str()).collect();
    assert_eq!(all, markdown_viewer::inlines_to_text(&inlines));
}
