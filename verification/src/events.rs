use pulldown_cmark::{Alignment, CodeBlockKind, Event, HeadingLevel, Tag, TagEnd};
use vstd::prelude::*;

verus! {

/// Heading depth of a `Start(Heading)` event.
#[derive(Debug, Clone, Copy, PartialEq, Eq, Structural)]
pub enum HeadingDepth {
    H1,
    H2,
    H3,
    H4,
    H5,
    H6,
}

/// Alignment of one table column as the markdown source declares it.
#[derive(Debug, Clone, Copy, PartialEq, Eq, Structural)]
pub enum TableAlign {
    Unaligned,
    Left,
    Center,
    Right,
}

/// How a code block was written: indented, or fenced with an info string
/// (which may be empty).
#[derive(Debug)]
pub enum CodeBlockStyle {
    Indented,
    Fenced(String),
}

/// The element that a `Start` event opens.  Elements that this library does
/// not render (raw HTML blocks, footnotes, definition lists, super- and
/// subscripts, metadata) are all `Other`.
#[derive(Debug)]
pub enum StartTag {
    Paragraph,
    Heading(HeadingDepth),
    BlockQuote,
    CodeBlock(CodeBlockStyle),
    List(Option<u64>),
    Item,
    Table(Vec<TableAlign>),
    TableHead,
    TableRow,
    TableCell,
    Emphasis,
    Strong,
    Strikethrough,
    Link { dest_url: String, title: String },
    Image { dest_url: String, title: String },
    Other,
}

/// The element that an `End` event closes.  Only the kind of element is kept:
/// an end matches a start of the same kind.
#[derive(Debug, Clone, Copy, PartialEq, Eq, Structural)]
pub enum EndTag {
    Paragraph,
    Heading,
    BlockQuote,
    CodeBlock,
    List,
    Item,
    Table,
    TableHead,
    TableRow,
    TableCell,
    Emphasis,
    Strong,
    Strikethrough,
    Link,
    Image,
    Other,
}

/// One event of a markdown event stream, in document order.  Raw HTML, task
/// list markers, math and footnote references are all `Other`.
#[derive(Debug)]
pub enum MdEvent {
    Start(StartTag),
    End(EndTag),
    Text(String),
    Code(String),
    SoftBreak,
    HardBreak,
    Rule,
    Other,
}

/// Option bit that turns on `~~strikethrough~~`.
pub const ENABLE_STRIKETHROUGH: u32 = 8;

/// Option bit that turns on GitHub tables.
pub const ENABLE_TABLES: u32 = 2;

/// Option bit that turns on task list markers.
pub const ENABLE_TASKLISTS: u32 = 16;

/// The event stream that pulldown-cmark's `Parser::new_ext` yields for a
/// markdown text and a set of option bits, each event taken over into an
/// `MdEvent`.  What CommonMark makes of a text takes its whole specification
/// to say; this library only reads the stream.
pub uninterp spec fn pulldown_events(input: Seq<char>, options: u32) -> Seq<MdEvent>;

/// Runs `pulldown_cmark::Parser::new_ext` on `input` with the options whose
/// bits are set in `options` (unknown bits are dropped by
/// `Options::from_bits_truncate`) and collects every event it yields.
/// Trusted: the result is claimed to be `pulldown_events(input@, options)`,
/// that is, to depend on the text and the options alone.
#[verifier::external_body]
pub(crate) fn markdown_events(input: &str, options: u32) -> (events: Vec<MdEvent>)
    ensures
        events@ == pulldown_events(input@, options),
{
    let opts = pulldown_cmark::Options::from_bits_truncate(options);
    pulldown_cmark::Parser::new_ext(input, opts).map(event_from).collect()
}

#[verifier::external_type_specification]
#[verifier::external_body]
pub struct ExEvent<'a>(pulldown_cmark::Event<'a>);

#[verifier::external_type_specification]
#[verifier::external_body]
pub struct ExTag<'a>(pulldown_cmark::Tag<'a>);

#[verifier::external_type_specification]
#[verifier::external_body]
pub struct ExTagEnd(pulldown_cmark::TagEnd);

#[verifier::external_type_specification]
#[verifier::external_body]
pub struct ExHeadingLevel(pulldown_cmark::HeadingLevel);

#[verifier::external_type_specification]
#[verifier::external_body]
pub struct ExAlignment(pulldown_cmark::Alignment);

#[verifier::external_type_specification]
#[verifier::external_body]
pub struct ExCodeBlockKind<'a>(pulldown_cmark::CodeBlockKind<'a>);

/// Takes one `pulldown_cmark::Event` over into an `MdEvent`, variant by
/// variant, strings copied.  Nothing is claimed of the result.
#[verifier::external_body]
fn event_from(e: pulldown_cmark::Event<'_>) -> MdEvent {
    match e {
        Event::Start(t) => MdEvent::Start(start_tag_from(t)),
        Event::End(t) => MdEvent::End(end_tag_from(t)),
        Event::Text(s) => MdEvent::Text(s.into_string()),
        Event::Code(s) => MdEvent::Code(s.into_string()),
        Event::SoftBreak => MdEvent::SoftBreak,
        Event::HardBreak => MdEvent::HardBreak,
        Event::Rule => MdEvent::Rule,
        Event::InlineMath(_) | Event::DisplayMath(_) | Event::Html(_) | Event::InlineHtml(_) => MdEvent::Other,
        Event::FootnoteReference(_) | Event::TaskListMarker(_) => MdEvent::Other,
    }
}

/// Takes a block-level `pulldown_cmark::Tag` over into a `StartTag`, and hands
/// any other tag to `span_tag_from`.  Nothing is claimed of the result.
#[verifier::external_body]
fn start_tag_from(t: pulldown_cmark::Tag<'_>) -> StartTag {
    match t {
        Tag::Paragraph => StartTag::Paragraph,
        Tag::Heading { level, .. } => StartTag::Heading(heading_depth_from(level)),
        Tag::BlockQuote(_) => StartTag::BlockQuote,
        Tag::CodeBlock(k) => StartTag::CodeBlock(code_block_style_from(k)),
        Tag::List(start) => StartTag::List(start),
        Tag::Item => StartTag::Item,
        Tag::Table(a) => StartTag::Table(a.into_iter().map(table_align_from).collect()),
        Tag::TableHead => StartTag::TableHead,
        Tag::TableRow => StartTag::TableRow,
        Tag::TableCell => StartTag::TableCell,
        other => span_tag_from(other),
    }
}

/// Takes a span-level `pulldown_cmark::Tag` over into a `StartTag`; tags this
/// library does not render become `StartTag::Other`.  Nothing is claimed of
/// the result.
#[verifier::external_body]
fn span_tag_from(t: pulldown_cmark::Tag<'_>) -> StartTag {
    match t {
        Tag::Emphasis => StartTag::Emphasis,
        Tag::Strong => StartTag::Strong,
        Tag::Strikethrough => StartTag::Strikethrough,
        Tag::Link { dest_url, title, .. } =>
            StartTag::Link { dest_url: dest_url.into_string(), title: title.into_string() },
        Tag::Image { dest_url, title, .. } =>
            StartTag::Image { dest_url: dest_url.into_string(), title: title.into_string() },
        _ => StartTag::Other,
    }
}

/// Takes a `pulldown_cmark::TagEnd` over into an `EndTag` (its kind only).
/// Nothing is claimed of the result.
#[verifier::external_body]
fn end_tag_from(t: pulldown_cmark::TagEnd) -> EndTag {
    match t {
        TagEnd::Paragraph => EndTag::Paragraph, TagEnd::Heading(_) => EndTag::Heading,
        TagEnd::BlockQuote(_) => EndTag::BlockQuote, TagEnd::CodeBlock => EndTag::CodeBlock,
        TagEnd::List(_) => EndTag::List, TagEnd::Item => EndTag::Item, TagEnd::Table => EndTag::Table,
        TagEnd::TableHead => EndTag::TableHead, TagEnd::TableRow => EndTag::TableRow,
        TagEnd::TableCell => EndTag::TableCell, TagEnd::Emphasis => EndTag::Emphasis,
        TagEnd::Strong => EndTag::Strong, TagEnd::Strikethrough => EndTag::Strikethrough,
        TagEnd::Link => EndTag::Link, TagEnd::Image => EndTag::Image,
        _ => EndTag::Other,
    }
}

/// Takes a `pulldown_cmark::HeadingLevel` over.  Nothing is claimed of the result.
#[verifier::external_body]
fn heading_depth_from(l: pulldown_cmark::HeadingLevel) -> HeadingDepth {
    match l {
        HeadingLevel::H1 => HeadingDepth::H1,
        HeadingLevel::H2 => HeadingDepth::H2,
        HeadingLevel::H3 => HeadingDepth::H3,
        HeadingLevel::H4 => HeadingDepth::H4,
        HeadingLevel::H5 => HeadingDepth::H5,
        HeadingLevel::H6 => HeadingDepth::H6,
    }
}

/// Takes a `pulldown_cmark::Alignment` over.  Nothing is claimed of the result.
#[verifier::external_body]
fn table_align_from(a: pulldown_cmark::Alignment) -> TableAlign {
    match a {
        Alignment::None => TableAlign::Unaligned,
        Alignment::Left => TableAlign::Left,
        Alignment::Center => TableAlign::Center,
        Alignment::Right => TableAlign::Right,
    }
}

/// Takes a `pulldown_cmark::CodeBlockKind` over, the info string copied.
/// Nothing is claimed of the result.
#[verifier::external_body]
fn code_block_style_from(k: pulldown_cmark::CodeBlockKind<'_>) -> CodeBlockStyle {
    match k {
        CodeBlockKind::Indented => CodeBlockStyle::Indented,
        CodeBlockKind::Fenced(s) => CodeBlockStyle::Fenced(s.into_string()),
    }
}

} // verus!
