use vstd::prelude::*;

use crate::anchor::{anchor_of, heading_to_anchor};
use crate::document::{
    lemma_blocks_model_push, lemma_cells_model_push, lemma_inlines_model_push,
    lemma_items_model_push, lemma_rows_model_push,
    block_model, blocks_model, cells_model, inline_model, inlines_model, inlines_to_text,
    items_model, models_text, opt_str_model, rows_model, Block, BlockModel, ColumnAlign, Inline, InlineModel,
    ListItem, ListItemModel,
};
use crate::events::{
    markdown_events, pulldown_events, CodeBlockStyle, EndTag, HeadingDepth, MdEvent, StartTag,
    TableAlign, ENABLE_STRIKETHROUGH, ENABLE_TABLES, ENABLE_TASKLISTS,
};

verus! {

// ── What a document is, as a function of its event stream ──────────────────
//
// Each function below reads the stream `ev` from position `i` and gives what
// it builds there together with the position just after what it consumed.

/// The numeric level of a heading depth.
pub open spec fn level_number(d: HeadingDepth) -> u8 {
    match d {
        HeadingDepth::H1 => 1,
        HeadingDepth::H2 => 2,
        HeadingDepth::H3 => 3,
        HeadingDepth::H4 => 4,
        HeadingDepth::H5 => 5,
        HeadingDepth::H6 => 6,
    }
}

/// The column alignment that a source alignment stands for.
pub open spec fn column_align_of(a: TableAlign) -> ColumnAlign {
    match a {
        TableAlign::Unaligned => ColumnAlign::Unaligned,
        TableAlign::Left => ColumnAlign::Left,
        TableAlign::Center => ColumnAlign::Center,
        TableAlign::Right => ColumnAlign::Right,
    }
}

/// `None` for an empty string, the string otherwise.
pub open spec fn non_empty(s: Seq<char>) -> Option<Seq<char>> {
    if s.len() == 0 {
        None
    } else {
        Some(s)
    }
}

/// The language of a code block: the info string of a fenced block unless it
/// is empty.
pub open spec fn code_language(style: CodeBlockStyle) -> Option<Seq<char>> {
    match style {
        CodeBlockStyle::Fenced(s) => non_empty(s@),
        CodeBlockStyle::Indented => None,
    }
}

/// Whether an event closes an element of the given kind.
pub open spec fn closes(e: MdEvent, end: EndTag) -> bool {
    match e {
        MdEvent::End(t) => t == end,
        _ => false,
    }
}

/// Whether an event is inline content: text, code, a break, or the start of
/// emphasis, strong emphasis, strikethrough, a link or an image.
pub open spec fn inline_event(e: MdEvent) -> bool {
    match e {
        MdEvent::Text(_) | MdEvent::Code(_) | MdEvent::SoftBreak | MdEvent::HardBreak => true,
        MdEvent::Start(t) => match t {
            StartTag::Strong | StartTag::Emphasis | StartTag::Strikethrough => true,
            StartTag::Link { .. } | StartTag::Image { .. } => true,
            _ => false,
        },
        _ => false,
    }
}

/// Whether an event starts a block: a paragraph, a heading, a code block, a
/// block quote, a list, a table, or is a thematic break.
pub open spec fn block_start(e: MdEvent) -> bool {
    match e {
        MdEvent::Start(t) => match t {
            StartTag::Paragraph | StartTag::Heading(_) | StartTag::CodeBlock(_) => true,
            StartTag::BlockQuote | StartTag::List(_) | StartTag::Table(_) => true,
            _ => false,
        },
        MdEvent::Rule => true,
        _ => false,
    }
}

/// Whether an event ends a run of inline content that stands in a container
/// without a paragraph around it: the container's end, the start of a block
/// or of a list item, or the end of an item, a quote or a list.
pub open spec fn ends_bare_run(e: MdEvent, end: EndTag) -> bool {
    closes(e, end) || block_start(e) || match e {
        MdEvent::Start(t) => t is Item,
        MdEvent::End(t) => t == EndTag::Item || t == EndTag::BlockQuote || t == EndTag::List,
        _ => false,
    }
}

/// An optional first element put in front of a sequence.
pub open spec fn prepend<A>(o: Option<A>, s: Seq<A>) -> Seq<A> {
    match o {
        Some(x) => seq![x] + s,
        None => s,
    }
}

/// A paragraph of the given content in front of `rest`, unless the content
/// is empty.
pub open spec fn paragraph_before(c: Seq<InlineModel>, rest: Seq<BlockModel>) -> Seq<BlockModel> {
    if c.len() > 0 {
        seq![BlockModel::Paragraph(c)] + rest
    } else {
        rest
    }
}

/// A heading: its level, its content, and the anchor slug of its plain text.
pub open spec fn heading_model(d: HeadingDepth, c: Seq<InlineModel>) -> BlockModel {
    BlockModel::Heading { level: level_number(d), content: c, anchor: anchor_of(models_text(c)) }
}

/// An ordered list when a start number is given, a bullet list otherwise.
pub open spec fn list_model(start: Option<u64>, items: Seq<ListItemModel>) -> BlockModel {
    match start {
        Some(n) => BlockModel::OrderedList { start: n, items },
        None => BlockModel::BulletList(items),
    }
}

/// The text events up to the end of an element of kind `end`, concatenated;
/// every other event is passed over.
pub open spec fn text_until(ev: Seq<MdEvent>, i: int, end: EndTag) -> (Seq<char>, int)
    decreases ev.len() - i,
{
    if i < 0 || i >= ev.len() {
        (Seq::empty(), i)
    } else if closes(ev[i], end) {
        (Seq::empty(), i + 1)
    } else {
        match ev[i] {
            MdEvent::Text(t) => {
                let (rest, k) = text_until(ev, i + 1, end);
                (t@ + rest, k)
            },
            _ => text_until(ev, i + 1, end),
        }
    }
}

/// The inline elements up to the end of an element of kind `end`.
pub open spec fn inline_run(ev: Seq<MdEvent>, i: int, end: EndTag) -> (Seq<InlineModel>, int)
    decreases ev.len() - i, 1int,
{
    if i < 0 || i >= ev.len() {
        (Seq::empty(), i)
    } else if closes(ev[i], end) {
        (Seq::empty(), i + 1)
    } else {
        let (item, j) = inline_at(ev, i);
        if i < j <= ev.len() {
            let (rest, k) = inline_run(ev, j, end);
            (prepend(item, rest), k)
        } else {
            (Seq::empty(), i)
        }
    }
}

/// The inline element that starts at position `i`, if the event there starts
/// one.
pub open spec fn inline_at(ev: Seq<MdEvent>, i: int) -> (Option<InlineModel>, int)
    decreases ev.len() - i, 0int,
{
    if i < 0 || i >= ev.len() {
        (None, i + 1)
    } else {
        match ev[i] {
            MdEvent::Text(t) => (Some(InlineModel::Text(t@)), i + 1),
            MdEvent::Code(c) => (Some(InlineModel::Code(c@)), i + 1),
            MdEvent::SoftBreak => (Some(InlineModel::SoftBreak), i + 1),
            MdEvent::HardBreak => (Some(InlineModel::HardBreak), i + 1),
            MdEvent::Start(t) => match t {
                StartTag::Strong => {
                    let (inner, j) = inline_run(ev, i + 1, EndTag::Strong);
                    (Some(InlineModel::Bold(inner)), j)
                },
                StartTag::Emphasis => {
                    let (inner, j) = inline_run(ev, i + 1, EndTag::Emphasis);
                    (Some(InlineModel::Italic(inner)), j)
                },
                StartTag::Strikethrough => {
                    let (inner, j) = inline_run(ev, i + 1, EndTag::Strikethrough);
                    (Some(InlineModel::Strikethrough(inner)), j)
                },
                StartTag::Link { dest_url, title } => {
                    let (text, j) = inline_run(ev, i + 1, EndTag::Link);
                    (Some(InlineModel::Link { text, url: dest_url@, title: non_empty(title@) }), j)
                },
                StartTag::Image { dest_url, title } => {
                    let (alt, j) = text_until(ev, i + 1, EndTag::Image);
                    (Some(InlineModel::Image { alt, url: dest_url@, title: non_empty(title@) }), j)
                },
                _ => (None, i + 1),
            },
            _ => (None, i + 1),
        }
    }
}

/// A run of inline elements that stands in a container without a paragraph
/// around it, up to the first event that ends such a run.
pub open spec fn bare_run(ev: Seq<MdEvent>, i: int, end: EndTag) -> (Seq<InlineModel>, int)
    decreases ev.len() - i,
{
    if i < 0 || i >= ev.len() || ends_bare_run(ev[i], end) {
        (Seq::empty(), i)
    } else {
        let (item, j) = inline_at(ev, i);
        if i < j <= ev.len() {
            let (rest, k) = bare_run(ev, j, end);
            (prepend(item, rest), k)
        } else {
            (Seq::empty(), i)
        }
    }
}

/// The block that starts at position `i` (where `block_start` holds) and the
/// position just after it.  A paragraph without content gives no block.  A
/// block quote holds the blocks nested inside it, down to its own end.
pub open spec fn block_at(ev: Seq<MdEvent>, i: int) -> (Option<BlockModel>, int)
    decreases ev.len() - i, 0int,
{
    if i < 0 || i >= ev.len() {
        (None, i + 1)
    } else {
        match ev[i] {
            MdEvent::Start(StartTag::Paragraph) => {
                let (c, j) = inline_run(ev, i + 1, EndTag::Paragraph);
                (if c.len() > 0 { Some(BlockModel::Paragraph(c)) } else { None }, j)
            },
            MdEvent::Start(StartTag::Heading(d)) => {
                let (c, j) = inline_run(ev, i + 1, EndTag::Heading);
                (Some(heading_model(d, c)), j)
            },
            MdEvent::Start(StartTag::CodeBlock(style)) => {
                let (code, j) = text_until(ev, i + 1, EndTag::CodeBlock);
                (Some(BlockModel::CodeBlock { language: code_language(style), code }), j)
            },
            MdEvent::Start(StartTag::BlockQuote) => {
                let (inner, j) = nested_blocks(ev, i + 1, EndTag::BlockQuote);
                (Some(BlockModel::BlockQuote(inner)), j)
            },
            MdEvent::Start(StartTag::List(start)) => {
                let (items, j) = list_items(ev, i + 1);
                (Some(list_model(start, items)), j)
            },
            MdEvent::Start(StartTag::Table(aligns)) => {
                let (head, rows, j) = table_parts(ev, i + 1);
                (Some(table_model(aligns@, head, rows)), j)
            },
            MdEvent::Rule => (Some(BlockModel::HorizontalRule), i + 1),
            _ => (None, i + 1),
        }
    }
}

/// The blocks inside a container (a block quote or a list item) up to the end
/// of an element of kind `end` at the container's own depth: containers
/// nested inside are read as whole blocks, so their ends close only them.
/// Inline content that stands there without a paragraph around it (the items
/// of a tight list) becomes a paragraph.  Any other event is passed over.
pub open spec fn nested_blocks(ev: Seq<MdEvent>, i: int, end: EndTag) -> (Seq<BlockModel>, int)
    decreases ev.len() - i, 1int,
{
    if i < 0 || i >= ev.len() {
        (Seq::empty(), i)
    } else if closes(ev[i], end) {
        (Seq::empty(), i + 1)
    } else if block_start(ev[i]) {
        let (b, j) = block_at(ev, i);
        if i < j <= ev.len() {
            let (rest, k) = nested_blocks(ev, j, end);
            (prepend(b, rest), k)
        } else {
            (Seq::empty(), i)
        }
    } else if inline_event(ev[i]) {
        let (c, j) = bare_run(ev, i, end);
        if i < j <= ev.len() {
            let (rest, k) = nested_blocks(ev, j, end);
            (paragraph_before(c, rest), k)
        } else {
            (Seq::empty(), i)
        }
    } else {
        nested_blocks(ev, i + 1, end)
    }
}

/// The items of a list, up to the end of the list.
pub open spec fn list_items(ev: Seq<MdEvent>, i: int) -> (Seq<ListItemModel>, int)
    decreases ev.len() - i, 1int,
{
    if i < 0 || i >= ev.len() {
        (Seq::empty(), i)
    } else {
        match ev[i] {
            MdEvent::Start(StartTag::Item) => {
                let (c, j) = nested_blocks(ev, i + 1, EndTag::Item);
                if i < j <= ev.len() {
                    let (rest, k) = list_items(ev, j);
                    (seq![ListItemModel { content: c }] + rest, k)
                } else {
                    (Seq::empty(), i)
                }
            },
            MdEvent::End(EndTag::List) => (Seq::empty(), i + 1),
            _ => list_items(ev, i + 1),
        }
    }
}

/// The cells of a table row (or of the table head), up to the end of an
/// element of kind `end`.
pub open spec fn row_cells(ev: Seq<MdEvent>, i: int, end: EndTag) -> (Seq<Seq<InlineModel>>, int)
    decreases ev.len() - i,
{
    if i < 0 || i >= ev.len() {
        (Seq::empty(), i)
    } else if closes(ev[i], end) {
        (Seq::empty(), i + 1)
    } else {
        match ev[i] {
            MdEvent::Start(StartTag::TableCell) => {
                let (c, j) = inline_run(ev, i + 1, EndTag::TableCell);
                if i < j <= ev.len() {
                    let (rest, k) = row_cells(ev, j, end);
                    (seq![c] + rest, k)
                } else {
                    (Seq::empty(), i)
                }
            },
            _ => row_cells(ev, i + 1, end),
        }
    }
}

/// The head and the body rows of a table, up to the end of the table.  The
/// head is the last one that occurs, if any does.
pub open spec fn table_parts(ev: Seq<MdEvent>, i: int) -> (
    Option<Seq<Seq<InlineModel>>>,
    Seq<Seq<Seq<InlineModel>>>,
    int,
)
    decreases ev.len() - i,
{
    if i < 0 || i >= ev.len() {
        (None, Seq::empty(), i)
    } else {
        match ev[i] {
            MdEvent::Start(StartTag::TableHead) => {
                let (h, j) = row_cells(ev, i + 1, EndTag::TableHead);
                if i < j <= ev.len() {
                    let (later, rows, k) = table_parts(ev, j);
                    (if later is Some { later } else { Some(h) }, rows, k)
                } else {
                    (None, Seq::empty(), i)
                }
            },
            MdEvent::Start(StartTag::TableRow) => {
                let (r, j) = row_cells(ev, i + 1, EndTag::TableRow);
                if i < j <= ev.len() {
                    let (later, rows, k) = table_parts(ev, j);
                    (later, seq![r] + rows, k)
                } else {
                    (None, Seq::empty(), i)
                }
            },
            MdEvent::End(EndTag::Table) => (None, Seq::empty(), i + 1),
            _ => table_parts(ev, i + 1),
        }
    }
}

/// A table block built from its source alignments and its parts.
pub open spec fn table_model(
    aligns: Seq<TableAlign>,
    head: Option<Seq<Seq<InlineModel>>>,
    rows: Seq<Seq<Seq<InlineModel>>>,
) -> BlockModel {
    BlockModel::Table {
        alignments: aligns.map_values(|a: TableAlign| column_align_of(a)),
        headers: match head {
            Some(h) => h,
            None => Seq::empty(),
        },
        rows,
    }
}

/// The top-level blocks of a document from position `i` on.  Events that
/// start no block (an end that closes nothing opened here, raw HTML, and the
/// like) are passed over.
pub open spec fn top_blocks(ev: Seq<MdEvent>, i: int) -> Seq<BlockModel>
    decreases ev.len() - i,
{
    if i < 0 || i >= ev.len() {
        Seq::empty()
    } else if block_start(ev[i]) {
        let (b, j) = block_at(ev, i);
        if i < j <= ev.len() {
            prepend(b, top_blocks(ev, j))
        } else {
            Seq::empty()
        }
    } else {
        top_blocks(ev, i + 1)
    }
}

/// The blocks of a document, as a function of its event stream.
pub open spec fn document_of(ev: Seq<MdEvent>) -> Seq<BlockModel> {
    top_blocks(ev, 0)
}

/// The options this library parses markdown with: strikethrough, tables and
/// task lists.
pub open spec fn parse_options() -> u32 {
    ENABLE_STRIKETHROUGH | ENABLE_TABLES | ENABLE_TASKLISTS
}

// ── The parser ──────────────────────────────────────────────────────────────

pub open spec fn opt_inline_model(o: Option<Inline>) -> Option<InlineModel> {
    match o {
        Some(x) => Some(inline_model(x)),
        None => None,
    }
}

/// Whether an event closes an element of kind `end`.
fn closes_event(e: &MdEvent, end: EndTag) -> (b: bool)
    ensures
        b == closes(*e, end),
{
    match e {
        MdEvent::End(t) => *t == end,
        _ => false,
    }
}

fn heading_level_to_u8(level: &HeadingDepth) -> (n: u8)
    ensures
        n == level_number(*level),
        1 <= n <= 6,
{
    match level {
        HeadingDepth::H1 => 1,
        HeadingDepth::H2 => 2,
        HeadingDepth::H3 => 3,
        HeadingDepth::H4 => 4,
        HeadingDepth::H5 => 5,
        HeadingDepth::H6 => 6,
    }
}

fn is_inline_event(e: &MdEvent) -> (b: bool)
    ensures
        b == inline_event(*e),
{
    match e {
        MdEvent::Text(_) | MdEvent::Code(_) | MdEvent::SoftBreak | MdEvent::HardBreak => true,
        MdEvent::Start(t) => match t {
            StartTag::Strong | StartTag::Emphasis | StartTag::Strikethrough => true,
            StartTag::Link { .. } | StartTag::Image { .. } => true,
            _ => false,
        },
        _ => false,
    }
}

/// Concatenates the text events up to the end of an element of kind `end`
/// (used for code blocks and image alt text).
fn collect_text(events: &Vec<MdEvent>, start: usize, end: EndTag) -> (r: (String, usize))
    requires
        start <= events@.len(),
    ensures
        r.0@ == text_until(events@, start as int, end).0,
        r.1 as int == text_until(events@, start as int, end).1,
        start <= r.1 <= events@.len(),
{
    let n = events.len();
    let mut out = String::new();
    let mut i = start;
    while i < n && !closes_event(&events[i], end)
        invariant
            n == events@.len(),
            start <= i <= n,
            out@ + text_until(events@, i as int, end).0 == text_until(events@, start as int, end).0,
            text_until(events@, i as int, end).1 == text_until(events@, start as int, end).1,
        decreases n - i,
    {
        let ghost before = out@;
        match &events[i] {
            MdEvent::Text(t) => {
                out.append(t.as_str());
                assert(out@ + text_until(events@, i + 1, end).0 =~= before + text_until(
                    events@,
                    i as int,
                    end,
                ).0);
            },
            _ => {},
        }
        i = i + 1;
    }
    if i < n {
        i = i + 1;
    }
    proof {
        assert(out@ + Seq::<char>::empty() =~= out@);
    }
    (out, i)
}

fn parse_inlines_until(events: &Vec<MdEvent>, start: usize, end: EndTag) -> (r: (Vec<Inline>, usize))
    requires
        start <= events@.len(),
    ensures
        inlines_model(r.0@) == inline_run(events@, start as int, end).0,
        r.1 as int == inline_run(events@, start as int, end).1,
        start <= r.1 <= events@.len(),
    decreases events@.len() - start, 2int,
{
    parse_inlines_inner(events, start, &end)
}

fn parse_inlines_inner(events: &Vec<MdEvent>, start: usize, end: &EndTag) -> (r: (Vec<Inline>, usize))
    requires
        start <= events@.len(),
    ensures
        inlines_model(r.0@) == inline_run(events@, start as int, *end).0,
        r.1 as int == inline_run(events@, start as int, *end).1,
        start <= r.1 <= events@.len(),
    decreases events@.len() - start, 1int,
{
    let n = events.len();
    let mut inlines: Vec<Inline> = Vec::new();
    let mut i = start;
    while i < n && !closes_event(&events[i], *end)
        invariant
            n == events@.len(),
            start <= i <= n,
            inlines_model(inlines@) + inline_run(events@, i as int, *end).0 == inline_run(
                events@,
                start as int,
                *end,
            ).0,
            inline_run(events@, i as int, *end).1 == inline_run(events@, start as int, *end).1,
        decreases n - i,
    {
        let (item, j) = collect_inline_event(events, i);
        let ghost before = inlines_model(inlines@);
        let ghost rest = inline_run(events@, j as int, *end).0;
        match item {
            Some(x) => {
                proof {
                    lemma_inlines_model_push(inlines@, x);
                }
                inlines.push(x);
                assert(inlines_model(inlines@) + rest =~= before + (seq![inline_model(x)] + rest));
            },
            None => {},
        }
        i = j;
    }
    if i < n {
        i = i + 1;
    }
    proof {
        assert(inlines_model(inlines@) + Seq::<InlineModel>::empty() =~= inlines_model(inlines@));
    }
    (inlines, i)
}

/// Parses the inline element that starts at position `i`, if any, and gives
/// the position after it.
fn collect_inline_event(events: &Vec<MdEvent>, i: usize) -> (r: (Option<Inline>, usize))
    requires
        i < events@.len(),
    ensures
        opt_inline_model(r.0) == inline_at(events@, i as int).0,
        r.1 as int == inline_at(events@, i as int).1,
        i < r.1 <= events@.len(),
    decreases events@.len() - i, 0int,
{
    let n = events.len();
    match &events[i] {
        MdEvent::Text(t) => (Some(Inline::Text(t.clone())), i + 1),
        MdEvent::Code(c) => (Some(Inline::Code(c.clone())), i + 1),
        MdEvent::SoftBreak => (Some(Inline::SoftBreak), i + 1),
        MdEvent::HardBreak => (Some(Inline::HardBreak), i + 1),
        MdEvent::Start(StartTag::Strong) => {
            let (inner, j) = parse_inlines_inner(events, i + 1, &EndTag::Strong);
            (Some(Inline::Bold(inner)), j)
        },
        MdEvent::Start(StartTag::Emphasis) => {
            let (inner, j) = parse_inlines_inner(events, i + 1, &EndTag::Emphasis);
            (Some(Inline::Italic(inner)), j)
        },
        MdEvent::Start(StartTag::Strikethrough) => {
            let (inner, j) = parse_inlines_inner(events, i + 1, &EndTag::Strikethrough);
            (Some(Inline::Strikethrough(inner)), j)
        },
        MdEvent::Start(StartTag::Link { dest_url, title }) => {
            let url = dest_url.clone();
            let title_opt = if title.as_str().is_empty() {
                None
            } else {
                Some(title.clone())
            };
            let (text, j) = parse_inlines_inner(events, i + 1, &EndTag::Link);
            (Some(Inline::Link { text, url, title: title_opt }), j)
        },
        MdEvent::Start(StartTag::Image { dest_url, title }) => {
            let url = dest_url.clone();
            let title_opt = if title.as_str().is_empty() {
                None
            } else {
                Some(title.clone())
            };
            let (alt, j) = collect_text(events, i + 1, EndTag::Image);
            (Some(Inline::Image { alt, url, title: title_opt }), j)
        },
        _ => (None, i + 1),
    }
}

/// Whether an event starts a block.
fn is_block_start(e: &MdEvent) -> (b: bool)
    ensures
        b == block_start(*e),
{
    match e {
        MdEvent::Start(t) => match t {
            StartTag::Paragraph | StartTag::Heading(_) | StartTag::CodeBlock(_) => true,
            StartTag::BlockQuote | StartTag::List(_) | StartTag::Table(_) => true,
            _ => false,
        },
        MdEvent::Rule => true,
        _ => false,
    }
}

/// Whether an event ends a run of bare inline content inside a container
/// closed by `end`.
fn ends_bare_run_event(e: &MdEvent, end: EndTag) -> (b: bool)
    ensures
        b == ends_bare_run(*e, end),
{
    if closes_event(e, end) || is_block_start(e) {
        return true;
    }
    match e {
        MdEvent::Start(StartTag::Item) => true,
        MdEvent::End(t) => *t == EndTag::Item || *t == EndTag::BlockQuote || *t == EndTag::List,
        _ => false,
    }
}

/// Collect consecutive inline-level events as a paragraph.
fn collect_bare_inlines(events: &Vec<MdEvent>, start: usize, end: EndTag) -> (r: (Vec<Inline>, usize))
    requires
        start <= events@.len(),
    ensures
        inlines_model(r.0@) == bare_run(events@, start as int, end).0,
        r.1 as int == bare_run(events@, start as int, end).1,
        start <= r.1 <= events@.len(),
        start < events@.len() && !ends_bare_run(events@[start as int], end) ==> start < r.1,
{
    let n = events.len();
    let mut inlines: Vec<Inline> = Vec::new();
    let mut i = start;
    while i < n && !ends_bare_run_event(&events[i], end)
        invariant
            n == events@.len(),
            start <= i <= n,
            inlines_model(inlines@) + bare_run(events@, i as int, end).0 == bare_run(
                events@,
                start as int,
                end,
            ).0,
            bare_run(events@, i as int, end).1 == bare_run(events@, start as int, end).1,
            start < n && !ends_bare_run(events@[start as int], end) ==> start < i || (i == start
                && !ends_bare_run(events@[i as int], end)),
        decreases n - i,
    {
        let (item, j) = collect_inline_event(events, i);
        let ghost before = inlines_model(inlines@);
        let ghost rest = bare_run(events@, j as int, end).0;
        match item {
            Some(x) => {
                proof {
                    lemma_inlines_model_push(inlines@, x);
                }
                inlines.push(x);
                assert(inlines_model(inlines@) + rest =~= before + (seq![inline_model(x)] + rest));
            },
            None => {},
        }
        i = j;
    }
    proof {
        assert(inlines_model(inlines@) + Seq::<InlineModel>::empty() =~= inlines_model(inlines@));
    }
    (inlines, i)
}

/// A heading block: its level, its content, and the slug of its text.
fn heading_block(d: &HeadingDepth, content: Vec<Inline>) -> (b: Block)
    ensures
        block_model(b) == heading_model(*d, inlines_model(content@)),
{
    let level = heading_level_to_u8(d);
    let text = inlines_to_text(content.as_slice());
    let anchor = heading_to_anchor(text.as_str());
    Block::Heading { level, content, anchor }
}

/// An ordered list when a start number is given, a bullet list otherwise.
fn list_block(start: Option<u64>, items: Vec<ListItem>) -> (b: Block)
    ensures
        block_model(b) == list_model(start, items_model(items@)),
{
    match start {
        Some(n) => Block::OrderedList { start: n, items },
        None => Block::BulletList(items),
    }
}

pub open spec fn opt_block_model(o: Option<Block>) -> Option<BlockModel> {
    match o {
        Some(b) => Some(block_model(b)),
        None => None,
    }
}

/// Parses the block that starts at position `i` and gives the position after it.
fn parse_block_at(events: &Vec<MdEvent>, i: usize) -> (r: (Option<Block>, usize))
    requires
        i < events@.len(),
    ensures
        opt_block_model(r.0) == block_at(events@, i as int).0,
        r.1 as int == block_at(events@, i as int).1,
        i < r.1 <= events@.len(),
    decreases events@.len() - i, 0int,
{
    let n = events.len();
    assert(i + 1 <= n);
    match &events[i] {
        MdEvent::Start(StartTag::Paragraph) => {
            let (content, j) = parse_inlines_until(events, i + 1, EndTag::Paragraph);
            if content.len() > 0 {
                (Some(Block::Paragraph(content)), j)
            } else {
                (None, j)
            }
        },
        MdEvent::Start(StartTag::Heading(d)) => {
            let (content, j) = parse_inlines_until(events, i + 1, EndTag::Heading);
            (Some(heading_block(d, content)), j)
        },
        MdEvent::Start(StartTag::CodeBlock(style)) => {
            let language = code_block_language(style);
            let (code, j) = collect_text(events, i + 1, EndTag::CodeBlock);
            (Some(Block::CodeBlock { language, code }), j)
        },
        MdEvent::Start(StartTag::BlockQuote) => {
            let (inner, j) = parse_blocks_until_end(events, i + 1, EndTag::BlockQuote);
            (Some(Block::BlockQuote(inner)), j)
        },
        MdEvent::Start(StartTag::List(start_num)) => {
            let (items, j) = parse_list_items(events, i + 1);
            (Some(list_block(*start_num, items)), j)
        },
        MdEvent::Start(StartTag::Table(aligns)) => {
            let alignments = column_alignments(aligns);
            let (headers, rows, j) = parse_table_contents(events, i + 1);
            (Some(Block::Table { alignments, headers, rows }), j)
        },
        MdEvent::Rule => (Some(Block::HorizontalRule), i + 1),
        _ => (None, i + 1),
    }
}

/// Appends an optional block to `blocks`.
fn push_block(blocks: &mut Vec<Block>, b: Option<Block>)
    ensures
        blocks_model(final(blocks)@) == match opt_block_model(b) {
            Some(m) => blocks_model(old(blocks)@).push(m),
            None => blocks_model(old(blocks)@),
        },
{
    match b {
        Some(x) => {
            proof {
                lemma_blocks_model_push(blocks@, x);
            }
            blocks.push(x);
        },
        None => {},
    }
}

fn parse_blocks_until_end(events: &Vec<MdEvent>, start: usize, end: EndTag) -> (r: (Vec<Block>, usize))
    requires
        start <= events@.len(),
    ensures
        blocks_model(r.0@) == nested_blocks(events@, start as int, end).0,
        r.1 as int == nested_blocks(events@, start as int, end).1,
        start <= r.1 <= events@.len(),
    decreases events@.len() - start, 1int,
{
    let n = events.len();
    let mut blocks: Vec<Block> = Vec::new();
    let mut i = start;
    while i < n && !closes_event(&events[i], end)
        invariant
            n == events@.len(),
            start <= i <= n,
            blocks_model(blocks@) + nested_blocks(events@, i as int, end).0 == nested_blocks(
                events@,
                start as int,
                end,
            ).0,
            nested_blocks(events@, i as int, end).1 == nested_blocks(events@, start as int, end).1,
        decreases n - i,
    {
        let ghost before = blocks_model(blocks@);
        if is_block_start(&events[i]) {
            let (b, j) = parse_block_at(events, i);
            let ghost rest = nested_blocks(events@, j as int, end).0;
            push_block(&mut blocks, b);
            assert(blocks_model(blocks@) + rest =~= before + prepend(opt_block_model(b), rest));
            i = j;
        } else if is_inline_event(&events[i]) {
            let (content, j) = collect_bare_inlines(events, i, end);
            let ghost rest = nested_blocks(events@, j as int, end).0;
            if content.len() > 0 {
                let b = Block::Paragraph(content);
                proof {
                    lemma_blocks_model_push(blocks@, b);
                }
                blocks.push(b);
                assert(blocks_model(blocks@) + rest =~= before + (seq![block_model(b)] + rest));
            }
            i = j;
        } else {
            i = i + 1;
        }
    }
    if i < n {
        i = i + 1;
    }
    proof {
        assert(blocks_model(blocks@) + Seq::<BlockModel>::empty() =~= blocks_model(blocks@));
    }
    (blocks, i)
}

fn parse_list_items(events: &Vec<MdEvent>, start: usize) -> (r: (Vec<ListItem>, usize))
    requires
        start <= events@.len(),
    ensures
        items_model(r.0@) == list_items(events@, start as int).0,
        r.1 as int == list_items(events@, start as int).1,
        start <= r.1 <= events@.len(),
    decreases events@.len() - start, 1int,
{
    let n = events.len();
    let mut items: Vec<ListItem> = Vec::new();
    let mut i = start;
    let mut done = false;
    while i < n && !done
        invariant
            n == events@.len(),
            start <= i <= n,
            !done ==> items_model(items@) + list_items(events@, i as int).0 == list_items(
                events@,
                start as int,
            ).0,
            !done ==> list_items(events@, i as int).1 == list_items(events@, start as int).1,
            done ==> items_model(items@) == list_items(events@, start as int).0,
            done ==> i == list_items(events@, start as int).1,
        decreases n - i, if done { 0int } else { 1int },
    {
        let ghost before = items_model(items@);
        match &events[i] {
            MdEvent::Start(StartTag::Item) => {
                let (content, j) = parse_blocks_until_end(events, i + 1, EndTag::Item);
                let ghost rest = list_items(events@, j as int).0;
                let item = ListItem { content };
                proof {
                    lemma_items_model_push(items@, item);
                }
                items.push(item);
                assert(items_model(items@) + rest =~= before + (seq![
                    ListItemModel { content: blocks_model(item.content@) },
                ] + rest));
                i = j;
            },
            MdEvent::End(EndTag::List) => {
                i = i + 1;
                done = true;
                assert(items_model(items@) =~= before + Seq::<ListItemModel>::empty());
            },
            _ => {
                i = i + 1;
            },
        }
    }
    (items, i)
}

/// Parse table cells until the given end tag (TableHead or TableRow).
fn parse_table_row_cells(events: &Vec<MdEvent>, start: usize, end: EndTag) -> (r: (
    Vec<Vec<Inline>>,
    usize,
))
    requires
        start <= events@.len(),
    ensures
        cells_model(r.0@) == row_cells(events@, start as int, end).0,
        r.1 as int == row_cells(events@, start as int, end).1,
        start <= r.1 <= events@.len(),
{
    let n = events.len();
    let mut cells: Vec<Vec<Inline>> = Vec::new();
    let mut i = start;
    while i < n && !closes_event(&events[i], end)
        invariant
            n == events@.len(),
            start <= i <= n,
            cells_model(cells@) + row_cells(events@, i as int, end).0 == row_cells(
                events@,
                start as int,
                end,
            ).0,
            row_cells(events@, i as int, end).1 == row_cells(events@, start as int, end).1,
        decreases n - i,
    {
        let ghost before = cells_model(cells@);
        match &events[i] {
            MdEvent::Start(StartTag::TableCell) => {
                let (cell, j) = parse_inlines_until(events, i + 1, EndTag::TableCell);
                let ghost rest = row_cells(events@, j as int, end).0;
                proof {
                    lemma_cells_model_push(cells@, cell);
                }
                let ghost cm = inlines_model(cell@);
                cells.push(cell);
                assert(cells_model(cells@) + rest =~= before + (seq![cm] + rest));
                i = j;
            },
            _ => {
                i = i + 1;
            },
        }
    }
    if i < n {
        i = i + 1;
    }
    proof {
        assert(cells_model(cells@) + Seq::<Seq<InlineModel>>::empty() =~= cells_model(cells@));
    }
    (cells, i)
}

fn parse_table_contents(events: &Vec<MdEvent>, start: usize) -> (r: (
    Vec<Vec<Inline>>,
    Vec<Vec<Vec<Inline>>>,
    usize,
))
    requires
        start <= events@.len(),
    ensures
        ({
            let (head, rows, k) = table_parts(events@, start as int);
            &&& cells_model(r.0@) == (match head {
                Some(h) => h,
                None => Seq::empty(),
            })
            &&& rows_model(r.1@) == rows
            &&& r.2 as int == k
        }),
        start <= r.2 <= events@.len(),
{
    let n = events.len();
    let mut headers: Vec<Vec<Inline>> = Vec::new();
    let mut rows: Vec<Vec<Vec<Inline>>> = Vec::new();
    let mut i = start;
    let mut done = false;
    let ghost whole = table_parts(events@, start as int);
    while i < n && !done
        invariant
            n == events@.len(),
            start <= i <= n,
            whole == table_parts(events@, start as int),
            !done ==> ({
                let (later, rest, k) = table_parts(events@, i as int);
                &&& rows_model(rows@) + rest == whole.1
                &&& k == whole.2
                &&& (if later is Some {
                    later
                } else if whole.0 is Some {
                    Some(cells_model(headers@))
                } else {
                    None
                }) == whole.0
                &&& (whole.0 is None ==> headers@.len() == 0)
            }),
            done ==> rows_model(rows@) == whole.1 && i == whole.2 && cells_model(headers@) == (
            match whole.0 {
                Some(h) => h,
                None => Seq::empty(),
            }),
        decreases n - i, if done { 0int } else { 1int },
    {
        let ghost before = rows_model(rows@);
        match &events[i] {
            MdEvent::Start(StartTag::TableHead) => {
                let (h, j) = parse_table_row_cells(events, i + 1, EndTag::TableHead);
                headers = h;
                i = j;
            },
            MdEvent::Start(StartTag::TableRow) => {
                let (row, j) = parse_table_row_cells(events, i + 1, EndTag::TableRow);
                let ghost rest = table_parts(events@, j as int).1;
                proof {
                    lemma_rows_model_push(rows@, row);
                }
                let ghost rm = cells_model(row@);
                rows.push(row);
                assert(rows_model(rows@) + rest =~= before + (seq![rm] + rest));
                i = j;
            },
            MdEvent::End(EndTag::Table) => {
                i = i + 1;
                done = true;
                assert(rows_model(rows@) =~= before + Seq::<Seq<Seq<InlineModel>>>::empty());
            },
            _ => {
                i = i + 1;
            },
        }
    }
    proof {
        if !done {
            assert(rows_model(rows@) =~= rows_model(rows@) + Seq::<Seq<Seq<InlineModel>>>::empty());
        }
        if whole.0 is None {
            assert(cells_model(headers@) =~= Seq::<Seq<InlineModel>>::empty());
        }
    }
    (headers, rows, i)
}

/// The column alignments of a table, in column order.
fn column_alignments(aligns: &Vec<TableAlign>) -> (r: Vec<ColumnAlign>)
    ensures
        r@ == aligns@.map_values(|a: TableAlign| column_align_of(a)),
{
    let mut out: Vec<ColumnAlign> = Vec::new();
    let n = aligns.len();
    let mut k: usize = 0;
    while k < n
        invariant
            n == aligns@.len(),
            0 <= k <= n,
            out@ == aligns@.subrange(0, k as int).map_values(|a: TableAlign| column_align_of(a)),
        decreases n - k,
    {
        let c = match aligns[k] {
            TableAlign::Unaligned => ColumnAlign::Unaligned,
            TableAlign::Left => ColumnAlign::Left,
            TableAlign::Center => ColumnAlign::Center,
            TableAlign::Right => ColumnAlign::Right,
        };
        out.push(c);
        proof {
            assert(aligns@.subrange(0, k + 1).map_values(|a: TableAlign| column_align_of(a))
                =~= aligns@.subrange(0, k as int).map_values(|a: TableAlign| column_align_of(a)).push(
                c,
            ));
        }
        k = k + 1;
    }
    proof {
        assert(aligns@.subrange(0, n as int) =~= aligns@);
    }
    out
}

/// The language of a code block: the info string of a fenced block unless it
/// is empty.
fn code_block_language(style: &CodeBlockStyle) -> (lang: Option<String>)
    ensures
        opt_str_model(lang) == code_language(*style),
{
    match style {
        CodeBlockStyle::Fenced(lang) => {
            if lang.as_str().is_empty() {
                None
            } else {
                Some(lang.clone())
            }
        },
        CodeBlockStyle::Indented => None,
    }
}

fn parse_blocks(events: &Vec<MdEvent>, start: usize) -> (blocks: Vec<Block>)
    requires
        start <= events@.len(),
    ensures
        blocks_model(blocks@) == top_blocks(events@, start as int),
{
    let n = events.len();
    let mut blocks: Vec<Block> = Vec::new();
    let mut i = start;
    while i < n
        invariant
            n == events@.len(),
            start <= i <= n,
            blocks_model(blocks@) + top_blocks(events@, i as int) == top_blocks(events@, start as int),
        decreases n - i,
    {
        let ghost before = blocks_model(blocks@);
        if is_block_start(&events[i]) {
            let (b, j) = parse_block_at(events, i);
            let ghost rest = top_blocks(events@, j as int);
            push_block(&mut blocks, b);
            assert(blocks_model(blocks@) + rest =~= before + prepend(opt_block_model(b), rest));
            i = j;
        } else {
            i = i + 1;
        }
    }
    proof {
        assert(blocks_model(blocks@) =~= blocks_model(blocks@) + Seq::<BlockModel>::empty());
    }
    blocks
}

/// Builds the blocks of a document from its event stream: headings (with
/// their anchor slugs), non-empty paragraphs, code blocks, block quotes,
/// bullet and ordered lists, rules and tables.
pub fn parse_events(events: &Vec<MdEvent>) -> (blocks: Vec<Block>)
    ensures
        blocks_model(blocks@) == document_of(events@),
{
    parse_blocks(events, 0)
}

pub struct MarkdownParser;

impl MarkdownParser {
    /// Parses markdown (CommonMark with strikethrough, tables and task lists)
    /// into blocks.
    pub fn parse(input: &str) -> (blocks: Vec<Block>)
        ensures
            blocks_model(blocks@) == document_of(pulldown_events(input@, parse_options())),
    {
        let events = markdown_events(input, ENABLE_STRIKETHROUGH | ENABLE_TABLES | ENABLE_TASKLISTS);
        parse_events(&events)
    }
}

// ── Laws of the parser ──────────────────────────────────────────────────────

/// What a rule, a heading, a code block and a list start give: a rule a
/// horizontal rule; a heading of depth `Hn` a heading of level n; a code
/// block the language of a fenced block's info string, or none when that is
/// empty or the block is indented; a list with a start number an ordered list
/// from that number, a list without one a bullet list.
pub proof fn law_block_kinds(ev: Seq<MdEvent>, i: int)
    requires
        0 <= i < ev.len(),
    ensures
        ev[i] is Rule ==> block_at(ev, i) == (Some(BlockModel::HorizontalRule), i + 1),
        ev[i] matches MdEvent::Start(StartTag::CodeBlock(CodeBlockStyle::Fenced(info))) ==> (
        block_at(ev, i).0 matches Some(BlockModel::CodeBlock { language, .. }) && language == if info@.len()
            == 0 {
            None
        } else {
            Some(info@)
        }),
        ev[i] matches MdEvent::Start(StartTag::CodeBlock(CodeBlockStyle::Indented)) ==> (
        block_at(ev, i).0 matches Some(BlockModel::CodeBlock { language, .. }) && language is None),
        ev[i] matches MdEvent::Start(StartTag::List(Some(n))) ==> (block_at(ev, i).0 matches Some(
            BlockModel::OrderedList { start, .. },
        ) && start == n),
        ev[i] matches MdEvent::Start(StartTag::List(None)) ==> (block_at(ev, i).0 matches Some(
            BlockModel::BulletList(_),
        )),
        ev[i] matches MdEvent::Start(StartTag::Heading(d)) ==> (block_at(ev, i).0 matches Some(
            BlockModel::Heading { level, .. },
        ) && (d == HeadingDepth::H1 ==> level == 1) && (d == HeadingDepth::H2 ==> level == 2) && (d
            == HeadingDepth::H3 ==> level == 3) && (d == HeadingDepth::H4 ==> level == 4) && (d
            == HeadingDepth::H5 ==> level == 5) && (d == HeadingDepth::H6 ==> level == 6)),
{
}

/// Whether an event is plain inline content: text, code or a line break.
pub open spec fn plain_inline_event(e: MdEvent) -> bool {
    e is Text || e is Code || e is SoftBreak || e is HardBreak
}

/// Plain inline events are taken over one for one, in order: each text
/// event gives a text element with its text, each code event a code element,
/// each soft line break a soft break (shown as a space) and each hard line
/// break a hard break; the run ends just after the element's end event.
pub proof fn law_plain_inline_run(ev: Seq<MdEvent>, i: int, j: int, end: EndTag)
    requires
        0 <= i <= j < ev.len(),
        ev[j] == MdEvent::End(end),
        forall|k: int| i <= k < j ==> plain_inline_event(#[trigger] ev[k]),
    ensures
        inline_run(ev, i, end).1 == j + 1,
        inline_run(ev, i, end).0.len() == j - i,
        forall|k: int|
            0 <= k < j - i ==> {
                let c = #[trigger] inline_run(ev, i, end).0[k];
                &&& (ev[i + k] is SoftBreak ==> c == InlineModel::SoftBreak)
                &&& (ev[i + k] is HardBreak ==> c == InlineModel::HardBreak)
                &&& (ev[i + k] matches MdEvent::Text(t) ==> c == InlineModel::Text(t@))
                &&& (ev[i + k] matches MdEvent::Code(t) ==> c == InlineModel::Code(t@))
            },
    decreases j - i,
{
    if i < j {
        assert(plain_inline_event(ev[i]));
        law_plain_inline_run(ev, i + 1, j, end);
        let rest = inline_run(ev, i + 1, end).0;
        let c = inline_run(ev, i, end).0;
        let x = inline_at(ev, i).0;
        assert(x is Some);
        assert(c == seq![x->0] + rest);
        assert forall|k: int| 0 <= k < j - i implies {
            let ck = #[trigger] inline_run(ev, i, end).0[k];
            &&& (ev[i + k] is SoftBreak ==> ck == InlineModel::SoftBreak)
            &&& (ev[i + k] is HardBreak ==> ck == InlineModel::HardBreak)
            &&& (ev[i + k] matches MdEvent::Text(t) ==> ck == InlineModel::Text(t@))
            &&& (ev[i + k] matches MdEvent::Code(t) ==> ck == InlineModel::Code(t@))
        } by {
            if k > 0 {
                assert(c[k] == rest[k - 1]);
                assert(ev[i + k] == ev[(i + 1) + (k - 1)]);
            }
        }
    }
}

/// A block as the parser builds it: a paragraph has content, a heading has a
/// level from 1 to 6 and the anchor slug of its own text, and the blocks
/// inside quotes and list items are the same.
pub open spec fn block_well_formed(b: BlockModel) -> bool
    decreases b, 1int,
{
    match b {
        BlockModel::Paragraph(c) => c.len() > 0,
        BlockModel::Heading { level, content, anchor } => 1 <= level <= 6 && anchor == anchor_of(
            models_text(content),
        ),
        BlockModel::BlockQuote(inner) => blocks_well_formed(inner),
        BlockModel::BulletList(items) => items_well_formed(items),
        BlockModel::OrderedList { items, .. } => items_well_formed(items),
        _ => true,
    }
}

pub open spec fn blocks_well_formed(s: Seq<BlockModel>) -> bool
    decreases s, 0int,
{
    forall|k: int| 0 <= k < s.len() ==> block_well_formed(#[trigger] s[k])
}

pub open spec fn items_well_formed(s: Seq<ListItemModel>) -> bool
    decreases s, 0int,
{
    forall|k: int| 0 <= k < s.len() ==> blocks_well_formed(#[trigger] s[k].content)
}

proof fn lemma_prepend_well_formed(b: BlockModel, rest: Seq<BlockModel>)
    requires
        block_well_formed(b),
        blocks_well_formed(rest),
    ensures
        blocks_well_formed(seq![b] + rest),
{
    let all = seq![b] + rest;
    assert forall|k: int| 0 <= k < all.len() implies block_well_formed(#[trigger] all[k]) by {
        if k > 0 {
            assert(all[k] == rest[k - 1]);
        }
    }
}

proof fn lemma_paragraph_before_well_formed(c: Seq<InlineModel>, rest: Seq<BlockModel>)
    requires
        blocks_well_formed(rest),
    ensures
        blocks_well_formed(paragraph_before(c, rest)),
{
    if c.len() > 0 {
        lemma_prepend_well_formed(BlockModel::Paragraph(c), rest);
    }
}

proof fn lemma_prepend_opt_well_formed(b: Option<BlockModel>, rest: Seq<BlockModel>)
    requires
        b matches Some(x) ==> block_well_formed(x),
        blocks_well_formed(rest),
    ensures
        blocks_well_formed(prepend(b, rest)),
{
    if let Some(x) = b {
        lemma_prepend_well_formed(x, rest);
    }
}

proof fn lemma_block_at_well_formed(ev: Seq<MdEvent>, i: int)
    ensures
        block_at(ev, i).0 matches Some(b) ==> block_well_formed(b),
    decreases ev.len() - i, 0int,
{
    if 0 <= i < ev.len() {
        match ev[i] {
            MdEvent::Start(StartTag::BlockQuote) => {
                lemma_nested_blocks_well_formed(ev, i + 1, EndTag::BlockQuote);
            },
            MdEvent::Start(StartTag::List(_)) => {
                lemma_list_items_well_formed(ev, i + 1);
            },
            _ => {},
        }
    }
}

proof fn lemma_nested_blocks_well_formed(ev: Seq<MdEvent>, i: int, end: EndTag)
    ensures
        blocks_well_formed(nested_blocks(ev, i, end).0),
    decreases ev.len() - i, 1int,
{
    if i < 0 || i >= ev.len() || closes(ev[i], end) {
    } else if block_start(ev[i]) {
        let (b, j) = block_at(ev, i);
        lemma_block_at_well_formed(ev, i);
        if i < j <= ev.len() {
            lemma_nested_blocks_well_formed(ev, j, end);
            lemma_prepend_opt_well_formed(b, nested_blocks(ev, j, end).0);
        }
    } else if inline_event(ev[i]) {
        let (c, j) = bare_run(ev, i, end);
        if i < j <= ev.len() {
            lemma_nested_blocks_well_formed(ev, j, end);
            lemma_paragraph_before_well_formed(c, nested_blocks(ev, j, end).0);
        }
    } else {
        lemma_nested_blocks_well_formed(ev, i + 1, end);
    }
}

proof fn lemma_list_items_well_formed(ev: Seq<MdEvent>, i: int)
    ensures
        items_well_formed(list_items(ev, i).0),
    decreases ev.len() - i, 1int,
{
    if i < 0 || i >= ev.len() {
    } else {
        match ev[i] {
            MdEvent::Start(StartTag::Item) => {
                let (c, j) = nested_blocks(ev, i + 1, EndTag::Item);
                if i < j <= ev.len() {
                    lemma_nested_blocks_well_formed(ev, i + 1, EndTag::Item);
                    lemma_list_items_well_formed(ev, j);
                    let rest = list_items(ev, j).0;
                    let all = seq![ListItemModel { content: c }] + rest;
                    assert forall|k: int| 0 <= k < all.len() implies blocks_well_formed(
                        #[trigger] all[k].content,
                    ) by {
                        if k > 0 {
                            assert(all[k] == rest[k - 1]);
                        }
                    }
                }
            },
            MdEvent::End(EndTag::List) => {},
            _ => {
                lemma_list_items_well_formed(ev, i + 1);
            },
        }
    }
}

proof fn lemma_top_blocks_well_formed(ev: Seq<MdEvent>, i: int)
    ensures
        blocks_well_formed(top_blocks(ev, i)),
    decreases ev.len() - i,
{
    if i < 0 || i >= ev.len() {
    } else if block_start(ev[i]) {
        let (b, j) = block_at(ev, i);
        lemma_block_at_well_formed(ev, i);
        if i < j <= ev.len() {
            lemma_top_blocks_well_formed(ev, j);
            lemma_prepend_opt_well_formed(b, top_blocks(ev, j));
        }
    } else {
        lemma_top_blocks_well_formed(ev, i + 1);
    }
}

/// Whatever the event stream, every block the parser builds, at any depth
/// (inside block quotes and list items too), is well formed: no paragraph is
/// empty, and every heading has a level from 1 to 6 and carries the anchor
/// slug of its own plain text.
pub proof fn law_parsed_blocks_well_formed(ev: Seq<MdEvent>)
    ensures
        blocks_well_formed(document_of(ev)),
{
    lemma_top_blocks_well_formed(ev, 0);
}

} // verus!
