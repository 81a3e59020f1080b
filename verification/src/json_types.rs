use vstd::prelude::*;

use crate::document::{
    block_model, blocks_model, cells_model, inline_model, inlines_model, items_model, opt_str_model,
    rows_model, Block, BlockModel, ColumnAlign, Inline, InlineModel, ListItem, ListItemModel,
};

verus! {

/// Root document handed to other programs as JSON.
pub struct Document {
    pub version: u32,
    pub blocks: Vec<JsonBlock>,
}

#[derive(Debug)]
pub enum JsonBlock {
    Heading { level: u8, anchor: String, inlines: Vec<JsonInline> },
    Paragraph { inlines: Vec<JsonInline> },
    CodeBlock { language: Option<String>, code: String },
    BlockQuote { blocks: Vec<JsonBlock> },
    BulletList { items: Vec<JsonListItem> },
    OrderedList { start: u64, items: Vec<JsonListItem> },
    HorizontalRule,
    Table {
        alignments: Vec<JsonAlign>,
        headers: Vec<Vec<JsonInline>>,
        rows: Vec<Vec<Vec<JsonInline>>>,
    },
}

#[derive(Debug)]
pub struct JsonListItem {
    pub content: Vec<JsonBlock>,
}

#[derive(Debug, Clone, Copy, PartialEq, Eq, Structural)]
pub enum JsonAlign {
    Unaligned,
    Left,
    Center,
    Right,
}

#[derive(Debug)]
pub enum JsonInline {
    Text { content: String },
    Bold { children: Vec<JsonInline> },
    Italic { children: Vec<JsonInline> },
    Strikethrough { children: Vec<JsonInline> },
    Code { content: String },
    Link { url: String, title: Option<String>, children: Vec<JsonInline> },
    Image { url: String, alt: String, title: Option<String> },
    SoftBreak,
    HardBreak,
}

// ── Models: a JSON element stands for the same model as the element it was
// made from.

pub open spec fn json_inline_model(j: JsonInline) -> InlineModel
    decreases j, 1int,
{
    match j {
        JsonInline::Text { content } => InlineModel::Text(content@),
        JsonInline::Bold { children } => InlineModel::Bold(json_inlines_model(children@)),
        JsonInline::Italic { children } => InlineModel::Italic(json_inlines_model(children@)),
        JsonInline::Strikethrough { children } => InlineModel::Strikethrough(
            json_inlines_model(children@),
        ),
        JsonInline::Code { content } => InlineModel::Code(content@),
        JsonInline::Link { url, title, children } => InlineModel::Link {
            text: json_inlines_model(children@),
            url: url@,
            title: opt_str_model(title),
        },
        JsonInline::Image { url, alt, title } => InlineModel::Image {
            alt: alt@,
            url: url@,
            title: opt_str_model(title),
        },
        JsonInline::SoftBreak => InlineModel::SoftBreak,
        JsonInline::HardBreak => InlineModel::HardBreak,
    }
}

pub open spec fn json_inlines_model(s: Seq<JsonInline>) -> Seq<InlineModel>
    decreases s, 0int,
{
    Seq::new(
        s.len(),
        |k: int|
            if 0 <= k < s.len() {
                json_inline_model(s[k])
            } else {
                InlineModel::SoftBreak
            },
    )
}

pub open spec fn json_cells_model(s: Seq<Vec<JsonInline>>) -> Seq<Seq<InlineModel>> {
    Seq::new(s.len(), |k: int| json_inlines_model(s[k]@))
}

pub open spec fn json_rows_model(s: Seq<Vec<Vec<JsonInline>>>) -> Seq<Seq<Seq<InlineModel>>> {
    Seq::new(s.len(), |k: int| json_cells_model(s[k]@))
}

pub open spec fn json_align_model(a: JsonAlign) -> ColumnAlign {
    match a {
        JsonAlign::Unaligned => ColumnAlign::Unaligned,
        JsonAlign::Left => ColumnAlign::Left,
        JsonAlign::Center => ColumnAlign::Center,
        JsonAlign::Right => ColumnAlign::Right,
    }
}

pub open spec fn json_block_model(j: JsonBlock) -> BlockModel
    decreases j, 1int,
{
    match j {
        JsonBlock::Heading { level, anchor, inlines } => BlockModel::Heading {
            level,
            content: json_inlines_model(inlines@),
            anchor: anchor@,
        },
        JsonBlock::Paragraph { inlines } => BlockModel::Paragraph(json_inlines_model(inlines@)),
        JsonBlock::CodeBlock { language, code } => BlockModel::CodeBlock {
            language: opt_str_model(language),
            code: code@,
        },
        JsonBlock::BlockQuote { blocks } => BlockModel::BlockQuote(json_blocks_model(blocks@)),
        JsonBlock::BulletList { items } => BlockModel::BulletList(json_items_model(items@)),
        JsonBlock::OrderedList { start, items } => BlockModel::OrderedList {
            start,
            items: json_items_model(items@),
        },
        JsonBlock::HorizontalRule => BlockModel::HorizontalRule,
        JsonBlock::Table { alignments, headers, rows } => BlockModel::Table {
            alignments: alignments@.map_values(|a: JsonAlign| json_align_model(a)),
            headers: json_cells_model(headers@),
            rows: json_rows_model(rows@),
        },
    }
}

pub open spec fn json_blocks_model(s: Seq<JsonBlock>) -> Seq<BlockModel>
    decreases s, 0int,
{
    Seq::new(
        s.len(),
        |k: int|
            if 0 <= k < s.len() {
                json_block_model(s[k])
            } else {
                BlockModel::HorizontalRule
            },
    )
}

pub open spec fn json_items_model(s: Seq<JsonListItem>) -> Seq<ListItemModel>
    decreases s, 0int,
{
    Seq::new(
        s.len(),
        |k: int|
            if 0 <= k < s.len() {
                ListItemModel { content: json_blocks_model(s[k].content@) }
            } else {
                ListItemModel { content: Seq::empty() }
            },
    )
}

// ── Conversions ─────────────────────────────────────────────────────────────

fn clone_opt(o: &Option<String>) -> (r: Option<String>)
    ensures
        opt_str_model(r) == opt_str_model(*o),
{
    match o {
        Some(s) => Some(s.clone()),
        None => None,
    }
}

/// The JSON forms of a sequence of inlines.
fn json_inlines(v: &Vec<Inline>) -> (r: Vec<JsonInline>)
    ensures
        json_inlines_model(r@) == inlines_model(v@),
    decreases v@, 0int,
{
    let mut out: Vec<JsonInline> = Vec::new();
    let n = v.len();
    let mut k: usize = 0;
    while k < n
        invariant
            n == v@.len(),
            0 <= k <= n,
            json_inlines_model(out@) == inlines_model(v@.subrange(0, k as int)),
        decreases n - k,
    {
        proof {
            assert(decreases_to!(v@ => v@[k as int]));
        }
        let j = JsonInline::from_inline(&v[k]);
        let ghost before = out@;
        out.push(j);
        proof {
            assert(json_inlines_model(out@) =~= json_inlines_model(before).push(json_inline_model(j)));
            assert(inlines_model(v@.subrange(0, k + 1)) =~= inlines_model(v@.subrange(0, k as int)).push(
                inline_model(v@[k as int]),
            ));
        }
        k = k + 1;
    }
    proof {
        assert(v@.subrange(0, n as int) =~= v@);
    }
    out
}

impl JsonInline {
    /// The JSON form of an inline element.
    pub fn from_inline(inline: &Inline) -> (j: JsonInline)
        ensures
            json_inline_model(j) == inline_model(*inline),
        decreases *inline, 1int,
    {
        match inline {
            Inline::Text(s) => JsonInline::Text { content: s.clone() },
            Inline::Bold(inner) => JsonInline::Bold { children: json_inlines(inner) },
            Inline::Italic(inner) => JsonInline::Italic { children: json_inlines(inner) },
            Inline::Strikethrough(inner) => JsonInline::Strikethrough { children: json_inlines(inner) },
            Inline::Code(s) => JsonInline::Code { content: s.clone() },
            Inline::Link { text, url, title } => JsonInline::Link {
                url: url.clone(),
                title: clone_opt(title),
                children: json_inlines(text),
            },
            Inline::Image { alt, url, title } => JsonInline::Image {
                url: url.clone(),
                alt: alt.clone(),
                title: clone_opt(title),
            },
            Inline::SoftBreak => JsonInline::SoftBreak,
            Inline::HardBreak => JsonInline::HardBreak,
        }
    }
}

/// The JSON forms of the cells of a table row.
fn json_cells(v: &Vec<Vec<Inline>>) -> (r: Vec<Vec<JsonInline>>)
    ensures
        json_cells_model(r@) == cells_model(v@),
{
    let mut out: Vec<Vec<JsonInline>> = Vec::new();
    let n = v.len();
    let mut k: usize = 0;
    while k < n
        invariant
            n == v@.len(),
            0 <= k <= n,
            json_cells_model(out@) == cells_model(v@.subrange(0, k as int)),
        decreases n - k,
    {
        let c = json_inlines(&v[k]);
        let ghost before = out@;
        out.push(c);
        proof {
            assert(json_cells_model(out@) =~= json_cells_model(before).push(json_inlines_model(c@)));
            assert(cells_model(v@.subrange(0, k + 1)) =~= cells_model(v@.subrange(0, k as int)).push(
                inlines_model(v@[k as int]@),
            ));
        }
        k = k + 1;
    }
    proof {
        assert(v@.subrange(0, n as int) =~= v@);
    }
    out
}

/// The JSON forms of the body rows of a table.
fn json_rows(v: &Vec<Vec<Vec<Inline>>>) -> (r: Vec<Vec<Vec<JsonInline>>>)
    ensures
        json_rows_model(r@) == rows_model(v@),
{
    let mut out: Vec<Vec<Vec<JsonInline>>> = Vec::new();
    let n = v.len();
    let mut k: usize = 0;
    while k < n
        invariant
            n == v@.len(),
            0 <= k <= n,
            json_rows_model(out@) == rows_model(v@.subrange(0, k as int)),
        decreases n - k,
    {
        let c = json_cells(&v[k]);
        let ghost before = out@;
        out.push(c);
        proof {
            assert(json_rows_model(out@) =~= json_rows_model(before).push(json_cells_model(c@)));
            assert(rows_model(v@.subrange(0, k + 1)) =~= rows_model(v@.subrange(0, k as int)).push(
                cells_model(v@[k as int]@),
            ));
        }
        k = k + 1;
    }
    proof {
        assert(v@.subrange(0, n as int) =~= v@);
    }
    out
}

/// The JSON forms of column alignments.
fn json_aligns(v: &Vec<ColumnAlign>) -> (r: Vec<JsonAlign>)
    ensures
        r@.map_values(|a: JsonAlign| json_align_model(a)) == v@,
{
    let mut out: Vec<JsonAlign> = Vec::new();
    let n = v.len();
    let mut k: usize = 0;
    while k < n
        invariant
            n == v@.len(),
            0 <= k <= n,
            out@.map_values(|a: JsonAlign| json_align_model(a)) == v@.subrange(0, k as int),
        decreases n - k,
    {
        let a = JsonAlign::from_align(v[k]);
        let ghost before = out@;
        out.push(a);
        proof {
            assert(out@.map_values(|a: JsonAlign| json_align_model(a)) =~= before.map_values(
                |a: JsonAlign| json_align_model(a),
            ).push(json_align_model(a)));
            assert(v@.subrange(0, k + 1) =~= v@.subrange(0, k as int).push(v@[k as int]));
        }
        k = k + 1;
    }
    proof {
        assert(v@.subrange(0, n as int) =~= v@);
    }
    out
}

impl JsonAlign {
    /// The JSON form of a column alignment.
    pub fn from_align(align: ColumnAlign) -> (j: JsonAlign)
        ensures
            json_align_model(j) == align,
    {
        match align {
            ColumnAlign::Unaligned => JsonAlign::Unaligned,
            ColumnAlign::Left => JsonAlign::Left,
            ColumnAlign::Center => JsonAlign::Center,
            ColumnAlign::Right => JsonAlign::Right,
        }
    }
}

/// The JSON forms of a sequence of blocks.
fn json_blocks(v: &Vec<Block>) -> (r: Vec<JsonBlock>)
    ensures
        json_blocks_model(r@) == blocks_model(v@),
    decreases v@, 0int,
{
    let mut out: Vec<JsonBlock> = Vec::new();
    let n = v.len();
    let mut k: usize = 0;
    while k < n
        invariant
            n == v@.len(),
            0 <= k <= n,
            json_blocks_model(out@) == blocks_model(v@.subrange(0, k as int)),
        decreases n - k,
    {
        proof {
            assert(decreases_to!(v@ => v@[k as int]));
        }
        let b = JsonBlock::from_block(&v[k]);
        let ghost before = out@;
        out.push(b);
        proof {
            assert(json_blocks_model(out@) =~= json_blocks_model(before).push(json_block_model(b)));
            assert(blocks_model(v@.subrange(0, k + 1)) =~= blocks_model(v@.subrange(0, k as int)).push(
                block_model(v@[k as int]),
            ));
        }
        k = k + 1;
    }
    proof {
        assert(v@.subrange(0, n as int) =~= v@);
    }
    out
}

/// The JSON forms of list items.
fn json_items(v: &Vec<ListItem>) -> (r: Vec<JsonListItem>)
    ensures
        json_items_model(r@) == items_model(v@),
    decreases v@, 0int,
{
    let mut out: Vec<JsonListItem> = Vec::new();
    let n = v.len();
    let mut k: usize = 0;
    while k < n
        invariant
            n == v@.len(),
            0 <= k <= n,
            json_items_model(out@) == items_model(v@.subrange(0, k as int)),
        decreases n - k,
    {
        proof {
            assert(decreases_to!(v@ => v@[k as int]));
        }
        let item = JsonListItem::from_item(&v[k]);
        let ghost before = out@;
        out.push(item);
        proof {
            assert(json_items_model(out@) =~= json_items_model(before).push(
                ListItemModel { content: json_blocks_model(item.content@) },
            ));
            assert(items_model(v@.subrange(0, k + 1)) =~= items_model(v@.subrange(0, k as int)).push(
                ListItemModel { content: blocks_model(v@[k as int].content@) },
            ));
        }
        k = k + 1;
    }
    proof {
        assert(v@.subrange(0, n as int) =~= v@);
    }
    out
}

impl JsonListItem {
    /// The JSON form of a list item.
    pub fn from_item(item: &ListItem) -> (j: JsonListItem)
        ensures
            json_blocks_model(j.content@) == blocks_model(item.content@),
        decreases *item, 1int,
    {
        JsonListItem { content: json_blocks(&item.content) }
    }
}

impl JsonBlock {
    /// The JSON form of a block.
    pub fn from_block(block: &Block) -> (j: JsonBlock)
        ensures
            json_block_model(j) == block_model(*block),
        decreases *block, 1int,
    {
        match block {
            Block::Heading { level, content, anchor } => JsonBlock::Heading {
                level: *level,
                anchor: anchor.clone(),
                inlines: json_inlines(content),
            },
            Block::Paragraph(inlines) => JsonBlock::Paragraph { inlines: json_inlines(inlines) },
            Block::CodeBlock { language, code } => JsonBlock::CodeBlock {
                language: clone_opt(language),
                code: code.clone(),
            },
            Block::BlockQuote(blocks) => JsonBlock::BlockQuote { blocks: json_blocks(blocks) },
            Block::BulletList(items) => JsonBlock::BulletList { items: json_items(items) },
            Block::OrderedList { start, items } => JsonBlock::OrderedList {
                start: *start,
                items: json_items(items),
            },
            Block::HorizontalRule => JsonBlock::HorizontalRule,
            Block::Table { alignments, headers, rows } => JsonBlock::Table {
                alignments: json_aligns(alignments),
                headers: json_cells(headers),
                rows: json_rows(rows),
            },
        }
    }
}

impl Document {
    /// The JSON document (format version 1) for a sequence of blocks.
    pub fn from_blocks(blocks: Vec<Block>) -> (d: Document)
        ensures
            d.version == 1,
            json_blocks_model(d.blocks@) == blocks_model(blocks@),
    {
        Document { version: 1, blocks: json_blocks(&blocks) }
    }
}

} // verus!
