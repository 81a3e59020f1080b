use vstd::prelude::*;

verus! {

/// Parsed inline content element
#[derive(Debug)]
pub enum Inline {
    Text(String),
    Bold(Vec<Inline>),
    Italic(Vec<Inline>),
    Strikethrough(Vec<Inline>),
    Code(String),
    Link { text: Vec<Inline>, url: String, title: Option<String> },
    Image { alt: String, url: String, title: Option<String> },
    SoftBreak,
    HardBreak,
}

/// Mathematical model of an inline element: strings as character sequences,
/// nested children as sequences of models.
pub enum InlineModel {
    Text(Seq<char>),
    Bold(Seq<InlineModel>),
    Italic(Seq<InlineModel>),
    Strikethrough(Seq<InlineModel>),
    Code(Seq<char>),
    Link { text: Seq<InlineModel>, url: Seq<char>, title: Option<Seq<char>> },
    Image { alt: Seq<char>, url: Seq<char>, title: Option<Seq<char>> },
    SoftBreak,
    HardBreak,
}

pub open spec fn opt_str_model(o: Option<String>) -> Option<Seq<char>> {
    match o {
        Some(s) => Some(s@),
        None => None,
    }
}

pub open spec fn inline_model(i: Inline) -> InlineModel
    decreases i, 1int,
{
    match i {
        Inline::Text(s) => InlineModel::Text(s@),
        Inline::Bold(v) => InlineModel::Bold(inlines_model(v@)),
        Inline::Italic(v) => InlineModel::Italic(inlines_model(v@)),
        Inline::Strikethrough(v) => InlineModel::Strikethrough(inlines_model(v@)),
        Inline::Code(s) => InlineModel::Code(s@),
        Inline::Link { text, url, title } => InlineModel::Link {
            text: inlines_model(text@),
            url: url@,
            title: opt_str_model(title),
        },
        Inline::Image { alt, url, title } => InlineModel::Image {
            alt: alt@,
            url: url@,
            title: opt_str_model(title),
        },
        Inline::SoftBreak => InlineModel::SoftBreak,
        Inline::HardBreak => InlineModel::HardBreak,
    }
}

pub open spec fn inlines_model(s: Seq<Inline>) -> Seq<InlineModel>
    decreases s, 0int,
{
    Seq::new(s.len(), |k: int| if 0 <= k < s.len() { inline_model(s[k]) } else { InlineModel::SoftBreak })
}

} // verus!

verus! {

/// The plain text of one inline model: formatting is dropped, code and image
/// alt text are kept verbatim, a soft break reads as a space and a hard break
/// as a newline.
pub open spec fn model_text(m: InlineModel) -> Seq<char>
    decreases m, 1int,
{
    match m {
        InlineModel::Text(s) => s,
        InlineModel::Bold(v) => models_text(v),
        InlineModel::Italic(v) => models_text(v),
        InlineModel::Strikethrough(v) => models_text(v),
        InlineModel::Code(s) => s,
        InlineModel::Link { text, .. } => models_text(text),
        InlineModel::Image { alt, .. } => alt,
        InlineModel::SoftBreak => seq![' '],
        InlineModel::HardBreak => seq!['\n'],
    }
}

/// The plain text of a sequence of inline models: the texts one after another.
pub open spec fn models_text(s: Seq<InlineModel>) -> Seq<char>
    decreases s, 0int,
{
    if s.len() == 0 {
        Seq::empty()
    } else {
        models_text(s.subrange(0, s.len() - 1)) + model_text(s[s.len() - 1])
    }
}

/// Flatten inlines to plain text.
pub fn inlines_to_text(inlines: &[Inline]) -> (out: String)
    ensures
        out@ == models_text(inlines_model(inlines@)),
    decreases inlines@,
{
    let mut out = String::new();
    let n = inlines.len();
    let ghost ms = inlines_model(inlines@);
    let mut i: usize = 0;
    while i < n
        invariant
            n == inlines@.len(),
            ms == inlines_model(inlines@),
            0 <= i <= n,
            out@ == models_text(ms.subrange(0, i as int)),
        decreases n - i,
    {
        let ghost before = out@;
        proof {
            assert(ms.subrange(0, i + 1).subrange(0, i as int) =~= ms.subrange(0, i as int));
            assert(ms[i as int] == inline_model(inlines@[i as int]));
        }
        match &inlines[i] {
            Inline::Text(t) => {
                out.append(t.as_str());
            },
            Inline::Bold(inner) | Inline::Italic(inner) | Inline::Strikethrough(inner) => {
                proof {
                    assert(decreases_to!(inlines@ => inlines@[i as int]));
                }
                let t = inlines_to_text(inner.as_slice());
                out.append(t.as_str());
            },
            Inline::Code(c) => {
                out.append(c.as_str());
            },
            Inline::Link { text, .. } => {
                proof {
                    assert(decreases_to!(inlines@ => inlines@[i as int]));
                }
                let t = inlines_to_text(text.as_slice());
                out.append(t.as_str());
            },
            Inline::Image { alt, .. } => {
                out.append(alt.as_str());
            },
            Inline::SoftBreak => {
                proof { reveal_strlit(" "); }
                out.append(" ");
            },
            Inline::HardBreak => {
                proof { reveal_strlit("\n"); }
                out.append("\n");
            },
        }
        assert(out@ == before + model_text(ms[i as int]));
        i = i + 1;
    }
    proof {
        assert(ms.subrange(0, n as int) =~= ms);
    }
    out
}

} // verus!

verus! {

/// Table column alignment
#[derive(Debug, Clone, Copy, PartialEq, Eq, Structural)]
pub enum ColumnAlign {
    Unaligned,
    Left,
    Center,
    Right,
}

/// Top-level block element
#[derive(Debug)]
pub enum Block {
    Heading { level: u8, content: Vec<Inline>, anchor: String },
    Paragraph(Vec<Inline>),
    CodeBlock { language: Option<String>, code: String },
    BlockQuote(Vec<Block>),
    BulletList(Vec<ListItem>),
    OrderedList { start: u64, items: Vec<ListItem> },
    HorizontalRule,
    Table {
        alignments: Vec<ColumnAlign>,
        headers: Vec<Vec<Inline>>,
        rows: Vec<Vec<Vec<Inline>>>,
    },
}

#[derive(Debug)]
pub struct ListItem {
    pub content: Vec<Block>,
}

/// Mathematical model of a block: every string a character sequence, every
/// vector a sequence of models.
pub enum BlockModel {
    Heading { level: u8, content: Seq<InlineModel>, anchor: Seq<char> },
    Paragraph(Seq<InlineModel>),
    CodeBlock { language: Option<Seq<char>>, code: Seq<char> },
    BlockQuote(Seq<BlockModel>),
    BulletList(Seq<ListItemModel>),
    OrderedList { start: u64, items: Seq<ListItemModel> },
    HorizontalRule,
    Table {
        alignments: Seq<ColumnAlign>,
        headers: Seq<Seq<InlineModel>>,
        rows: Seq<Seq<Seq<InlineModel>>>,
    },
}

/// Mathematical model of a list item: the models of its blocks.
pub struct ListItemModel {
    pub content: Seq<BlockModel>,
}

/// The models of a row of table cells.
pub open spec fn cells_model(s: Seq<Vec<Inline>>) -> Seq<Seq<InlineModel>> {
    Seq::new(s.len(), |k: int| inlines_model(s[k]@))
}

/// The models of the body rows of a table.
pub open spec fn rows_model(s: Seq<Vec<Vec<Inline>>>) -> Seq<Seq<Seq<InlineModel>>> {
    Seq::new(s.len(), |k: int| cells_model(s[k]@))
}

pub open spec fn block_model(b: Block) -> BlockModel
    decreases b, 1int,
{
    match b {
        Block::Heading { level, content, anchor } => BlockModel::Heading {
            level,
            content: inlines_model(content@),
            anchor: anchor@,
        },
        Block::Paragraph(v) => BlockModel::Paragraph(inlines_model(v@)),
        Block::CodeBlock { language, code } => BlockModel::CodeBlock {
            language: opt_str_model(language),
            code: code@,
        },
        Block::BlockQuote(v) => BlockModel::BlockQuote(blocks_model(v@)),
        Block::BulletList(v) => BlockModel::BulletList(items_model(v@)),
        Block::OrderedList { start, items } => BlockModel::OrderedList {
            start,
            items: items_model(items@),
        },
        Block::HorizontalRule => BlockModel::HorizontalRule,
        Block::Table { alignments, headers, rows } => BlockModel::Table {
            alignments: alignments@,
            headers: cells_model(headers@),
            rows: rows_model(rows@),
        },
    }
}

pub open spec fn blocks_model(s: Seq<Block>) -> Seq<BlockModel>
    decreases s, 0int,
{
    Seq::new(s.len(), |k: int| if 0 <= k < s.len() { block_model(s[k]) } else { BlockModel::HorizontalRule })
}

pub open spec fn items_model(s: Seq<ListItem>) -> Seq<ListItemModel>
    decreases s, 0int,
{
    Seq::new(
        s.len(),
        |k: int|
            if 0 <= k < s.len() {
                ListItemModel { content: blocks_model(s[k].content@) }
            } else {
                ListItemModel { content: Seq::empty() }
            },
    )
}

} // verus!

verus! {

pub proof fn lemma_inlines_model_push(s: Seq<Inline>, x: Inline)
    ensures
        inlines_model(s.push(x)) == inlines_model(s).push(inline_model(x)),
{
    assert(inlines_model(s.push(x)) =~= inlines_model(s).push(inline_model(x)));
}

pub proof fn lemma_blocks_model_push(s: Seq<Block>, x: Block)
    ensures
        blocks_model(s.push(x)) == blocks_model(s).push(block_model(x)),
{
    assert(blocks_model(s.push(x)) =~= blocks_model(s).push(block_model(x)));
}

pub proof fn lemma_items_model_push(s: Seq<ListItem>, x: ListItem)
    ensures
        items_model(s.push(x)) == items_model(s).push(ListItemModel { content: blocks_model(x.content@) }),
{
    assert(items_model(s.push(x)) =~= items_model(s).push(
        ListItemModel { content: blocks_model(x.content@) },
    ));
}

pub proof fn lemma_cells_model_push(s: Seq<Vec<Inline>>, x: Vec<Inline>)
    ensures
        cells_model(s.push(x)) == cells_model(s).push(inlines_model(x@)),
{
    assert(cells_model(s.push(x)) =~= cells_model(s).push(inlines_model(x@)));
}

pub proof fn lemma_rows_model_push(s: Seq<Vec<Vec<Inline>>>, x: Vec<Vec<Inline>>)
    ensures
        rows_model(s.push(x)) == rows_model(s).push(cells_model(x@)),
{
    assert(rows_model(s.push(x)) =~= rows_model(s).push(cells_model(x@)));
}

} // verus!

verus! {

/// The text of two runs of inlines one after the other is the text of the
/// first followed by the text of the second.
pub proof fn law_text_of_concatenation(a: Seq<InlineModel>, b: Seq<InlineModel>)
    ensures
        models_text(a + b) == models_text(a) + models_text(b),
    decreases b.len(),
{
    if b.len() == 0 {
        assert(a + b =~= a);
        assert(models_text(a) + models_text(b) =~= models_text(a));
    } else {
        let b1 = b.subrange(0, b.len() - 1);
        law_text_of_concatenation(a, b1);
        assert((a + b).subrange(0, (a + b).len() - 1) =~= a + b1);
        assert((a + b)[(a + b).len() - 1] == b[b.len() - 1]);
        assert(models_text(a) + models_text(b1) + model_text(b[b.len() - 1]) =~= models_text(a) + (
        models_text(b1) + model_text(b[b.len() - 1])));
    }
}

proof fn lemma_text_of_one(x: InlineModel)
    ensures
        models_text(seq![x]) == model_text(x),
{
    let e = Seq::<InlineModel>::empty();
    assert(seq![x].subrange(0, 0) =~= e);
    assert(models_text(e) == Seq::<char>::empty());
    assert(models_text(e) + model_text(x) =~= model_text(x));
}

/// Formatting never changes the text: bold, italic, strikethrough and a link
/// have the plain text of what they wrap.
/// The text of each leaf element: a text or code element its own text, an
/// image its alt text, a soft break one space and a hard break one newline.
pub proof fn law_leaf_texts(t: Seq<char>, url: Seq<char>, title: Option<Seq<char>>)
    ensures
        models_text(seq![InlineModel::Text(t)]) == t,
        models_text(seq![InlineModel::Code(t)]) == t,
        models_text(seq![InlineModel::Image { alt: t, url, title }]) == t,
        models_text(seq![InlineModel::SoftBreak]) == seq![' '],
        models_text(seq![InlineModel::HardBreak]) == seq!['\n'],
{
    lemma_text_of_one(InlineModel::Text(t));
    lemma_text_of_one(InlineModel::Code(t));
    lemma_text_of_one(InlineModel::Image { alt: t, url, title });
    lemma_text_of_one(InlineModel::SoftBreak);
    lemma_text_of_one(InlineModel::HardBreak);
}

pub proof fn law_formatting_keeps_text(v: Seq<InlineModel>, url: Seq<char>, title: Option<Seq<char>>)
    ensures
        models_text(seq![InlineModel::Bold(v)]) == models_text(v),
        models_text(seq![InlineModel::Italic(v)]) == models_text(v),
        models_text(seq![InlineModel::Strikethrough(v)]) == models_text(v),
        models_text(seq![InlineModel::Link { text: v, url, title }]) == models_text(v),
{
    lemma_text_of_one(InlineModel::Bold(v));
    lemma_text_of_one(InlineModel::Italic(v));
    lemma_text_of_one(InlineModel::Strikethrough(v));
    lemma_text_of_one(InlineModel::Link { text: v, url, title });
}

} // verus!
