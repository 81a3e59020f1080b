use vstd::prelude::*;

use crate::document::{inline_model, inlines_model, model_text, models_text, Inline, InlineModel};
use crate::render::{merged, plain_fmt, InlineFmt};

verus! {

/// The colour a span is drawn in: the colour the caller asked for, the
/// strong text colour of bold runs, or the link colour.
#[derive(Debug, Clone, Copy, PartialEq, Eq, Structural)]
pub enum SpanColor {
    Base,
    Strong,
    Link,
}

/// How a span is set: as prose in the proportional font, as inline code in
/// the monospace font on the code background, or as a muted image label.
#[derive(Debug, Clone, Copy, PartialEq, Eq, Structural)]
pub enum SpanStyle {
    Prose,
    Code,
    Image,
}

/// One run of text of a laid-out paragraph with everything needed to style it.
#[derive(Debug)]
pub struct StyledSpan {
    pub text: String,
    pub style: SpanStyle,
    pub fmt: InlineFmt,
    pub color: SpanColor,
}

/// A clickable link: the spans `first..end` of the laid-out text, which
/// lead to `url`.
#[derive(Debug)]
pub struct LinkRange {
    pub first: usize,
    pub end: usize,
    pub url: String,
}

/// Mathematical model of a span.
pub struct SpanModel {
    pub text: Seq<char>,
    pub style: SpanStyle,
    pub fmt: InlineFmt,
    pub color: SpanColor,
}

/// Mathematical model of a link range.
pub struct LinkModel {
    pub first: int,
    pub end: int,
    pub url: Seq<char>,
}

pub open spec fn span_model(s: StyledSpan) -> SpanModel {
    SpanModel { text: s.text@, style: s.style, fmt: s.fmt, color: s.color }
}

pub open spec fn spans_model(s: Seq<StyledSpan>) -> Seq<SpanModel> {
    s.map_values(|x: StyledSpan| span_model(x))
}

pub open spec fn link_model(l: LinkRange) -> LinkModel {
    LinkModel { first: l.first as int, end: l.end as int, url: l.url@ }
}

pub open spec fn links_model(s: Seq<LinkRange>) -> Seq<LinkModel> {
    s.map_values(|x: LinkRange| link_model(x))
}

/// Only bold on.
pub open spec fn bold_fmt() -> InlineFmt {
    InlineFmt { bold: true, ..plain_fmt() }
}

/// Only italic on.
pub open spec fn italic_fmt() -> InlineFmt {
    InlineFmt { italic: true, ..plain_fmt() }
}

/// Only strikethrough on.
pub open spec fn strike_fmt() -> InlineFmt {
    InlineFmt { strikethrough: true, ..plain_fmt() }
}

/// Only the link mark on.
pub open spec fn link_fmt() -> InlineFmt {
    InlineFmt { is_link: true, ..plain_fmt() }
}

/// The spans one inline element lays out to, inside formatting `fmt` and
/// colour `color`.  Text and code keep the surrounding format; breaks are
/// set plain as a space or a newline; bold switches to the strong colour,
/// a link to the link colour; an image shows its alt text in brackets.
pub open spec fn model_spans(m: InlineModel, fmt: InlineFmt, color: SpanColor) -> Seq<SpanModel>
    decreases m, 1int,
{
    match m {
        InlineModel::Text(t) => seq![SpanModel { text: t, style: SpanStyle::Prose, fmt, color }],
        InlineModel::SoftBreak => seq![
            SpanModel { text: seq![' '], style: SpanStyle::Prose, fmt: plain_fmt(), color },
        ],
        InlineModel::HardBreak => seq![
            SpanModel { text: seq!['\n'], style: SpanStyle::Prose, fmt: plain_fmt(), color },
        ],
        InlineModel::Bold(v) => models_spans(v, merged(fmt, bold_fmt()), SpanColor::Strong),
        InlineModel::Italic(v) => models_spans(v, merged(fmt, italic_fmt()), color),
        InlineModel::Strikethrough(v) => models_spans(v, merged(fmt, strike_fmt()), color),
        InlineModel::Code(c) => seq![SpanModel { text: c, style: SpanStyle::Code, fmt, color }],
        InlineModel::Link { text, .. } => models_spans(
            text,
            merged(fmt, link_fmt()),
            SpanColor::Link,
        ),
        InlineModel::Image { alt, .. } => seq![
            SpanModel { text: seq!['['] + alt + seq![']'], style: SpanStyle::Image, fmt, color },
        ],
    }
}

/// The spans of a sequence of inline elements: each element's spans in turn.
pub open spec fn models_spans(s: Seq<InlineModel>, fmt: InlineFmt, color: SpanColor) -> Seq<
    SpanModel,
>
    decreases s, 0int,
{
    if s.len() == 0 {
        Seq::empty()
    } else {
        models_spans(s.subrange(0, s.len() - 1), fmt, color) + model_spans(
            s[s.len() - 1],
            fmt,
            color,
        )
    }
}

/// Links whose spans start at `at`: each covers a non-empty run of the spans
/// that holds some text, and each ends before the next begins.
pub open spec fn links_placed(spans: Seq<SpanModel>, links: Seq<LinkModel>, at: int) -> bool {
    &&& forall|k: int|
        0 <= k < links.len() ==> at <= (#[trigger] links[k]).first < links[k].end <= at
            + spans.len() && has_text(spans.subrange(links[k].first - at, links[k].end - at))
    &&& forall|j: int, k: int|
        0 <= j < k < links.len() ==> (#[trigger] links[j]).end <= (#[trigger] links[k]).first
}

/// Whether some span holds at least one character.
pub open spec fn has_text(spans: Seq<SpanModel>) -> bool {
    exists|k: int| 0 <= k < spans.len() && (#[trigger] spans[k]).text.len() > 0
}

/// The clickable links that one inline element yields when its spans start
/// at span `at`: a link whose spans hold some text covers exactly those
/// spans; links nested inside a link are not clickable on their own.
pub open spec fn model_links(m: InlineModel, fmt: InlineFmt, color: SpanColor, at: int) -> Seq<
    LinkModel,
>
    decreases m, 1int,
{
    match m {
        InlineModel::Bold(v) => models_links(v, merged(fmt, bold_fmt()), SpanColor::Strong, at),
        InlineModel::Italic(v) => models_links(v, merged(fmt, italic_fmt()), color, at),
        InlineModel::Strikethrough(v) => models_links(v, merged(fmt, strike_fmt()), color, at),
        InlineModel::Link { text, url, .. } => {
            let inner = models_spans(text, merged(fmt, link_fmt()), SpanColor::Link);
            if has_text(inner) {
                seq![LinkModel { first: at, end: at + inner.len(), url }]
            } else {
                Seq::empty()
            }
        },
        _ => Seq::empty(),
    }
}

/// The clickable links of a sequence of inline elements whose spans start at
/// span `at`.
pub open spec fn models_links(s: Seq<InlineModel>, fmt: InlineFmt, color: SpanColor, at: int) -> Seq<
    LinkModel,
>
    decreases s, 0int,
{
    if s.len() == 0 {
        Seq::empty()
    } else {
        let front = s.subrange(0, s.len() - 1);
        models_links(front, fmt, color, at) + model_links(
            s[s.len() - 1],
            fmt,
            color,
            at + models_spans(front, fmt, color).len(),
        )
    }
}

/// The links of one inline element whose spans start at `at` lie, in order
/// and without overlap, among its spans, and each covers some text.
proof fn lemma_model_links(m: InlineModel, fmt: InlineFmt, color: SpanColor, at: int)
    ensures
        links_placed(model_spans(m, fmt, color), model_links(m, fmt, color, at), at),
    decreases m, 1int,
{
    let sp = model_spans(m, fmt, color);
    match m {
        InlineModel::Bold(v) => lemma_models_links(v, merged(fmt, bold_fmt()), SpanColor::Strong, at),
        InlineModel::Italic(v) => lemma_models_links(v, merged(fmt, italic_fmt()), color, at),
        InlineModel::Strikethrough(v) => lemma_models_links(
            v,
            merged(fmt, strike_fmt()),
            color,
            at,
        ),
        InlineModel::Link { text, .. } => {
            assert(sp.subrange(0, sp.len() as int) =~= sp);
        },
        _ => {},
    }
}

/// The links of a sequence of inline elements whose spans start at `at` lie,
/// in order and without overlap, among their spans, and each covers some text.
proof fn lemma_models_links(s: Seq<InlineModel>, fmt: InlineFmt, color: SpanColor, at: int)
    ensures
        links_placed(models_spans(s, fmt, color), models_links(s, fmt, color, at), at),
    decreases s, 0int,
{
    if s.len() > 0 {
        let front = s.subrange(0, s.len() - 1);
        let last = s[s.len() - 1];
        let s1 = models_spans(front, fmt, color);
        let s2 = model_spans(last, fmt, color);
        let mid = at + s1.len();
        let l1 = models_links(front, fmt, color, at);
        let l2 = model_links(last, fmt, color, mid);
        lemma_models_links(front, fmt, color, at);
        lemma_model_links(last, fmt, color, mid);
        let sp = s1 + s2;
        let ls = l1 + l2;
        assert(sp == models_spans(s, fmt, color));
        assert(ls == models_links(s, fmt, color, at));
        assert forall|k: int| 0 <= k < ls.len() implies at <= (#[trigger] ls[k]).first < ls[k].end
            <= at + sp.len() && has_text(sp.subrange(ls[k].first - at, ls[k].end - at)) by {
            if k < l1.len() {
                assert(ls[k] == l1[k]);
                assert(sp.subrange(ls[k].first - at, ls[k].end - at) =~= s1.subrange(
                    l1[k].first - at,
                    l1[k].end - at,
                ));
            } else {
                let k2 = k - l1.len();
                assert(ls[k] == l2[k2]);
                assert(sp.subrange(ls[k].first - at, ls[k].end - at) =~= s2.subrange(
                    l2[k2].first - mid,
                    l2[k2].end - mid,
                ));
            }
        }
        assert forall|j: int, k: int| 0 <= j < k < ls.len() implies (#[trigger] ls[j]).end
            <= (#[trigger] ls[k]).first by {
            if k < l1.len() {
                assert(ls[j] == l1[j] && ls[k] == l1[k]);
            } else if j >= l1.len() {
                assert(ls[j] == l2[j - l1.len()] && ls[k] == l2[k - l1.len()]);
            } else {
                assert(ls[j] == l1[j] && ls[k] == l2[k - l1.len()]);
            }
        }
    }
}

proof fn lemma_spans_model_push(s: Seq<StyledSpan>, x: StyledSpan)
    ensures
        spans_model(s.push(x)) == spans_model(s).push(span_model(x)),
{
    assert(spans_model(s.push(x)) =~= spans_model(s).push(span_model(x)));
}

proof fn lemma_links_model_push(s: Seq<LinkRange>, x: LinkRange)
    ensures
        links_model(s.push(x)) == links_model(s).push(link_model(x)),
{
    assert(links_model(s.push(x)) =~= links_model(s).push(link_model(x)));
}

/// Whether one of the spans `start..end` holds some text.
fn spans_have_text(spans: &Vec<StyledSpan>, start: usize, end: usize) -> (b: bool)
    requires
        start <= end <= spans@.len(),
    ensures
        b == has_text(spans_model(spans@).subrange(start as int, end as int)),
{
    let ghost sub = spans_model(spans@).subrange(start as int, end as int);
    let mut k = start;
    while k < end
        invariant
            start <= k <= end <= spans@.len(),
            sub == spans_model(spans@).subrange(start as int, end as int),
            forall|j: int| 0 <= j < k - start ==> (#[trigger] sub[j]).text.len() == 0,
        decreases end - k,
    {
        assert(sub[k - start] == span_model(spans@[k as int]));
        if !spans[k].text.as_str().is_empty() {
            assert(sub[k - start].text.len() > 0);
            return true;
        }
        k = k + 1;
    }
    false
}

/// Appends the spans and clickable links of `inlines`, laid out inside
/// formatting `fmt` and colour `color`, to `spans` and `links`.
fn push_inline_spans(
    inlines: &[Inline],
    fmt: InlineFmt,
    color: SpanColor,
    spans: &mut Vec<StyledSpan>,
    links: &mut Vec<LinkRange>,
)
    ensures
        spans_model(final(spans)@) == spans_model(old(spans)@) + models_spans(
            inlines_model(inlines@),
            fmt,
            color,
        ),
        links_model(final(links)@) == links_model(old(links)@) + models_links(
            inlines_model(inlines@),
            fmt,
            color,
            old(spans)@.len() as int,
        ),
    decreases inlines@,
{
    let n = inlines.len();
    let ghost ms = inlines_model(inlines@);
    let ghost s0 = spans_model(spans@);
    let ghost l0 = links_model(links@);
    let mut i: usize = 0;
    while i < n
        invariant
            n == inlines@.len(),
            ms == inlines_model(inlines@),
            0 <= i <= n,
            spans_model(spans@) == s0 + models_spans(ms.subrange(0, i as int), fmt, color),
            links_model(links@) == l0 + models_links(ms.subrange(0, i as int), fmt, color, s0.len() as int),
        decreases n - i,
    {
        let ghost front = ms.subrange(0, i as int);
        let ghost at: int = (s0.len() + models_spans(front, fmt, color).len()) as int;
        let ghost before_spans = spans_model(spans@);
        let ghost before_links = links_model(links@);
        proof {
            assert(ms.subrange(0, i + 1).subrange(0, i as int) =~= front);
            assert(ms[i as int] == inline_model(inlines@[i as int]));
            assert(spans@.len() == before_spans.len());
            assert(at == spans@.len());
        }
        match &inlines[i] {
            Inline::Text(t) => {
                let x = StyledSpan { text: t.clone(), style: SpanStyle::Prose, fmt, color };
                proof { lemma_spans_model_push(spans@, x); }
                spans.push(x);
            },
            Inline::SoftBreak => {
                let x = StyledSpan {
                    text: String::from_str(" "),
                    style: SpanStyle::Prose,
                    fmt: InlineFmt::default(),
                    color,
                };
                proof {
                    reveal_strlit(" ");
                    assert(x.text@ =~= seq![' ']);
                    lemma_spans_model_push(spans@, x);
                }
                spans.push(x);
            },
            Inline::HardBreak => {
                let x = StyledSpan {
                    text: String::from_str("\n"),
                    style: SpanStyle::Prose,
                    fmt: InlineFmt::default(),
                    color,
                };
                proof {
                    reveal_strlit("\n");
                    assert(x.text@ =~= seq!['\n']);
                    lemma_spans_model_push(spans@, x);
                }
                spans.push(x);
            },
            Inline::Bold(inner) => {
                proof {
                    assert(decreases_to!(inlines@ => inlines@[i as int]));
                }
                let f = fmt.merge(
                    InlineFmt { bold: true, italic: false, strikethrough: false, is_link: false },
                );
                push_inline_spans(inner.as_slice(), f, SpanColor::Strong, spans, links);
            },
            Inline::Italic(inner) => {
                proof {
                    assert(decreases_to!(inlines@ => inlines@[i as int]));
                }
                let f = fmt.merge(
                    InlineFmt { bold: false, italic: true, strikethrough: false, is_link: false },
                );
                push_inline_spans(inner.as_slice(), f, color, spans, links);
            },
            Inline::Strikethrough(inner) => {
                proof {
                    assert(decreases_to!(inlines@ => inlines@[i as int]));
                }
                let f = fmt.merge(
                    InlineFmt { bold: false, italic: false, strikethrough: true, is_link: false },
                );
                push_inline_spans(inner.as_slice(), f, color, spans, links);
            },
            Inline::Code(c) => {
                let x = StyledSpan { text: c.clone(), style: SpanStyle::Code, fmt, color };
                proof { lemma_spans_model_push(spans@, x); }
                spans.push(x);
            },
            Inline::Link { text, url, .. } => {
                proof {
                    assert(decreases_to!(inlines@ => inlines@[i as int]));
                }
                let f = fmt.merge(
                    InlineFmt { bold: false, italic: false, strikethrough: false, is_link: true },
                );
                let start = spans.len();
                let mut nested: Vec<LinkRange> = Vec::new();
                push_inline_spans(text.as_slice(), f, SpanColor::Link, spans, &mut nested);
                let end = spans.len();
                let ghost inner = models_spans(inlines_model(text@), f, SpanColor::Link);
                assert(spans_model(spans@) == before_spans + inner);
                assert(before_spans.len() == start);
                assert(spans_model(spans@).subrange(start as int, end as int) =~= inner);
                if spans_have_text(spans, start, end) {
                    let x = LinkRange { first: start, end, url: url.clone() };
                    proof { lemma_links_model_push(links@, x); }
                    links.push(x);
                }
            },
            Inline::Image { alt, .. } => {
                let mut label = String::from_str("[");
                label.append(alt.as_str());
                label.append("]");
                proof {
                    reveal_strlit("[");
                    reveal_strlit("]");
                    assert(label@ =~= seq!['['] + alt@ + seq![']']);
                }
                let x = StyledSpan { text: label, style: SpanStyle::Image, fmt, color };
                proof { lemma_spans_model_push(spans@, x); }
                spans.push(x);
            },
        }
        assert(spans_model(spans@) =~= before_spans + model_spans(ms[i as int], fmt, color));
        assert(links_model(links@) =~= before_links + model_links(ms[i as int], fmt, color, at));
        proof {
            let next = ms.subrange(0, i + 1);
            assert(next.subrange(0, next.len() - 1) =~= front);
            assert(next[next.len() - 1] == ms[i as int]);
            assert(spans_model(spans@) =~= s0 + models_spans(next, fmt, color));
            assert(links_model(links@) =~= l0 + models_links(next, fmt, color, s0.len() as int));
        }
        i = i + 1;
    }
    proof {
        assert(ms.subrange(0, n as int) =~= ms);
    }
}

/// The clickable links of laid-out inline content each cover a non-empty
/// run of its spans that holds some text, in order and without overlap.
pub proof fn law_links_within_spans(inlines: Seq<InlineModel>, fmt: InlineFmt)
    ensures
        links_placed(
            models_spans(inlines, fmt, SpanColor::Base),
            models_links(inlines, fmt, SpanColor::Base, 0),
            0,
        ),
{
    lemma_models_links(inlines, fmt, SpanColor::Base, 0);
}

/// The text of a sequence of spans: their texts one after another.
pub open spec fn spans_text(spans: Seq<SpanModel>) -> Seq<char>
    decreases spans.len(),
{
    if spans.len() == 0 {
        Seq::empty()
    } else {
        spans_text(spans.drop_last()) + spans.last().text
    }
}

/// The text one inline element shows: its plain text, except that an image
/// shows its alt text in brackets.
pub open spec fn model_shown_text(m: InlineModel) -> Seq<char>
    decreases m, 1int,
{
    match m {
        InlineModel::Text(s) => s,
        InlineModel::Bold(v) => models_shown_text(v),
        InlineModel::Italic(v) => models_shown_text(v),
        InlineModel::Strikethrough(v) => models_shown_text(v),
        InlineModel::Code(s) => s,
        InlineModel::Link { text, .. } => models_shown_text(text),
        InlineModel::Image { alt, .. } => seq!['['] + alt + seq![']'],
        InlineModel::SoftBreak => seq![' '],
        InlineModel::HardBreak => seq!['\n'],
    }
}

/// The text a sequence of inline elements shows: each element's in turn.
pub open spec fn models_shown_text(s: Seq<InlineModel>) -> Seq<char>
    decreases s, 0int,
{
    if s.len() == 0 {
        Seq::empty()
    } else {
        models_shown_text(s.subrange(0, s.len() - 1)) + model_shown_text(s[s.len() - 1])
    }
}

proof fn lemma_spans_text_concat(a: Seq<SpanModel>, b: Seq<SpanModel>)
    ensures
        spans_text(a + b) == spans_text(a) + spans_text(b),
    decreases b.len(),
{
    if b.len() == 0 {
        assert(a + b =~= a);
        assert(spans_text(a) + spans_text(b) =~= spans_text(a));
    } else {
        let b1 = b.drop_last();
        lemma_spans_text_concat(a, b1);
        assert((a + b).drop_last() =~= a + b1);
        assert((a + b).last() == b.last());
        assert(spans_text(a) + spans_text(b1) + b.last().text =~= spans_text(a) + (spans_text(b1)
            + b.last().text));
    }
}

proof fn lemma_spans_text_one(x: SpanModel)
    ensures
        spans_text(seq![x]) == x.text,
{
    let one = seq![x];
    assert(one.drop_last() =~= Seq::<SpanModel>::empty());
    assert(spans_text(one.drop_last()) == Seq::<char>::empty());
    assert(one.last() == x);
    assert(spans_text(one) == spans_text(one.drop_last()) + one.last().text);
    assert(Seq::<char>::empty() + x.text =~= x.text);
}

proof fn lemma_model_spans_text(m: InlineModel, fmt: InlineFmt, color: SpanColor)
    ensures
        spans_text(model_spans(m, fmt, color)) == model_shown_text(m),
    decreases m, 1int,
{
    match m {
        InlineModel::Bold(v) => lemma_models_spans_text(v, merged(fmt, bold_fmt()), SpanColor::Strong),
        InlineModel::Italic(v) => lemma_models_spans_text(v, merged(fmt, italic_fmt()), color),
        InlineModel::Strikethrough(v) => lemma_models_spans_text(v, merged(fmt, strike_fmt()), color),
        InlineModel::Link { text, .. } => lemma_models_spans_text(
            text,
            merged(fmt, link_fmt()),
            SpanColor::Link,
        ),
        _ => lemma_spans_text_one(model_spans(m, fmt, color)[0]),
    }
}

proof fn lemma_models_spans_text(s: Seq<InlineModel>, fmt: InlineFmt, color: SpanColor)
    ensures
        spans_text(models_spans(s, fmt, color)) == models_shown_text(s),
    decreases s, 0int,
{
    if s.len() > 0 {
        let front = s.subrange(0, s.len() - 1);
        lemma_models_spans_text(front, fmt, color);
        lemma_model_spans_text(s[s.len() - 1], fmt, color);
        lemma_spans_text_concat(
            models_spans(front, fmt, color),
            model_spans(s[s.len() - 1], fmt, color),
        );
    }
}

/// Laying inline content out loses and adds no text: the texts of the spans,
/// one after another, are the content's plain text, with each image shown
/// as its alt text in brackets, whatever the starting format and colour.
pub proof fn law_spans_show_the_text(inlines: Seq<InlineModel>, fmt: InlineFmt, color: SpanColor)
    ensures
        spans_text(models_spans(inlines, fmt, color)) == models_shown_text(inlines),
{
    lemma_models_spans_text(inlines, fmt, color);
}

/// Whether an inline element holds no image at any depth.
pub open spec fn model_has_no_image(m: InlineModel) -> bool
    decreases m, 1int,
{
    match m {
        InlineModel::Bold(v) => models_have_no_image(v),
        InlineModel::Italic(v) => models_have_no_image(v),
        InlineModel::Strikethrough(v) => models_have_no_image(v),
        InlineModel::Link { text, .. } => models_have_no_image(text),
        InlineModel::Image { .. } => false,
        _ => true,
    }
}

/// Whether a sequence of inline elements holds no image at any depth.
pub open spec fn models_have_no_image(s: Seq<InlineModel>) -> bool
    decreases s, 0int,
{
    if s.len() == 0 {
        true
    } else {
        models_have_no_image(s.subrange(0, s.len() - 1)) && model_has_no_image(s[s.len() - 1])
    }
}

proof fn lemma_model_shown_is_plain(m: InlineModel)
    requires
        model_has_no_image(m),
    ensures
        model_shown_text(m) == model_text(m),
    decreases m, 1int,
{
    match m {
        InlineModel::Bold(v) => lemma_models_shown_is_plain(v),
        InlineModel::Italic(v) => lemma_models_shown_is_plain(v),
        InlineModel::Strikethrough(v) => lemma_models_shown_is_plain(v),
        InlineModel::Link { text, .. } => lemma_models_shown_is_plain(text),
        _ => {},
    }
}

proof fn lemma_models_shown_is_plain(s: Seq<InlineModel>)
    requires
        models_have_no_image(s),
    ensures
        models_shown_text(s) == models_text(s),
    decreases s, 0int,
{
    if s.len() > 0 {
        lemma_models_shown_is_plain(s.subrange(0, s.len() - 1));
        lemma_model_shown_is_plain(s[s.len() - 1]);
    }
}

/// Inline content without images shows exactly its plain text once laid
/// out: the span texts, one after another, are `inlines_to_text` of it.
pub proof fn law_spans_without_images_show_plain_text(
    inlines: Seq<InlineModel>,
    fmt: InlineFmt,
    color: SpanColor,
)
    requires
        models_have_no_image(inlines),
    ensures
        spans_text(models_spans(inlines, fmt, color)) == models_text(inlines),
{
    lemma_models_spans_text(inlines, fmt, color);
    lemma_models_shown_is_plain(inlines);
}

/// The links a reader can click in one inline element, in document order:
/// each link (at any depth of bold, italic or strikethrough, but not inside
/// another link) whose shown text is not empty, as its url and that text.
pub open spec fn model_clickable(m: InlineModel) -> Seq<(Seq<char>, Seq<char>)>
    decreases m, 1int,
{
    match m {
        InlineModel::Bold(v) => models_clickable(v),
        InlineModel::Italic(v) => models_clickable(v),
        InlineModel::Strikethrough(v) => models_clickable(v),
        InlineModel::Link { text, url, .. } => if models_shown_text(text).len() > 0 {
            seq![(url, models_shown_text(text))]
        } else {
            Seq::empty()
        },
        _ => Seq::empty(),
    }
}

/// The clickable links of a sequence of inline elements, in document order.
pub open spec fn models_clickable(s: Seq<InlineModel>) -> Seq<(Seq<char>, Seq<char>)>
    decreases s, 0int,
{
    if s.len() == 0 {
        Seq::empty()
    } else {
        models_clickable(s.subrange(0, s.len() - 1)) + model_clickable(s[s.len() - 1])
    }
}

/// Link ranges whose spans start at `at` that match the clickable links `cl`
/// one for one: same url, and the spans covered show the link's text.
pub open spec fn links_match(
    spans: Seq<SpanModel>,
    links: Seq<LinkModel>,
    at: int,
    cl: Seq<(Seq<char>, Seq<char>)>,
) -> bool {
    &&& links.len() == cl.len()
    &&& forall|k: int|
        0 <= k < links.len() ==> (#[trigger] links[k]).url == cl[k].0 && spans_text(
            spans.subrange(links[k].first - at, links[k].end - at),
        ) == cl[k].1
}

proof fn lemma_has_text_iff(sp: Seq<SpanModel>)
    ensures
        has_text(sp) <==> spans_text(sp).len() > 0,
    decreases sp.len(),
{
    if sp.len() > 0 {
        let front = sp.drop_last();
        lemma_has_text_iff(front);
        if has_text(front) {
            let k = choose|k: int| 0 <= k < front.len() && (#[trigger] front[k]).text.len() > 0;
            assert(sp[k] == front[k]);
        }
        if has_text(sp) {
            let k = choose|k: int| 0 <= k < sp.len() && (#[trigger] sp[k]).text.len() > 0;
            if k < front.len() {
                assert(front[k] == sp[k]);
            }
        }
        if sp.last().text.len() > 0 {
            assert(sp[sp.len() - 1].text.len() > 0);
        }
    }
}

proof fn lemma_model_clickable(m: InlineModel, fmt: InlineFmt, color: SpanColor, at: int)
    ensures
        links_match(model_spans(m, fmt, color), model_links(m, fmt, color, at), at, model_clickable(m)),
    decreases m, 1int,
{
    match m {
        InlineModel::Bold(v) => lemma_models_clickable(v, merged(fmt, bold_fmt()), SpanColor::Strong, at),
        InlineModel::Italic(v) => lemma_models_clickable(v, merged(fmt, italic_fmt()), color, at),
        InlineModel::Strikethrough(v) => lemma_models_clickable(
            v,
            merged(fmt, strike_fmt()),
            color,
            at,
        ),
        InlineModel::Link { text, .. } => {
            let lf = merged(fmt, link_fmt());
            let inner = models_spans(text, lf, SpanColor::Link);
            lemma_models_spans_text(text, lf, SpanColor::Link);
            lemma_has_text_iff(inner);
            assert(inner.subrange(0, inner.len() as int) =~= inner);
        },
        _ => {},
    }
}

proof fn lemma_models_clickable(s: Seq<InlineModel>, fmt: InlineFmt, color: SpanColor, at: int)
    ensures
        links_match(models_spans(s, fmt, color), models_links(s, fmt, color, at), at, models_clickable(s)),
    decreases s, 0int,
{
    if s.len() > 0 {
        let front = s.subrange(0, s.len() - 1);
        let last = s[s.len() - 1];
        let s1 = models_spans(front, fmt, color);
        let s2 = model_spans(last, fmt, color);
        let mid = at + s1.len();
        let l1 = models_links(front, fmt, color, at);
        let l2 = model_links(last, fmt, color, mid);
        let c1 = models_clickable(front);
        let c2 = model_clickable(last);
        lemma_models_clickable(front, fmt, color, at);
        lemma_model_clickable(last, fmt, color, mid);
        lemma_models_links(front, fmt, color, at);
        lemma_model_links(last, fmt, color, mid);
        let sp = s1 + s2;
        let ls = l1 + l2;
        let cl = c1 + c2;
        assert(sp == models_spans(s, fmt, color));
        assert(ls == models_links(s, fmt, color, at));
        assert(cl == models_clickable(s));
        assert forall|k: int| 0 <= k < ls.len() implies (#[trigger] ls[k]).url == cl[k].0
            && spans_text(sp.subrange(ls[k].first - at, ls[k].end - at)) == cl[k].1 by {
            if k < l1.len() {
                assert(ls[k] == l1[k]);
                assert(cl[k] == c1[k]);
                assert(sp.subrange(ls[k].first - at, ls[k].end - at) =~= s1.subrange(
                    l1[k].first - at,
                    l1[k].end - at,
                ));
            } else {
                let k2 = k - l1.len();
                assert(ls[k] == l2[k2]);
                assert(cl[k] == c2[k2]);
                assert(sp.subrange(ls[k].first - at, ls[k].end - at) =~= s2.subrange(
                    l2[k2].first - mid,
                    l2[k2].end - mid,
                ));
            }
        }
    }
}

/// Every link a reader can see is clickable, at any depth of bold, italic or
/// strikethrough: the link ranges of laid-out content are, one for one and
/// in document order, the links of the content whose shown text is not
/// empty and that lie inside no other link; each has that link's url, and
/// the spans it covers show exactly that link's text.
pub proof fn law_visible_links_are_clickable(inlines: Seq<InlineModel>, fmt: InlineFmt)
    ensures
        ({
            let spans = models_spans(inlines, fmt, SpanColor::Base);
            let links = models_links(inlines, fmt, SpanColor::Base, 0);
            let cl = models_clickable(inlines);
            &&& links.len() == cl.len()
            &&& forall|k: int|
                0 <= k < links.len() ==> (#[trigger] links[k]).url == cl[k].0 && spans_text(
                    spans.subrange(links[k].first, links[k].end),
                ) == cl[k].1
        }),
{
    lemma_models_clickable(inlines, fmt, SpanColor::Base, 0);
}

/// Lays out inline content as styled spans, starting from formatting `fmt`
/// in the caller's colour, together with the clickable links among them.
pub fn layout_spans(inlines: &[Inline], fmt: InlineFmt) -> (r: (Vec<StyledSpan>, Vec<LinkRange>))
    ensures
        spans_model(r.0@) == models_spans(inlines_model(inlines@), fmt, SpanColor::Base),
        links_model(r.1@) == models_links(inlines_model(inlines@), fmt, SpanColor::Base, 0),
{
    let mut spans: Vec<StyledSpan> = Vec::new();
    let mut links: Vec<LinkRange> = Vec::new();
    push_inline_spans(inlines, fmt, SpanColor::Base, &mut spans, &mut links);
    assert(spans_model(Seq::<StyledSpan>::empty()) =~= Seq::<SpanModel>::empty());
    assert(links_model(Seq::<LinkRange>::empty()) =~= Seq::<LinkModel>::empty());
    (spans, links)
}

} // verus!
