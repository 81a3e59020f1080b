use vstd::prelude::*;

use crate::document::ColumnAlign;

verus! {

/// Inline formatting state (composable)
#[derive(Debug, Clone, Copy, PartialEq, Eq, Structural)]
pub struct InlineFmt {
    pub bold: bool,
    pub italic: bool,
    pub strikethrough: bool,
    pub is_link: bool,
}

impl Default for InlineFmt {
    fn default() -> (f: Self)
        ensures
            f == plain_fmt(),
    {
        InlineFmt { bold: false, italic: false, strikethrough: false, is_link: false }
    }
}

/// The format with no styling at all.
pub open spec fn plain_fmt() -> InlineFmt {
    InlineFmt { bold: false, italic: false, strikethrough: false, is_link: false }
}

/// Two formats laid over each other: a style is on where either has it on.
pub open spec fn merged(a: InlineFmt, b: InlineFmt) -> InlineFmt {
    InlineFmt {
        bold: a.bold || b.bold,
        italic: a.italic || b.italic,
        strikethrough: a.strikethrough || b.strikethrough,
        is_link: a.is_link || b.is_link,
    }
}

impl InlineFmt {
    /// OR two formats together
    pub fn merge(&self, other: InlineFmt) -> (m: InlineFmt)
        ensures
            m == merged(*self, other),
    {
        InlineFmt {
            bold: self.bold || other.bold,
            italic: self.italic || other.italic,
            strikethrough: self.strikethrough || other.strikethrough,
            is_link: self.is_link || other.is_link,
        }
    }
}

/// Nested formatting composes in any order: merging is commutative,
/// associative and idempotent, and the plain format changes nothing.
pub proof fn law_merge_composes(a: InlineFmt, b: InlineFmt, c: InlineFmt)
    ensures
        merged(a, b) == merged(b, a),
        merged(merged(a, b), c) == merged(a, merged(b, c)),
        merged(a, a) == a,
        merged(a, plain_fmt()) == a,
        merged(plain_fmt(), a) == a,
{
}

/// The in-document anchor a link points to: what follows a leading `#`.
/// Links without one lead out of the document.
pub open spec fn anchor_target(url: Seq<char>) -> Option<Seq<char>> {
    if url.len() > 0 && url[0] == '#' {
        Some(url.drop_first())
    } else {
        None
    }
}

/// The in-document anchor a link points to, if it starts with `#`.
pub fn link_anchor(url: &str) -> (anchor: Option<String>)
    ensures
        match anchor {
            Some(a) => anchor_target(url@) == Some(a@),
            None => anchor_target(url@) is None,
        },
        anchor matches Some(a) ==> url@ == seq!['#'] + a@,
        anchor is None ==> url@.len() == 0 || url@[0] != '#',
{
    let n = url.unicode_len();
    if n > 0 && url.get_char(0) == '#' {
        let rest = url.substring_char(1, n);
        assert(rest@ =~= url@.drop_first());
        Some(String::from_str(rest))
    } else {
        None
    }
}

/// The index into the heading scales for a heading level: levels 1 to 6 take
/// scales 0 to 5, level 0 the first and deeper levels the last.
pub fn heading_scale_index(level: u8) -> (idx: usize)
    ensures
        idx == if level == 0 { 0 } else if level > 6 { 5 } else { level - 1 },
        idx <= 5,
{
    let i = if level == 0 { 0usize } else { (level - 1) as usize };
    if i < 5 { i } else { 5 }
}

/// The bullet drawn before the items of a list nested `depth` lists deep.
pub fn bullet_glyph(depth: usize) -> (glyph: &'static str)
    ensures
        glyph@ == if depth % 3 == 0 {
            "•"@
        } else if depth % 3 == 1 {
            "◦"@
        } else {
            "▸"@
        },
{
    match depth % 3 {
        0 => "•",
        1 => "◦",
        _ => "▸",
    }
}

/// The number of columns of a table: that of its header or of its longest
/// body row, whichever is more.
pub fn table_column_count<T, U>(headers: &Vec<T>, rows: &Vec<Vec<U>>) -> (n: usize)
    ensures
        n >= headers@.len(),
        forall|k: int| 0 <= k < rows@.len() ==> n >= #[trigger] rows@[k]@.len(),
        n == headers@.len() || exists|k: int| 0 <= k < rows@.len() && n == #[trigger] rows@[k]@.len(),
{
    let mut n = headers.len();
    let m = rows.len();
    let mut k: usize = 0;
    while k < m
        invariant
            m == rows@.len(),
            0 <= k <= m,
            n >= headers@.len(),
            forall|j: int| 0 <= j < k ==> n >= #[trigger] rows@[j]@.len(),
            n == headers@.len() || exists|j: int| 0 <= j < k && n == #[trigger] rows@[j]@.len(),
        decreases m - k,
    {
        if rows[k].len() > n {
            n = rows[k].len();
        }
        k = k + 1;
    }
    n
}

/// The alignment of column `col` of a table; columns past the declared
/// alignments are unaligned.
pub fn column_alignment(alignments: &Vec<ColumnAlign>, col: usize) -> (a: ColumnAlign)
    ensures
        a == if col < alignments@.len() { alignments@[col as int] } else { ColumnAlign::Unaligned },
{
    if col < alignments.len() {
        alignments[col]
    } else {
        ColumnAlign::Unaligned
    }
}

} // verus!
