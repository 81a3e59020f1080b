use vstd::prelude::*;

use crate::paths::{names_same_path, paths_equal, texts};

verus! {

#[derive(Debug, Clone, Copy, PartialEq, Eq, Structural)]
pub enum ThemeMode {
    Light,
    Dark,
    Custom,
}

impl Default for ThemeMode {
    fn default() -> (m: Self)
        ensures
            m == ThemeMode::Dark,
    {
        ThemeMode::Dark
    }
}

#[derive(Debug, Clone, Copy, PartialEq, Eq, Structural)]
pub enum ContentWidth {
    Narrow,
    Medium,
    Wide,
    Full,
}

impl Default for ContentWidth {
    fn default() -> (w: Self)
        ensures
            w == ContentWidth::Medium,
    {
        ContentWidth::Medium
    }
}

impl ContentWidth {
    /// The widest the content column gets, in pixels; `None` for full width.
    pub fn max_width_px(&self) -> (px: Option<u32>)
        ensures
            px == match *self {
                ContentWidth::Narrow => Some(600u32),
                ContentWidth::Medium => Some(800u32),
                ContentWidth::Wide => Some(1100u32),
                ContentWidth::Full => None,
            },
    {
        match self {
            ContentWidth::Narrow => Some(600),
            ContentWidth::Medium => Some(800),
            ContentWidth::Wide => Some(1100),
            ContentWidth::Full => None,
        }
    }

    /// The name the settings panel shows for a width.
    pub fn label(&self) -> (l: &'static str)
        ensures
            l@ == match *self {
                ContentWidth::Narrow => "Narrow (600px)"@,
                ContentWidth::Medium => "Medium (800px)"@,
                ContentWidth::Wide => "Wide (1100px)"@,
                ContentWidth::Full => "Full Width"@,
            },
    {
        match self {
            ContentWidth::Narrow => "Narrow (600px)",
            ContentWidth::Medium => "Medium (800px)",
            ContentWidth::Wide => "Wide (1100px)",
            ContentWidth::Full => "Full Width",
        }
    }
}

#[derive(Debug, Clone, Copy)]
pub struct ColorConfig {
    pub background: [u8; 3],
    pub surface: [u8; 3],
    pub text: [u8; 3],
    pub heading: [u8; 3],
    pub link: [u8; 3],
    pub code_bg: [u8; 3],
    pub code_text: [u8; 3],
    pub blockquote_border: [u8; 3],
    pub blockquote_bg: [u8; 3],
    pub hr_color: [u8; 3],
}

/// An RGB triple.
pub open spec fn rgb(c: [u8; 3], r: u8, g: u8, b: u8) -> bool {
    c@ == seq![r, g, b]
}

/// The dark palette (Catppuccin Mocha inspired).
pub open spec fn is_dark_palette(c: ColorConfig) -> bool {
    &&& rgb(c.background, 30, 30, 46)
    &&& rgb(c.surface, 49, 50, 68)
    &&& rgb(c.text, 205, 214, 244)
    &&& rgb(c.heading, 137, 180, 250)
    &&& rgb(c.link, 137, 220, 235)
    &&& rgb(c.code_bg, 49, 50, 68)
    &&& rgb(c.code_text, 166, 227, 161)
    &&& rgb(c.blockquote_border, 108, 112, 134)
    &&& rgb(c.blockquote_bg, 40, 41, 56)
    &&& rgb(c.hr_color, 108, 112, 134)
}

/// The light palette.
pub open spec fn is_light_palette(c: ColorConfig) -> bool {
    &&& rgb(c.background, 250, 249, 247)
    &&& rgb(c.surface, 238, 236, 233)
    &&& rgb(c.text, 40, 36, 32)
    &&& rgb(c.heading, 20, 100, 180)
    &&& rgb(c.link, 0, 120, 180)
    &&& rgb(c.code_bg, 238, 236, 233)
    &&& rgb(c.code_text, 60, 100, 40)
    &&& rgb(c.blockquote_border, 180, 160, 140)
    &&& rgb(c.blockquote_bg, 245, 242, 238)
    &&& rgb(c.hr_color, 200, 190, 180)
}

impl Default for ColorConfig {
    fn default() -> (c: Self)
        ensures
            is_dark_palette(c),
    {
        // Catppuccin Mocha inspired dark theme
        Self {
            background: [30, 30, 46],  // #1e1e2e
            surface: [49, 50, 68],  // #313244
            text: [205, 214, 244],  // #cdd6f4
            heading: [137, 180, 250],  // #89b4fa
            link: [137, 220, 235],  // #89dceb
            code_bg: [49, 50, 68],  // #313244
            code_text: [166, 227, 161],  // #a6e3a1
            blockquote_border: [108, 112, 134],  // #6c7086
            blockquote_bg: [40, 41, 56],  // #282838
            hr_color: [108, 112, 134],  // #6c7086
        }
    }
}

impl ColorConfig {
    pub fn light_defaults() -> (c: Self)
        ensures
            is_light_palette(c),
    {
        Self {
            background: [250, 249, 247],  // warm white
            surface: [238, 236, 233],  // #eeece9
            text: [40, 36, 32],  // dark brown
            heading: [20, 100, 180],  // deep blue
            link: [0, 120, 180],  // blue
            code_bg: [238, 236, 233],  // light gray
            code_text: [60, 100, 40],  // dark green
            blockquote_border: [180, 160, 140],
            blockquote_bg: [245, 242, 238],
            hr_color: [200, 190, 180],
        }
    }
}

/// Switches to the light theme and its palette.
pub fn apply_light_theme(theme: &mut ThemeMode, colors: &mut ColorConfig)
    ensures
        *final(theme) == ThemeMode::Light,
        is_light_palette(*final(colors)),
{
    *theme = ThemeMode::Light;
    *colors = ColorConfig::light_defaults();
}

/// Switches to the dark theme and its palette.
pub fn apply_dark_theme(theme: &mut ThemeMode, colors: &mut ColorConfig)
    ensures
        *final(theme) == ThemeMode::Dark,
        is_dark_palette(*final(colors)),
{
    *theme = ThemeMode::Dark;
    *colors = ColorConfig::default();
}

/// Puts back the palette of the current theme: the light one for the light
/// theme; otherwise the dark one, which also makes the theme dark.
pub fn reset_colors(theme: &mut ThemeMode, colors: &mut ColorConfig)
    ensures
        *old(theme) == ThemeMode::Light ==> *final(theme) == ThemeMode::Light && is_light_palette(
            *final(colors),
        ),
        *old(theme) != ThemeMode::Light ==> *final(theme) == ThemeMode::Dark && is_dark_palette(
            *final(colors),
        ),
{
    match theme {
        ThemeMode::Light => apply_light_theme(theme, colors),
        _ => apply_dark_theme(theme, colors),
    }
}

/// The longest the recent-files list gets.
pub const MAX_RECENT_FILES: usize = 10;

/// The entries of a list that do not name the same path as `p`, in order.
pub open spec fn other_paths(list: Seq<Seq<char>>, p: Seq<char>) -> Seq<Seq<char>>
    decreases list.len(),
{
    if list.len() == 0 {
        Seq::empty()
    } else {
        let rest = other_paths(list.drop_last(), p);
        if names_same_path(list.last(), p) {
            rest
        } else {
            rest.push(list.last())
        }
    }
}

/// The recent-files list after opening `p`: `p` first, then the earlier
/// entries that name another path, in their order, at most ten in all.
pub open spec fn recent_after_open(list: Seq<Seq<char>>, p: Seq<char>) -> Seq<Seq<char>> {
    let all = seq![p] + other_paths(list, p);
    if all.len() > MAX_RECENT_FILES {
        all.subrange(0, MAX_RECENT_FILES as int)
    } else {
        all
    }
}

/// No entry of the list names the same path as an entry before it.
pub open spec fn no_repeated_path(list: Seq<Seq<char>>) -> bool {
    forall|i: int, j: int|
        0 <= i < j < list.len() ==> !names_same_path(#[trigger] list[j], #[trigger] list[i])
}

proof fn lemma_other_paths(list: Seq<Seq<char>>, p: Seq<char>)
    ensures
        other_paths(list, p).len() <= list.len(),
        forall|k: int|
            0 <= k < other_paths(list, p).len() ==> !names_same_path(#[trigger] other_paths(list, p)[k], p)
                && list.contains(other_paths(list, p)[k]),
        no_repeated_path(list) ==> no_repeated_path(other_paths(list, p)),
    decreases list.len(),
{
    if list.len() > 0 {
        let front = list.drop_last();
        lemma_other_paths(front, p);
        let rest = other_paths(front, p);
        assert forall|k: int| 0 <= k < rest.len() implies list.contains(#[trigger] rest[k]) by {
            let w = choose|w: int| 0 <= w < front.len() && front[w] == rest[k];
            assert(list[w] == rest[k]);
        }
        if no_repeated_path(list) && !names_same_path(list.last(), p) {
            let r = rest.push(list.last());
            assert forall|i: int, j: int| 0 <= i < j < r.len() implies !names_same_path(
                #[trigger] r[j],
                #[trigger] r[i],
            ) by {
                if j == r.len() - 1 {
                    let w = choose|w: int| 0 <= w < front.len() && front[w] == rest[i];
                    assert(list[w] == r[i]);
                    assert(list[list.len() - 1] == r[j]);
                } else {
                    assert(r[i] == rest[i] && r[j] == rest[j]);
                }
            }
        }
    }
}

/// What opening a file does to the recent-files list: the opened path comes
/// first, no later entry names the same path, there are never more than ten
/// entries, every other entry was in the list before, and a list in which no
/// path was named twice stays so.
pub proof fn law_recent_after_open(list: Seq<Seq<char>>, p: Seq<char>)
    ensures
        ({
            let r = recent_after_open(list, p);
            &&& 1 <= r.len() <= MAX_RECENT_FILES
            &&& r[0] == p
            &&& forall|k: int| 1 <= k < r.len() ==> !names_same_path(#[trigger] r[k], p)
            &&& forall|k: int| 1 <= k < r.len() ==> list.contains(#[trigger] r[k])
            &&& no_repeated_path(list) ==> no_repeated_path(r)
        }),
{
    lemma_other_paths(list, p);
    let others = other_paths(list, p);
    let all = seq![p] + others;
    let r = recent_after_open(list, p);
    assert forall|k: int| 1 <= k < r.len() implies r[k] == others[k - 1] by {
        assert(r[k] == all[k]);
    }
    assert forall|k: int| 1 <= k < r.len() implies !names_same_path(#[trigger] r[k], p) && list.contains(
        r[k],
    ) by {
        assert(r[k] == others[k - 1]);
    }
    if no_repeated_path(list) {
        assert forall|i: int, j: int| 0 <= i < j < r.len() implies !names_same_path(
            #[trigger] r[j],
            #[trigger] r[i],
        ) by {
            assert(r[j] == others[j - 1]);
            if i > 0 {
                assert(r[i] == others[i - 1]);
            }
        }
    }
}

/// A list that starts with `p`, followed by entries none of which names the
/// same path as `p`, keeps exactly those entries when `p` is filtered out.
proof fn lemma_other_paths_after_front(p: Seq<char>, q: Seq<Seq<char>>)
    requires
        forall|k: int| 0 <= k < q.len() ==> !names_same_path(#[trigger] q[k], p),
    ensures
        other_paths(seq![p] + q, p) == q,
    decreases q.len(),
{
    let r = seq![p] + q;
    if q.len() == 0 {
        assert(r.drop_last() =~= Seq::<Seq<char>>::empty());
        assert(r.last() == p);
        assert(names_same_path(r.last(), p));
        assert(other_paths(r, p) == other_paths(r.drop_last(), p));
        assert(q =~= Seq::<Seq<char>>::empty());
    } else {
        let q1 = q.drop_last();
        assert forall|k: int| 0 <= k < q1.len() implies !names_same_path(#[trigger] q1[k], p) by {
            assert(q1[k] == q[k]);
        }
        lemma_other_paths_after_front(p, q1);
        assert(r.drop_last() =~= seq![p] + q1);
        assert(r.last() == q[q.len() - 1]);
        assert(!names_same_path(q[q.len() - 1], p));
        assert(other_paths(r, p) == other_paths(r.drop_last(), p).push(r.last()));
        assert(q1.push(q.last()) =~= q);
    }
}

/// Opening the file that was just opened leaves the recent-files list as it is.
pub proof fn law_reopen_keeps_recent(list: Seq<Seq<char>>, p: Seq<char>)
    ensures
        recent_after_open(recent_after_open(list, p), p) == recent_after_open(list, p),
{
    law_recent_after_open(list, p);
    let r = recent_after_open(list, p);
    let q = r.drop_first();
    assert forall|k: int| 0 <= k < q.len() implies !names_same_path(#[trigger] q[k], p) by {
        assert(q[k] == r[k + 1]);
    }
    assert(r =~= seq![p] + q);
    lemma_other_paths_after_front(p, q);
    assert(seq![p] + other_paths(r, p) =~= r);
}

/// Moves `path` to the front of the recent-files list, dropping any earlier
/// entry for the same path and keeping at most ten entries.
pub fn add_recent_file(recent_files: &mut Vec<String>, path: String)
    ensures
        texts(final(recent_files)@) == recent_after_open(texts(old(recent_files)@), path@),
{
    let mut earlier: Vec<String> = Vec::new();
    std::mem::swap(&mut earlier, recent_files);
    let ghost old_list = texts(earlier@);
    let n = earlier.len();
    let mut k: usize = 0;
    while k < n
        invariant
            n == earlier@.len(),
            old_list == texts(earlier@),
            0 <= k <= n,
            texts(recent_files@) == other_paths(old_list.subrange(0, k as int), path@),
        decreases n - k,
    {
        proof {
            assert(old_list.subrange(0, k + 1).drop_last() =~= old_list.subrange(0, k as int));
        }
        if !paths_equal(earlier[k].as_str(), path.as_str()) {
            recent_files.push(earlier[k].clone());
            assert(texts(recent_files@) =~= other_paths(old_list.subrange(0, k as int), path@).push(
                earlier@[k as int]@,
            ));
        }
        k = k + 1;
    }
    proof {
        assert(old_list.subrange(0, n as int) =~= old_list);
    }
    let ghost others = texts(recent_files@);
    recent_files.insert(0, path);
    assert(texts(recent_files@) =~= seq![path@] + others);
    recent_files.truncate(MAX_RECENT_FILES);
    assert(texts(recent_files@) =~= recent_after_open(old_list, path@));
}

} // verus!
