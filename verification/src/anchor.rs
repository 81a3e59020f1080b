use vstd::prelude::*;
use vstd::utf8::{encode_utf8, is_ascii_chars, is_ascii_chars_encode_utf8};

verus! {

/// Whether `char::is_alphanumeric` holds of a character outside ASCII
/// (Unicode's Alphabetic or Numeric property).
pub uninterp spec fn unicode_alphanumeric(c: char) -> bool;

/// Whether `char::is_whitespace` holds of a character outside ASCII
/// (Unicode's White_Space property).
pub uninterp spec fn unicode_whitespace(c: char) -> bool;

/// The characters that `char::to_lowercase` yields for a character outside
/// ASCII.
pub uninterp spec fn unicode_lowercase(c: char) -> Seq<char>;

/// Whether a character is ASCII.
pub open spec fn is_ascii_char(c: char) -> bool {
    (c as u32) < 128
}

/// The ASCII letters and digits.
pub open spec fn ascii_alphanumeric(c: char) -> bool {
    ('a' <= c && c <= 'z') || ('A' <= c && c <= 'Z') || ('0' <= c && c <= '9')
}

/// The ASCII whitespace characters: space and tab through carriage return.
pub open spec fn ascii_whitespace(c: char) -> bool {
    c == ' ' || ('\t' <= c && c <= '\r')
}

/// An ASCII character lowercased: `A`–`Z` become `a`–`z`, all else stays.
pub open spec fn ascii_lower(c: char) -> char {
    if 'A' <= c && c <= 'Z' {
        ((c as u32) + 32) as char
    } else {
        c
    }
}

/// Whether `char::is_alphanumeric` holds of a character.
pub open spec fn char_alphanumeric(c: char) -> bool {
    if is_ascii_char(c) {
        ascii_alphanumeric(c)
    } else {
        unicode_alphanumeric(c)
    }
}

/// Whether `char::is_whitespace` holds of a character.
pub open spec fn char_whitespace(c: char) -> bool {
    if is_ascii_char(c) {
        ascii_whitespace(c)
    } else {
        unicode_whitespace(c)
    }
}

/// The characters that `char::to_lowercase` yields for a character.
pub open spec fn char_lowercase(c: char) -> Seq<char> {
    if is_ascii_char(c) {
        seq![ascii_lower(c)]
    } else {
        unicode_lowercase(c)
    }
}

/// `char::is_alphanumeric`.  Trusted: on ASCII it holds of the letters and
/// digits alone (Unicode's Alphabetic and Numeric properties, which its
/// documentation names, hold of no other ASCII character); outside ASCII the
/// result is claimed to be `unicode_alphanumeric(c)`, a function of `c` alone.
#[verifier::external_body]
fn is_alphanumeric(c: char) -> (b: bool)
    ensures
        b == if is_ascii_char(c) {
            ascii_alphanumeric(c)
        } else {
            unicode_alphanumeric(c)
        },
{
    c.is_alphanumeric()
}

/// `char::is_whitespace`.  Trusted: on ASCII it holds of space and of tab
/// through carriage return (the ASCII part of Unicode's White_Space, which
/// its documentation names); outside ASCII the result is claimed to be
/// `unicode_whitespace(c)`, a function of `c` alone.
#[verifier::external_body]
fn is_whitespace(c: char) -> (b: bool)
    ensures
        b == if is_ascii_char(c) {
            ascii_whitespace(c)
        } else {
            unicode_whitespace(c)
        },
{
    c.is_whitespace()
}

/// `char::to_lowercase`, its characters collected.  Trusted: an ASCII
/// character maps to the one character `ascii_lower(c)` (Unicode's
/// lowercase mapping on ASCII); outside ASCII the result is claimed to be
/// `unicode_lowercase(c)`, a function of `c` alone.
#[verifier::external_body]
fn to_lowercase(c: char) -> (v: Vec<char>)
    ensures
        v@ == if is_ascii_char(c) {
            seq![ascii_lower(c)]
        } else {
            unicode_lowercase(c)
        },
{
    c.to_lowercase().collect()
}

/// `String::push`, which its documentation describes as appending the
/// character to the end of the string.  Trusted: that is what the contract says.
#[verifier::external_body]
pub(crate) fn push_char(s: &mut String, c: char)
    ensures
        final(s)@ == old(s)@.push(c),
{
    s.push(c)
}

/// The characters that survive the filter of an anchor slug.
pub open spec fn slug_keeps(c: char) -> bool {
    char_alphanumeric(c) || char_whitespace(c) || c == '-' || c == '_'
}

/// Every whitespace character replaced by `-`.
pub open spec fn dash_whitespace(s: Seq<char>) -> Seq<char> {
    s.map_values(|c: char| if char_whitespace(c) { '-' } else { c })
}

/// The kept characters of a text, each lowercased, whitespace turned into `-`.
pub open spec fn slug_chars(s: Seq<char>) -> Seq<char>
    decreases s.len(),
{
    if s.len() == 0 {
        Seq::empty()
    } else {
        slug_chars(s.drop_last()) + if slug_keeps(s.last()) {
            dash_whitespace(char_lowercase(s.last()))
        } else {
            Seq::empty()
        }
    }
}

/// A sequence with its leading `-` characters removed.
pub open spec fn strip_leading_dashes(s: Seq<char>) -> Seq<char>
    decreases s.len(),
{
    if s.len() > 0 && s[0] == '-' {
        strip_leading_dashes(s.drop_first())
    } else {
        s
    }
}

/// A sequence with its trailing `-` characters removed.
pub open spec fn strip_trailing_dashes(s: Seq<char>) -> Seq<char>
    decreases s.len(),
{
    if s.len() > 0 && s.last() == '-' {
        strip_trailing_dashes(s.drop_last())
    } else {
        s
    }
}

/// The slug of a character sequence once its characters are chosen: leading
/// and trailing dashes dropped.
pub open spec fn anchor_of_chars(chars: Seq<char>) -> Seq<char> {
    strip_trailing_dashes(strip_leading_dashes(chars))
}

/// The GitHub-style anchor slug of a heading text.
pub open spec fn anchor_of(text: Seq<char>) -> Seq<char> {
    anchor_of_chars(slug_chars(text))
}

/// Convert heading text to a GitHub-style anchor slug.
/// e.g. "My Heading!" → "my-heading"
pub fn heading_to_anchor(text: &str) -> (slug: String)
    ensures
        slug@ == anchor_of(text@),
        is_ascii_chars(text@) ==> slug_text(slug@) && is_ascii_chars(slug@) && slug@.len()
            <= text@.len() && encode_utf8(slug@).len() <= encode_utf8(text@).len() && anchor_of(slug@)
            == slug@,
{
    let n = text.unicode_len();
    let mut chars: Vec<char> = Vec::new();
    let mut i: usize = 0;
    while i < n
        invariant
            n == text@.len(),
            0 <= i <= n,
            chars@ == slug_chars(text@.subrange(0, i as int)),
        decreases n - i,
    {
        let c = text.get_char(i);
        proof {
            assert(text@.subrange(0, i + 1).drop_last() =~= text@.subrange(0, i as int));
        }
        if is_alphanumeric(c) || is_whitespace(c) || c == '-' || c == '_' {
            let lower = to_lowercase(c);
            let m = lower.len();
            let ghost before = chars@;
            let mut j: usize = 0;
            while j < m
                invariant
                    m == lower@.len(),
                    0 <= j <= m,
                    chars@ == before + dash_whitespace(lower@.subrange(0, j as int)),
                decreases m - j,
            {
                let d = lower[j];
                if is_whitespace(d) {
                    chars.push('-');
                } else {
                    chars.push(d);
                }
                proof {
                    assert(dash_whitespace(lower@.subrange(0, j + 1)) =~= dash_whitespace(
                        lower@.subrange(0, j as int),
                    ).push(if char_whitespace(d) { '-' } else { d }));
                }
                j = j + 1;
            }
            proof {
                assert(lower@.subrange(0, m as int) =~= lower@);
            }
        } else {
            proof {
                assert(chars@ =~= chars@ + Seq::<char>::empty());
            }
        }
        i = i + 1;
    }
    proof {
        assert(text@.subrange(0, n as int) =~= text@);
    }
    let ghost all = chars@;
    proof {
        assert(all.subrange(0, all.len() as int) =~= all);
    }
    let mut lo: usize = 0;
    let total = chars.len();
    while lo < total && chars[lo] == '-'
        invariant
            total == all.len(),
            chars@ == all,
            0 <= lo <= total,
            strip_leading_dashes(all.subrange(lo as int, total as int)) == strip_leading_dashes(all),
        decreases total - lo,
    {
        proof {
            assert(all.subrange(lo as int, total as int).drop_first() =~= all.subrange(
                lo + 1,
                total as int,
            ));
        }
        lo = lo + 1;
    }
    let ghost lead = all.subrange(lo as int, total as int);
    proof {
        assert(strip_leading_dashes(lead) == lead);
        assert(strip_leading_dashes(all) == lead);
    }
    let mut hi: usize = total;
    while hi > lo && chars[hi - 1] == '-'
        invariant
            total == all.len(),
            chars@ == all,
            lo <= hi <= total,
            lead == all.subrange(lo as int, total as int),
            strip_trailing_dashes(all.subrange(lo as int, hi as int)) == strip_trailing_dashes(lead),
        decreases hi - lo,
    {
        proof {
            assert(all.subrange(lo as int, hi as int).drop_last() =~= all.subrange(
                lo as int,
                hi - 1,
            ));
        }
        hi = hi - 1;
    }
    let ghost kept = all.subrange(lo as int, hi as int);
    proof {
        assert(strip_trailing_dashes(kept) == kept);
    }
    let mut slug = String::new();
    let mut k: usize = lo;
    while k < hi
        invariant
            chars@ == all,
            lo <= k <= hi <= total,
            total == all.len(),
            slug@ == all.subrange(lo as int, k as int),
        decreases hi - k,
    {
        push_char(&mut slug, chars[k]);
        proof {
            assert(all.subrange(lo as int, k + 1) =~= all.subrange(lo as int, k as int).push(
                all[k as int],
            ));
        }
        k = k + 1;
    }
    proof {
        if is_ascii_chars(text@) {
            law_ascii_anchor(text@);
        }
    }
    slug
}

} // verus!

verus! {

proof fn lemma_strip_leading(s: Seq<char>)
    ensures
        exists|m: int| 0 <= m <= s.len() && strip_leading_dashes(s) == s.subrange(m, s.len() as int),
        strip_leading_dashes(s).len() > 0 ==> strip_leading_dashes(s)[0] != '-',
    decreases s.len(),
{
    if s.len() > 0 && s[0] == '-' {
        lemma_strip_leading(s.drop_first());
        let m = choose|m: int|
            0 <= m <= s.drop_first().len() && strip_leading_dashes(s.drop_first())
                == s.drop_first().subrange(m, s.drop_first().len() as int);
        assert(s.drop_first().subrange(m, s.drop_first().len() as int) =~= s.subrange(
            m + 1,
            s.len() as int,
        ));
    } else {
        assert(s == s.subrange(0, s.len() as int));
    }
}

proof fn lemma_strip_trailing(s: Seq<char>)
    ensures
        exists|m: int| 0 <= m <= s.len() && strip_trailing_dashes(s) == s.subrange(0, m),
        strip_trailing_dashes(s).len() > 0 ==> strip_trailing_dashes(s).last() != '-',
    decreases s.len(),
{
    if s.len() > 0 && s.last() == '-' {
        lemma_strip_trailing(s.drop_last());
        let m = choose|m: int|
            0 <= m <= s.drop_last().len() && strip_trailing_dashes(s.drop_last())
                == s.drop_last().subrange(0, m);
        assert(s.drop_last().subrange(0, m) =~= s.subrange(0, m));
    } else {
        assert(s == s.subrange(0, s.len() as int));
    }
}

/// Every character of the slug characters of a text is `-` or not whitespace.
proof fn lemma_slug_chars_no_whitespace(s: Seq<char>)
    ensures
        forall|k: int|
            0 <= k < slug_chars(s).len() ==> #[trigger] slug_chars(s)[k] == '-'
                || !char_whitespace(slug_chars(s)[k]),
    decreases s.len(),
{
    if s.len() > 0 {
        lemma_slug_chars_no_whitespace(s.drop_last());
        let prefix = slug_chars(s.drop_last());
        let added = if slug_keeps(s.last()) {
            dash_whitespace(char_lowercase(s.last()))
        } else {
            Seq::empty()
        };
        assert forall|k: int|
            0 <= k < slug_chars(s).len() implies #[trigger] slug_chars(s)[k] == '-'
            || !char_whitespace(slug_chars(s)[k]) by {
            if k >= prefix.len() {
                assert(slug_chars(s)[k] == added[k - prefix.len()]);
            } else {
                assert(slug_chars(s)[k] == prefix[k]);
            }
        }
    }
}

/// An anchor slug never begins or ends with `-`, and every character of it
/// is `-` or a character that is not whitespace: whitespace becomes `-`.
pub proof fn law_anchor_shape(text: Seq<char>)
    ensures
        anchor_of(text).len() > 0 ==> anchor_of(text)[0] != '-' && anchor_of(text).last() != '-',
        forall|k: int|
            0 <= k < anchor_of(text).len() ==> #[trigger] anchor_of(text)[k] == '-'
                || !char_whitespace(anchor_of(text)[k]),
{
    let chars = slug_chars(text);
    let lead = strip_leading_dashes(chars);
    lemma_strip_leading(chars);
    lemma_strip_trailing(lead);
    lemma_slug_chars_no_whitespace(text);
    let m1 = choose|m: int| 0 <= m <= chars.len() && lead == chars.subrange(m, chars.len() as int);
    let m2 = choose|m: int| 0 <= m <= lead.len() && strip_trailing_dashes(lead) == lead.subrange(0, m);
    let a = anchor_of(text);
    assert(a == lead.subrange(0, m2));
    if a.len() > 0 {
        assert(a[0] == lead[0]);
    }
    assert forall|k: int| 0 <= k < a.len() implies #[trigger] a[k] == '-' || !char_whitespace(
        a[k],
    ) by {
        assert(a[k] == lead[k]);
        assert(lead[k] == chars[m1 + k]);
    }
}

/// Whether every character of a text is ASCII.
pub open spec fn ascii_text(s: Seq<char>) -> bool {
    forall|k: int| 0 <= k < s.len() ==> is_ascii_char(#[trigger] s[k])
}

/// The characters of a slug made from ASCII text: lowercase letters,
/// digits, `-` and `_`.
pub open spec fn slug_char(c: char) -> bool {
    ('a' <= c && c <= 'z') || ('0' <= c && c <= '9') || c == '-' || c == '_'
}

/// Whether every character of a text is a slug character.
pub open spec fn slug_text(s: Seq<char>) -> bool {
    forall|k: int| 0 <= k < s.len() ==> slug_char(#[trigger] s[k])
}

/// What one ASCII character contributes to the slug: at most one slug character.
proof fn lemma_ascii_char_slug(c: char)
    requires
        is_ascii_char(c),
    ensures
        ({
            let added = if slug_keeps(c) {
                dash_whitespace(char_lowercase(c))
            } else {
                Seq::empty()
            };
            added.len() <= 1 && slug_text(added)
        }),
{
    if slug_keeps(c) {
        let l = ascii_lower(c);
        assert(char_lowercase(c) == seq![l]);
        let added = dash_whitespace(char_lowercase(c));
        assert(added.len() == 1);
        assert(added[0] == if char_whitespace(l) { '-' } else { l });
        if 'A' <= c && c <= 'Z' {
            assert('a' <= l && l <= 'z');
        }
        assert(slug_char(added[0]));
    }
}

proof fn lemma_ascii_slug_chars(s: Seq<char>)
    requires
        ascii_text(s),
    ensures
        slug_text(slug_chars(s)),
        slug_chars(s).len() <= s.len(),
    decreases s.len(),
{
    if s.len() > 0 {
        let front = s.drop_last();
        assert forall|k: int| 0 <= k < front.len() implies is_ascii_char(#[trigger] front[k]) by {
            assert(front[k] == s[k]);
        }
        lemma_ascii_slug_chars(front);
        let c = s.last();
        assert(is_ascii_char(s[s.len() - 1]));
        lemma_ascii_char_slug(c);
        let prefix = slug_chars(front);
        let added = if slug_keeps(c) {
            dash_whitespace(char_lowercase(c))
        } else {
            Seq::empty()
        };
        let all = slug_chars(s);
        assert(all == prefix + added);
        assert forall|k: int| 0 <= k < all.len() implies slug_char(#[trigger] all[k]) by {
            if k < prefix.len() {
                assert(all[k] == prefix[k]);
            } else {
                assert(all[k] == added[k - prefix.len()]);
            }
        }
    }
}

/// A slug character is kept by the slug filter and left as it is.
proof fn lemma_slug_text_fixed(s: Seq<char>)
    requires
        slug_text(s),
    ensures
        slug_chars(s) == s,
    decreases s.len(),
{
    if s.len() > 0 {
        let front = s.drop_last();
        assert forall|k: int| 0 <= k < front.len() implies slug_char(#[trigger] front[k]) by {
            assert(front[k] == s[k]);
        }
        lemma_slug_text_fixed(front);
        let c = s.last();
        assert(slug_char(s[s.len() - 1]));
        assert(is_ascii_char(c));
        assert(slug_keeps(c));
        assert(ascii_lower(c) == c);
        assert(!char_whitespace(c));
        assert(dash_whitespace(char_lowercase(c)) =~= seq![c]);
        assert(s =~= front.push(c));
    }
}

proof fn lemma_strips_keep_slug_text(s: Seq<char>)
    requires
        slug_text(s),
    ensures
        slug_text(anchor_of_chars(s)),
        anchor_of_chars(s).len() <= s.len(),
{
    let lead = strip_leading_dashes(s);
    lemma_strip_leading(s);
    lemma_strip_trailing(lead);
    let m1 = choose|m: int| 0 <= m <= s.len() && lead == s.subrange(m, s.len() as int);
    let m2 = choose|m: int| 0 <= m <= lead.len() && strip_trailing_dashes(lead) == lead.subrange(0, m);
    let a = anchor_of_chars(s);
    assert forall|k: int| 0 <= k < a.len() implies slug_char(#[trigger] a[k]) by {
        assert(a[k] == lead[k]);
        assert(lead[k] == s[m1 + k]);
    }
}

/// The anchor of an ASCII heading (ASCII as `str::is_ascii` means it) holds
/// only lowercase ASCII letters, digits, `-` and `_`; it neither begins nor
/// ends with `-`; it is ASCII and no longer than the heading, counted in
/// characters or in UTF-8 bytes (as `str::len` counts); and it is its own
/// anchor.  Whitespace is not collapsed: each whitespace character of the
/// heading that survives the trimming becomes its own `-`.
pub proof fn law_ascii_anchor(text: Seq<char>)
    requires
        is_ascii_chars(text),
    ensures
        ({
            let a = anchor_of(text);
            &&& slug_text(a)
            &&& a.len() > 0 ==> a[0] != '-' && a.last() != '-'
            &&& is_ascii_chars(a)
            &&& a.len() <= text.len()
            &&& encode_utf8(a).len() <= encode_utf8(text).len()
            &&& anchor_of(a) == a
        }),
{
    assert forall|k: int| 0 <= k < text.len() implies is_ascii_char(#[trigger] text[k]) by {
        assert('\0' <= text[k] <= '\u{7f}');
    }
    let chars = slug_chars(text);
    lemma_ascii_slug_chars(text);
    lemma_strips_keep_slug_text(chars);
    let a = anchor_of(text);
    assert(a == anchor_of_chars(chars));
    lemma_slug_text_fixed(a);
    law_anchor_shape(text);
    assert(strip_leading_dashes(a) == a);
    assert(strip_trailing_dashes(a) == a);
    assert forall|k: int| 0 <= k < a.len() implies '\0' <= #[trigger] a[k] <= '\u{7f}' by {
        assert(slug_char(a[k]));
    }
    is_ascii_chars_encode_utf8(text);
    is_ascii_chars_encode_utf8(a);
}

/// What one character contributes to the slug characters of a text.
proof fn lemma_slug_chars_concat(a: Seq<char>, b: Seq<char>)
    ensures
        slug_chars(a + b) == slug_chars(a) + slug_chars(b),
    decreases b.len(),
{
    if b.len() == 0 {
        assert(a + b =~= a);
        assert(slug_chars(a) + slug_chars(b) =~= slug_chars(a));
    } else {
        let b1 = b.drop_last();
        lemma_slug_chars_concat(a, b1);
        assert((a + b).drop_last() =~= a + b1);
        assert((a + b).last() == b.last());
        let added = if slug_keeps(b.last()) {
            dash_whitespace(char_lowercase(b.last()))
        } else {
            Seq::empty()
        };
        assert(slug_chars(a) + slug_chars(b1) + added =~= slug_chars(a) + (slug_chars(b1) + added));
    }
}

/// A character that is not alphanumeric (as `char::is_alphanumeric` says),
/// not whitespace (as `char::is_whitespace` says), not `-` and not `_`, ASCII
/// or not, leaves no trace in the anchor: taking it out of the heading text
/// changes nothing.
pub proof fn law_dropped_chars_leave_no_trace(a: Seq<char>, c: char, b: Seq<char>)
    requires
        !char_alphanumeric(c),
        !char_whitespace(c),
        c != '-',
        c != '_',
    ensures
        anchor_of(a + seq![c] + b) == anchor_of(a + b),
{
    lemma_slug_chars_concat(a + seq![c], b);
    lemma_slug_chars_concat(a, seq![c]);
    lemma_slug_chars_concat(a, b);
    let one = seq![c];
    assert(one.drop_last() =~= Seq::<char>::empty());
    assert(one.last() == c);
    assert(slug_chars(one) == slug_chars(one.drop_last()));
    assert(slug_chars(one) =~= Seq::<char>::empty());
    assert(slug_chars(a) + slug_chars(one) =~= slug_chars(a));
}

} // verus!
