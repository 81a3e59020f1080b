use vstd::prelude::*;

verus! {

/// What `Path::file_name` gives for the path written as `p`: the final
/// component, unless the path ends in `..` or has no final component (`/`).
pub uninterp spec fn path_file_name(p: Seq<char>) -> Option<Seq<char>>;

/// What `Path::extension` gives for the path written as `p`: the part of the
/// file name after its last `.`, unless the name has no `.` or starts with
/// its only one.
pub uninterp spec fn path_extension(p: Seq<char>) -> Option<Seq<char>>;

/// Whether `Path::eq` holds of the paths written as `a` and `b` (the paths'
/// components compare equal).
pub uninterp spec fn same_path(a: Seq<char>, b: Seq<char>) -> bool;

/// Whether `Path::new(a) <= Path::new(b)` in the standard library's order on
/// paths (component by component).
pub uninterp spec fn path_le(a: Seq<char>, b: Seq<char>) -> bool;

/// What `str::to_lowercase` gives for a text (Unicode lowercase mapping).
pub uninterp spec fn text_lowercase(s: Seq<char>) -> Seq<char>;

/// `Path::file_name` of `Path::new(p)`, taken back into a `String`.  Trusted:
/// the result is claimed to be `path_file_name(p@)`, a function of `p` alone.
#[verifier::external_body]
pub(crate) fn file_name_of(p: &str) -> (name: Option<String>)
    ensures
        match name {
            Some(n) => path_file_name(p@) == Some(n@),
            None => path_file_name(p@) is None,
        },
{
    match std::path::Path::new(p).file_name() {
        Some(n) => n.to_str().map(String::from),
        None => None,
    }
}

/// `Path::extension` of `Path::new(p)`, taken back into a `String`.  Trusted:
/// the result is claimed to be `path_extension(p@)`, a function of `p` alone.
#[verifier::external_body]
pub(crate) fn extension_of(p: &str) -> (ext: Option<String>)
    ensures
        match ext {
            Some(e) => path_extension(p@) == Some(e@),
            None => path_extension(p@) is None,
        },
{
    match std::path::Path::new(p).extension() {
        Some(e) => e.to_str().map(String::from),
        None => None,
    }
}

/// Whether two path texts name the same path: equal texts always do, and
/// other texts do when `Path` equality says so.
pub open spec fn names_same_path(a: Seq<char>, b: Seq<char>) -> bool {
    a == b || same_path(a, b)
}

/// `Path::new(a) == Path::new(b)`.  Trusted: the result is claimed to be
/// `same_path(a@, b@)`, a function of the two texts alone; and, as `Path` is
/// `Eq` (an equivalence that compares components), to hold of equal texts
/// and to be the same with the arguments swapped.
#[verifier::external_body]
pub(crate) fn paths_equal(a: &str, b: &str) -> (eq: bool)
    ensures
        eq == same_path(a@, b@),
        eq == same_path(b@, a@),
        a@ == b@ ==> eq,
{
    std::path::Path::new(a) == std::path::Path::new(b)
}

/// `str::to_lowercase`.  Trusted: the result is claimed to be
/// `text_lowercase(s@)`, a function of `s` alone.
#[verifier::external_body]
pub(crate) fn lowercase_text(s: &str) -> (lower: String)
    ensures
        lower@ == text_lowercase(s@),
{
    s.to_lowercase()
}

/// The texts of a list of strings.
pub open spec fn texts(s: Seq<String>) -> Seq<Seq<char>> {
    s.map_values(|x: String| x@)
}

/// Whether a list of paths is in the standard library's order on paths.
pub open spec fn sorted_paths(s: Seq<Seq<char>>) -> bool {
    forall|i: int, j: int| 0 <= i < j < s.len() ==> path_le(#[trigger] s[i], #[trigger] s[j])
}

/// Sorts paths written as text the way `sort` orders a `Vec<PathBuf>`.
/// Trusted: `slice::sort` documents that it sorts by the type's `Ord`, which
/// for paths compares them component by component; the contract claims that
/// the same texts come out, each as often as it went in, in that order.
/// Which of two paths that compare equal comes first is left unsaid.
#[verifier::external_body]
pub(crate) fn sort_paths(paths: Vec<String>) -> (sorted: Vec<String>)
    ensures
        texts(sorted@).to_multiset() == texts(paths@).to_multiset(),
        forall|i: int, j: int|
            0 <= i < j < sorted@.len() ==> path_le(#[trigger] sorted@[i]@, #[trigger] sorted@[j]@),
{
    let mut ps: Vec<std::path::PathBuf> = paths.into_iter().map(std::path::PathBuf::from).collect();
    ps.sort();
    ps.into_iter().map(|p| p.to_string_lossy().into_owned()).collect()
}

/// Whether two texts hold the same characters.
pub fn text_eq(a: &str, b: &str) -> (eq: bool)
    ensures
        eq == (a@ == b@),
{
    let n = a.unicode_len();
    let m = b.unicode_len();
    if n != m {
        return false;
    }
    let mut i: usize = 0;
    while i < n
        invariant
            n == a@.len(),
            m == b@.len(),
            n == m,
            0 <= i <= n,
            a@.subrange(0, i as int) == b@.subrange(0, i as int),
        decreases n - i,
    {
        if a.get_char(i) != b.get_char(i) {
            assert(a@[i as int] != b@[i as int]);
            return false;
        }
        assert(a@.subrange(0, i + 1) =~= a@.subrange(0, i as int).push(a@[i as int]));
        assert(b@.subrange(0, i + 1) =~= b@.subrange(0, i as int).push(b@[i as int]));
        i = i + 1;
    }
    assert(a@ =~= a@.subrange(0, n as int));
    assert(b@ =~= b@.subrange(0, n as int));
    true
}

} // verus!
