use vstd::prelude::*;

use crate::file_loader::{is_markdown_path, FileLoader};
use crate::paths::{
    file_name_of, path_file_name, names_same_path, path_le, paths_equal, same_path, sort_paths, sorted_paths, texts,
};

verus! {

/// A node in the file tree
#[derive(Debug)]
pub enum TreeNode {
    File(String),
    Dir { path: String, children: Vec<TreeNode>, expanded: bool },
}

/// The path a node stands for.
pub open spec fn node_path(n: TreeNode) -> Seq<char> {
    match n {
        TreeNode::File(p) => p@,
        TreeNode::Dir { path, .. } => path@,
    }
}

/// The name shown for a node: the file name of its path, or nothing.
pub open spec fn node_name(n: TreeNode) -> Seq<char> {
    match path_file_name(node_path(n)) {
        Some(name) => name,
        None => Seq::empty(),
    }
}

impl TreeNode {
    pub fn path(&self) -> (p: &str)
        ensures
            p@ == node_path(*self),
    {
        match self {
            TreeNode::File(p) => p.as_str(),
            TreeNode::Dir { path, .. } => path.as_str(),
        }
    }

    pub fn name(&self) -> (name: String)
        ensures
            name@ == node_name(*self),
    {
        match file_name_of(self.path()) {
            Some(n) => n,
            None => String::new(),
        }
    }

    pub fn is_dir(&self) -> (b: bool)
        ensures
            b == (*self is Dir),
    {
        match self {
            TreeNode::Dir { .. } => true,
            TreeNode::File(_) => false,
        }
    }
}

/// The file browser panel state
pub struct FileBrowser {
    pub roots: Vec<TreeNode>,
    pub visible: bool,
}

impl Default for FileBrowser {
    fn default() -> (b: Self)
        ensures
            b.roots@.len() == 0,
            b.visible,
            distinct_roots(b.roots@),
    {
        Self { roots: Vec::new(), visible: true }
    }
}

/// Whether some root of the list stands for the same path as `p`.
pub open spec fn has_root(roots: Seq<TreeNode>, p: Seq<char>) -> bool {
    exists|i: int| 0 <= i < roots.len() && names_same_path(node_path(#[trigger] roots[i]), p)
}

/// The roots after adding `tree`: unchanged when a root for its path is
/// there already, `tree` appended otherwise.
pub open spec fn roots_after_add(roots: Seq<TreeNode>, tree: TreeNode) -> Seq<TreeNode> {
    if has_root(roots, node_path(tree)) {
        roots
    } else {
        roots.push(tree)
    }
}

/// Once a path is added, the browser has a root for it, and adding the same
/// path again (the same tree or another one built for that path) adds
/// nothing and changes nothing.
pub proof fn law_add_path_twice(roots: Seq<TreeNode>, tree: TreeNode, again: TreeNode)
    requires
        node_path(again) == node_path(tree),
    ensures
        has_root(roots_after_add(roots, tree), node_path(tree)),
        roots_after_add(roots_after_add(roots, tree), again) == roots_after_add(roots, tree),
{
    let after = roots_after_add(roots, tree);
    if !has_root(roots, node_path(tree)) {
        assert(after[roots.len() as int] == tree);
        assert(names_same_path(node_path(after[roots.len() as int]), node_path(tree)));
    }
}

/// Two trees for paths that are not the same path are both kept, whatever
/// their file names: only a root for the same path makes `add_path` refuse.
pub proof fn law_different_paths_both_added(roots: Seq<TreeNode>, first: TreeNode, second: TreeNode)
    requires
        forall|i: int|
            0 <= i < roots.len() ==> !names_same_path(node_path(#[trigger] roots[i]), node_path(first))
                && !names_same_path(node_path(roots[i]), node_path(second)),
        node_path(first) != node_path(second),
        !same_path(node_path(first), node_path(second)),
    ensures
        roots_after_add(roots_after_add(roots, first), second) == roots.push(first).push(second),
{
    let r1 = roots.push(first);
    assert(roots_after_add(roots, first) == r1);
    assert forall|i: int| 0 <= i < r1.len() implies !names_same_path(
        node_path(#[trigger] r1[i]),
        node_path(second),
    ) by {
        if i < roots.len() {
            assert(r1[i] == roots[i]);
        }
    }
}

/// No root stands for the same path as a root before it.
pub open spec fn distinct_roots(roots: Seq<TreeNode>) -> bool {
    forall|i: int, j: int|
        0 <= i < j < roots.len() ==> !names_same_path(
            node_path(#[trigger] roots[i]),
            node_path(#[trigger] roots[j]),
        )
}

impl FileBrowser {
    /// Whether some root stands for the same path as `path`.
    pub fn contains_path(&self, path: &str) -> (b: bool)
        ensures
            b == has_root(self.roots@, path@),
            b == exists|i: int|
                0 <= i < self.roots@.len() && (node_path(#[trigger] self.roots@[i]) == path@
                    || same_path(node_path(self.roots@[i]), path@)),
    {
        let n = self.roots.len();
        let mut i: usize = 0;
        while i < n
            invariant
                n == self.roots@.len(),
                0 <= i <= n,
                forall|k: int|
                    0 <= k < i ==> !names_same_path(node_path(#[trigger] self.roots@[k]), path@),
            decreases n - i,
        {
            if paths_equal(self.roots[i].path(), path) {
                return true;
            }
            i = i + 1;
        }
        false
    }

    /// Adds the tree built for a file or directory as a new root, unless a
    /// root for the same path is already there.  Returns true if it was added.
    pub fn add_path(&mut self, tree: TreeNode) -> (added: bool)
        ensures
            added == !has_root(old(self).roots@, node_path(tree)),
            added == !exists|i: int|
                0 <= i < old(self).roots@.len() && (node_path(#[trigger] old(self).roots@[i])
                    == node_path(tree) || same_path(node_path(old(self).roots@[i]), node_path(tree))),
            final(self).roots@ == roots_after_add(old(self).roots@, tree),
            final(self).visible == old(self).visible,
            distinct_roots(old(self).roots@) ==> distinct_roots(final(self).roots@),
    {
        if self.contains_path(tree.path()) {
            return false;
        }
        let ghost before = self.roots@;
        self.roots.push(tree);
        assert forall|a: int, b: int|
            distinct_roots(before) && 0 <= a < b < self.roots@.len() implies !names_same_path(
            node_path(#[trigger] self.roots@[a]),
            node_path(#[trigger] self.roots@[b]),
        ) by {
            assert(self.roots@[a] == before[a]);
            if b < before.len() {
                assert(self.roots@[b] == before[b]);
            }
        }
        true
    }

    /// Removes the root at `idx`, if there is one.
    pub fn remove_root(&mut self, idx: usize)
        ensures
            idx < old(self).roots@.len() ==> final(self).roots@ == old(self).roots@.remove(idx as int),
            idx >= old(self).roots@.len() ==> final(self).roots@ == old(self).roots@,
            final(self).visible == old(self).visible,
            distinct_roots(old(self).roots@) ==> distinct_roots(final(self).roots@),
    {
        if idx < self.roots.len() {
            let ghost before = self.roots@;
            self.roots.remove(idx);
            assert forall|a: int, b: int|
                distinct_roots(before) && 0 <= a < b < self.roots@.len() implies !names_same_path(
                node_path(#[trigger] self.roots@[a]),
                node_path(#[trigger] self.roots@[b]),
            ) by {
                let a0 = if a < idx { a } else { a + 1 };
                let b0 = if b < idx { b } else { b + 1 };
                assert(self.roots@[a] == before[a0]);
                assert(self.roots@[b] == before[b0]);
            }
        }
    }
}

/// One entry of a directory listing: its path, and whether it is a directory.
#[derive(Debug)]
pub struct DirEntry {
    pub path: String,
    pub is_dir: bool,
}

/// Whether a path is hidden: its file name starts with a dot.
pub open spec fn is_hidden(p: Seq<char>) -> bool {
    match path_file_name(p) {
        Some(n) => n.len() > 0 && n[0] == '.',
        None => false,
    }
}

/// The subdirectories of a listing that the browser shows, in listing order:
/// those that are not hidden.
pub open spec fn shown_dirs(entries: Seq<DirEntry>) -> Seq<Seq<char>>
    decreases entries.len(),
{
    if entries.len() == 0 {
        Seq::empty()
    } else {
        let rest = shown_dirs(entries.drop_last());
        let e = entries.last();
        if e.is_dir && !is_hidden(e.path@) {
            rest.push(e.path@)
        } else {
            rest
        }
    }
}

/// The files of a listing that the browser shows, in listing order: the
/// markdown files that are not hidden.
pub open spec fn shown_files(entries: Seq<DirEntry>) -> Seq<Seq<char>>
    decreases entries.len(),
{
    if entries.len() == 0 {
        Seq::empty()
    } else {
        let rest = shown_files(entries.drop_last());
        let e = entries.last();
        if !e.is_dir && !is_hidden(e.path@) && is_markdown_path(e.path@) {
            rest.push(e.path@)
        } else {
            rest
        }
    }
}

/// Whether the file name of a path starts with a dot, written out.
pub open spec fn dot_named(p: Seq<char>) -> bool {
    path_file_name(p) matches Some(n) && n.len() > 0 && n[0] == '.'
}

proof fn lemma_shown_entries(entries: Seq<DirEntry>)
    ensures
        forall|k: int|
            0 <= k < entries.len() ==> ((#[trigger] entries[k]).is_dir && !dot_named(entries[k].path@)
                ==> shown_dirs(entries).contains(entries[k].path@)),
        forall|k: int|
            0 <= k < entries.len() ==> (!(#[trigger] entries[k]).is_dir && !dot_named(
                entries[k].path@,
            ) && is_markdown_path(entries[k].path@) ==> shown_files(entries).contains(
                entries[k].path@,
            )),
        forall|x: Seq<char>|
            #[trigger] shown_dirs(entries).contains(x) ==> exists|k: int|
                0 <= k < entries.len() && (#[trigger] entries[k]).is_dir && !dot_named(
                    entries[k].path@,
                ) && entries[k].path@ == x,
        forall|x: Seq<char>|
            #[trigger] shown_files(entries).contains(x) ==> exists|k: int|
                0 <= k < entries.len() && !(#[trigger] entries[k]).is_dir && !dot_named(
                    entries[k].path@,
                ) && is_markdown_path(entries[k].path@) && entries[k].path@ == x,
    decreases entries.len(),
{
    if entries.len() > 0 {
        let front = entries.drop_last();
        lemma_shown_entries(front);
        let e = entries.last();
        let last = entries.len() - 1;
        assert(entries[last] == e);
        assert forall|k: int| 0 <= k < last implies entries[k] == front[k] by {}
        let d0 = shown_dirs(front);
        let f0 = shown_files(front);
        let d = shown_dirs(entries);
        let f = shown_files(entries);
        assert forall|k: int|
            0 <= k < entries.len() && (#[trigger] entries[k]).is_dir && !dot_named(entries[k].path@)
            implies d.contains(entries[k].path@) by {
            if k < last {
                assert(entries[k] == front[k]);
                assert(d0.contains(front[k].path@));
                let w = choose|w: int| 0 <= w < d0.len() && d0[w] == front[k].path@;
                assert(d[w] == d0[w]);
            } else {
                assert(d[d.len() - 1] == e.path@);
            }
        }
        assert forall|k: int|
            0 <= k < entries.len() && !(#[trigger] entries[k]).is_dir && !dot_named(
                entries[k].path@,
            ) && is_markdown_path(entries[k].path@) implies f.contains(entries[k].path@) by {
            if k < last {
                assert(entries[k] == front[k]);
                assert(f0.contains(front[k].path@));
                let w = choose|w: int| 0 <= w < f0.len() && f0[w] == front[k].path@;
                assert(f[w] == f0[w]);
            } else {
                assert(f[f.len() - 1] == e.path@);
            }
        }
        assert forall|x: Seq<char>| #[trigger] d.contains(x) implies exists|k: int|
            0 <= k < entries.len() && (#[trigger] entries[k]).is_dir && !dot_named(entries[k].path@)
                && entries[k].path@ == x by {
            let w = choose|w: int| 0 <= w < d.len() && d[w] == x;
            if w < d0.len() {
                assert(d0[w] == x);
                assert(d0.contains(x));
                let k = choose|k: int|
                    0 <= k < front.len() && (#[trigger] front[k]).is_dir && !dot_named(
                        front[k].path@,
                    ) && front[k].path@ == x;
                assert(entries[k] == front[k]);
            } else {
                assert(entries[last].path@ == x);
            }
        }
        assert forall|x: Seq<char>| #[trigger] f.contains(x) implies exists|k: int|
            0 <= k < entries.len() && !(#[trigger] entries[k]).is_dir && !dot_named(
                entries[k].path@,
            ) && is_markdown_path(entries[k].path@) && entries[k].path@ == x by {
            let w = choose|w: int| 0 <= w < f.len() && f[w] == x;
            if w < f0.len() {
                assert(f0[w] == x);
                assert(f0.contains(x));
                let k = choose|k: int|
                    0 <= k < front.len() && !(#[trigger] front[k]).is_dir && !dot_named(
                        front[k].path@,
                    ) && is_markdown_path(front[k].path@) && front[k].path@ == x;
                assert(entries[k] == front[k]);
            } else {
                assert(entries[last].path@ == x);
            }
        }
    }
}

/// The browser lists under a folder exactly the entries whose file name does
/// not start with a dot: every such subfolder among the subfolders and every
/// such markdown file among the files, and nothing else.
pub proof fn law_only_dot_names_are_hidden(entries: Seq<DirEntry>)
    ensures
        forall|k: int|
            0 <= k < entries.len() ==> ((#[trigger] entries[k]).is_dir && !(path_file_name(entries[k].path@) matches Some(n) && n.len() > 0 && n[0] == '.')
                ==> shown_dirs(entries).contains(entries[k].path@)),
        forall|k: int|
            0 <= k < entries.len() ==> (!(#[trigger] entries[k]).is_dir && !(path_file_name(entries[k].path@) matches Some(n) && n.len() > 0 && n[0] == '.') && is_markdown_path(entries[k].path@) ==> shown_files(entries).contains(
                entries[k].path@,
            )),
        forall|x: Seq<char>|
            #[trigger] shown_dirs(entries).contains(x) ==> exists|k: int|
                0 <= k < entries.len() && (#[trigger] entries[k]).is_dir && !(path_file_name(entries[k].path@) matches Some(n) && n.len() > 0 && n[0] == '.') && entries[k].path@ == x,
        forall|x: Seq<char>|
            #[trigger] shown_files(entries).contains(x) ==> exists|k: int|
                0 <= k < entries.len() && !(#[trigger] entries[k]).is_dir && !(path_file_name(entries[k].path@) matches Some(n) && n.len() > 0 && n[0] == '.') && is_markdown_path(entries[k].path@) && entries[k].path@ == x,
{
    lemma_shown_entries(entries);
}

/// Whether the file name of a path starts with a dot.
pub fn is_hidden_path(p: &str) -> (b: bool)
    ensures
        b == is_hidden(p@),
{
    match file_name_of(p) {
        Some(n) => n.as_str().unicode_len() > 0 && n.as_str().get_char(0) == '.',
        None => false,
    }
}

/// Picks out of a directory listing what the file browser shows under it:
/// hidden entries are dropped, and the subdirectories and the markdown files
/// come each sorted by path.
pub fn arrange_entries(entries: &Vec<DirEntry>) -> (r: (Vec<String>, Vec<String>))
    ensures
        texts(r.0@).to_multiset() == shown_dirs(entries@).to_multiset(),
        sorted_paths(texts(r.0@)),
        texts(r.1@).to_multiset() == shown_files(entries@).to_multiset(),
        sorted_paths(texts(r.1@)),
{
    let mut dirs: Vec<String> = Vec::new();
    let mut files: Vec<String> = Vec::new();
    let n = entries.len();
    let mut k: usize = 0;
    while k < n
        invariant
            n == entries@.len(),
            0 <= k <= n,
            texts(dirs@) == shown_dirs(entries@.subrange(0, k as int)),
            texts(files@) == shown_files(entries@.subrange(0, k as int)),
        decreases n - k,
    {
        let ghost next = entries@.subrange(0, k + 1);
        proof {
            assert(next.drop_last() =~= entries@.subrange(0, k as int));
            assert(next.last() == entries@[k as int]);
        }
        let e = &entries[k];
        if is_hidden_path(e.path.as_str()) {
        } else if e.is_dir {
            dirs.push(e.path.clone());
            assert(texts(dirs@) =~= shown_dirs(next));
        } else if FileLoader::is_markdown_file(e.path.as_str()) {
            files.push(e.path.clone());
            assert(texts(files@) =~= shown_files(next));
        }
        k = k + 1;
    }
    proof {
        assert(entries@.subrange(0, n as int) =~= entries@);
    }
    let sorted_dirs = sort_paths(dirs);
    let sorted_files = sort_paths(files);
    assert(sorted_paths(texts(sorted_dirs@))) by {
        assert forall|i: int, j: int| 0 <= i < j < texts(sorted_dirs@).len() implies path_le(
            #[trigger] texts(sorted_dirs@)[i],
            #[trigger] texts(sorted_dirs@)[j],
        ) by {
            assert(path_le(sorted_dirs@[i]@, sorted_dirs@[j]@));
        }
    }
    assert(sorted_paths(texts(sorted_files@))) by {
        assert forall|i: int, j: int| 0 <= i < j < texts(sorted_files@).len() implies path_le(
            #[trigger] texts(sorted_files@)[i],
            #[trigger] texts(sorted_files@)[j],
        ) by {
            assert(path_le(sorted_files@[i]@, sorted_files@[j]@));
        }
    }
    (sorted_dirs, sorted_files)
}

} // verus!
