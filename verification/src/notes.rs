//! The notes directory as a tree: which files are notes, the order in which
//! a directory's entries are shown, the rows of the tree with its expanded
//! directories, and the list of every note under the root.
//!
//! The directory contents are handed in as a [`DirNode`] snapshot read from
//! disk; everything computed from it is verified here.

use vstd::prelude::*;

use crate::paths::{
    extension, file_name, is_normal_component, path_components, path_extension, path_file_name,
    same_path,
};
use crate::text::{ascii_lower_seq, chars_eq, chars_of, lemma_lex_lt_order, lemma_lex_lt_trans, lex_less, lex_lt, to_ascii_lower};

verus! {

/// The extension of markdown notes.
pub open spec fn md_ext() -> Seq<char> {
    seq!['m', 'd']
}

/// The extension of plain-text notes.
pub open spec fn txt_ext() -> Seq<char> {
    seq!['t', 'x', 't']
}

/// Notes are the `.md` and `.txt` files.
pub open spec fn is_note_path(p: Seq<char>) -> bool {
    path_extension(p) == Some(md_ext()) || path_extension(p) == Some(txt_ext())
}

/// Markdown notes are the `.md` files.
pub open spec fn is_markdown_path(p: Seq<char>) -> bool {
    path_extension(p) == Some(md_ext())
}

/// True for `.md` and `.txt` files only.
pub fn is_note_file(path: &str) -> (b: bool)
    ensures
        b == is_note_path(path@),
{
    match extension(path) {
        Some(e) => {
            let c = chars_of(e.as_str());
            chars_eq(&c, &vec!['m', 'd']) || chars_eq(&c, &vec!['t', 'x', 't'])
        },
        None => false,
    }
}

/// True for `.md` files, which the preview renders as markdown.
pub fn is_markdown(path: &str) -> (b: bool)
    ensures
        b == is_markdown_path(path@),
{
    match extension(path) {
        Some(e) => {
            let c = chars_of(e.as_str());
            chars_eq(&c, &vec!['m', 'd'])
        },
        None => false,
    }
}

/// A single row of the rendered tree: a directory or a note file at `depth`.
#[derive(Debug)]
pub struct TreeNode {
    pub path: String,
    pub depth: usize,
    pub is_dir: bool,
}

/// A row as plain values: path, depth, whether it is a directory.
pub open spec fn row_view(n: TreeNode) -> (Seq<char>, usize, bool) {
    (n.path@, n.depth, n.is_dir)
}

/// An entry of the notes directory as read from disk: its path, whether it
/// is a directory, and (for a directory) its entries in the order the
/// directory listing returned them.
pub struct DirNode {
    pub path: String,
    pub is_dir: bool,
    pub children: Vec<DirNode>,
}

/// The name an entry is sorted by: its file name, ASCII-lowercased (empty
/// when the path has no file name).
pub open spec fn name_key(n: DirNode) -> Seq<char> {
    ascii_lower_seq(
        match path_file_name(n.path@) {
            Some(f) => f,
            None => Seq::empty(),
        },
    )
}

/// Directories come before files, then names in case-insensitive order.
pub open spec fn key_before(a: DirNode, b: DirNode) -> bool {
    (a.is_dir && !b.is_dir) || (a.is_dir == b.is_dir && lex_lt(name_key(a), name_key(b)))
}

/// Same sort key.
pub open spec fn key_same(a: DirNode, b: DirNode) -> bool {
    a.is_dir == b.is_dir && name_key(a) == name_key(b)
}

/// The order of entries `i` and `j` of `c` on screen: by sort key, and in
/// listing order between equal keys (a stable sort).
pub open spec fn idx_before(c: Seq<DirNode>, i: int, j: int) -> bool {
    key_before(c[i], c[j]) || (key_same(c[i], c[j]) && i < j)
}

/// `p` lists every index of `c` once, in on-screen order.
pub open spec fn is_sort_order(c: Seq<DirNode>, p: Seq<int>) -> bool {
    &&& p.len() == c.len()
    &&& forall|k: int| 0 <= k < p.len() ==> 0 <= #[trigger] p[k] < c.len()
    &&& forall|i: int| 0 <= i < c.len() ==> #[trigger] p.contains(i)
    &&& forall|k: int, l: int| 0 <= k < l < p.len() ==> idx_before(c, #[trigger] p[k], #[trigger] p[l])
}

/// The on-screen order of the entries `c`: dirs first, then
/// case-insensitive name, ties in listing order.
pub open spec fn sort_order(c: Seq<DirNode>) -> Seq<int> {
    choose|p: Seq<int>| is_sort_order(c, p)
}

proof fn lemma_key_order(a: DirNode, b: DirNode, d: DirNode)
    ensures
        !key_before(a, a),
        key_same(a, a),
        key_before(a, b) ==> !key_before(b, a) && !key_same(a, b),
        key_same(a, b) ==> key_same(b, a) && !key_before(a, b),
        key_before(a, b) || key_before(b, a) || key_same(a, b),
        key_before(a, b) && key_before(b, d) ==> key_before(a, d),
        key_same(a, b) && key_before(b, d) ==> key_before(a, d),
        key_before(a, b) && key_same(b, d) ==> key_before(a, d),
        key_same(a, b) && key_same(b, d) ==> key_same(a, d),
{
    lemma_lex_lt_order(name_key(a), name_key(b));
    lemma_lex_lt_order(name_key(b), name_key(a));
    if lex_lt(name_key(a), name_key(b)) && lex_lt(name_key(b), name_key(d)) {
        lemma_lex_lt_trans(name_key(a), name_key(b), name_key(d));
    }
}

/// `idx_before` is a strict total order on the indices of `c`.
pub proof fn lemma_idx_order(c: Seq<DirNode>, i: int, j: int, k: int)
    requires
        0 <= i < c.len(),
        0 <= j < c.len(),
        0 <= k < c.len(),
    ensures
        !idx_before(c, i, i),
        idx_before(c, i, j) ==> !idx_before(c, j, i),
        i != j ==> idx_before(c, i, j) || idx_before(c, j, i),
        idx_before(c, i, j) && idx_before(c, j, k) ==> idx_before(c, i, k),
{
    lemma_key_order(c[i], c[j], c[k]);
    lemma_key_order(c[j], c[i], c[k]);
}

/// There is one on-screen order: two orders that both list every entry once,
/// sorted, are the same.
pub proof fn lemma_sort_order_unique(c: Seq<DirNode>, p: Seq<int>, q: Seq<int>)
    requires
        is_sort_order(c, p),
        is_sort_order(c, q),
    ensures
        p == q,
{
    if !(p =~= q) {
        let k = choose|k: int| 0 <= k < p.len() && p[k] != q[k];
        lemma_least_difference(p, q, k);
        let f = choose|f: int|
            0 <= f < p.len() && p[f] != q[f] && forall|m: int| 0 <= m < f ==> p[m] == q[m];
        lemma_different_after_same_prefix(c, p, q, f);
        lemma_idx_order(c, p[f], q[f], p[f]);
    }
}

proof fn lemma_different_after_same_prefix(c: Seq<DirNode>, p: Seq<int>, q: Seq<int>, f: int)
    requires
        is_sort_order(c, p),
        is_sort_order(c, q),
        0 <= f < p.len(),
        p[f] != q[f],
        forall|m: int| 0 <= m < f ==> p[m] == q[m],
    ensures
        idx_before(c, p[f], q[f]) && idx_before(c, q[f], p[f]),
{
    let pf = p[f];
    let qf = q[f];
    assert(0 <= pf < c.len());
    assert(0 <= qf < c.len());
    assert(q.contains(pf));
    assert(p.contains(qf));
    let l = choose|l: int| 0 <= l < q.len() && q[l] == pf;
    let m = choose|m: int| 0 <= m < p.len() && p[m] == qf;
    lemma_idx_order(c, pf, qf, pf);
    lemma_idx_order(c, qf, pf, qf);
    assert(l != f);
    assert(m != f);
    if l < f {
        assert(p[l] == pf);
        assert(idx_before(c, p[l], p[f]));
    }
    if m < f {
        assert(q[m] == qf);
        assert(idx_before(c, q[m], q[f]));
    }
    assert(idx_before(c, q[f], q[l]));
    assert(idx_before(c, p[f], p[m]));
}

proof fn lemma_least_difference(p: Seq<int>, q: Seq<int>, k: int)
    requires
        0 <= k < p.len(),
        p.len() == q.len(),
        p[k] != q[k],
    ensures
        exists|f: int| 0 <= f < p.len() && p[f] != q[f] && forall|m: int| 0 <= m < f ==> p[m] == q[m],
    decreases k,
{
    if exists|m: int| 0 <= m < k && p[m] != q[m] {
        let m = choose|m: int| 0 <= m < k && p[m] != q[m];
        lemma_least_difference(p, q, m);
    } else {
        assert(forall|m: int| 0 <= m < k ==> p[m] == q[m]);
    }
}

} // verus!

verus! {

/// The sort names of the entries `c`.
fn sort_names(c: &Vec<DirNode>) -> (names: Vec<Vec<char>>)
    ensures
        names@.len() == c@.len(),
        forall|i: int| 0 <= i < c@.len() ==> (#[trigger] names@[i])@ == name_key(c@[i]),
{
    let mut names: Vec<Vec<char>> = Vec::new();
    let mut i: usize = 0;
    while i < c.len()
        invariant
            i <= c@.len(),
            names@.len() == i,
            forall|j: int| 0 <= j < i ==> (#[trigger] names@[j])@ == name_key(c@[j]),
        decreases c@.len() - i,
    {
        let n = match file_name(c[i].path.as_str()) {
            Some(f) => chars_of(f.as_str()),
            None => Vec::new(),
        };
        let l = to_ascii_lower(&n);
        proof {
            if path_file_name(c@[i as int].path@) is None {
                assert(n@ =~= Seq::<char>::empty());
            }
        }
        names.push(l);
        i = i + 1;
    }
    names
}

/// Whether entry `i` is shown before entry `j`.
fn shown_before(c: &Vec<DirNode>, names: &Vec<Vec<char>>, i: usize, j: usize) -> (b: bool)
    requires
        i < c@.len(),
        j < c@.len(),
        names@.len() == c@.len(),
        forall|k: int| 0 <= k < c@.len() ==> (#[trigger] names@[k])@ == name_key(c@[k]),
    ensures
        b == idx_before(c@, i as int, j as int),
{
    let di = c[i].is_dir;
    let dj = c[j].is_dir;
    if di && !dj {
        return true;
    }
    if di != dj {
        return false;
    }
    if lex_less(&names[i], &names[j]) {
        return true;
    }
    chars_eq(&names[i], &names[j]) && i < j
}

/// The indices of `c` as plain integers.
pub open spec fn idx_view(p: Seq<usize>) -> Seq<int> {
    p.map_values(|x: usize| x as int)
}

/// The entries of a directory in on-screen order: directories first, then
/// case-insensitive name; entries with equal keys keep their listing order.
pub fn sorted_children(c: &Vec<DirNode>) -> (p: Vec<usize>)
    ensures
        is_sort_order(c@, idx_view(p@)),
        idx_view(p@) == sort_order(c@),
{
    let names = sort_names(c);
    let mut out: Vec<usize> = Vec::new();
    let mut i: usize = 0;
    while i < c.len()
        invariant
            i <= c@.len(),
            names@.len() == c@.len(),
            forall|k: int| 0 <= k < c@.len() ==> (#[trigger] names@[k])@ == name_key(c@[k]),
            out@.len() == i,
            forall|k: int| 0 <= k < out@.len() ==> #[trigger] out@[k] < i,
            forall|j: int| 0 <= j < i ==> #[trigger] out@.contains(j as usize),
            forall|k: int, l: int|
                0 <= k < l < out@.len() ==> idx_before(c@, #[trigger] out@[k] as int, #[trigger] out@[l] as int),
        decreases c@.len() - i,
    {
        let mut pos: usize = 0;
        while pos < out.len() && shown_before(c, &names, out[pos], i)
            invariant
                i < c@.len(),
                pos <= out@.len(),
                names@.len() == c@.len(),
                forall|k: int| 0 <= k < c@.len() ==> (#[trigger] names@[k])@ == name_key(c@[k]),
                forall|k: int| 0 <= k < out@.len() ==> #[trigger] out@[k] < i,
                forall|k: int| 0 <= k < pos ==> idx_before(c@, #[trigger] out@[k] as int, i as int),
            decreases out@.len() - pos,
        {
            pos = pos + 1;
        }
        let ghost old_out = out@;
        proof {
            if pos < old_out.len() {
                lemma_idx_order(c@, old_out[pos as int] as int, i as int, i as int);
                assert forall|k: int| pos <= k < old_out.len() implies idx_before(
                    c@,
                    i as int,
                    #[trigger] old_out[k] as int,
                ) by {
                    if k > pos {
                        lemma_idx_order(c@, i as int, old_out[pos as int] as int, old_out[k] as int);
                    }
                }
            }
        }
        out.insert(pos, i);
        proof {
            assert forall|k: int, l: int|
                0 <= k < l < out@.len() implies idx_before(c@, #[trigger] out@[k] as int, #[trigger] out@[l] as int) by {
                if l < pos {
                    assert(out@[k] == old_out[k] && out@[l] == old_out[l]);
                } else if l == pos {
                    assert(out@[k] == old_out[k]);
                } else if k == pos {
                    assert(out@[l] == old_out[l - 1]);
                } else if k < pos {
                    assert(out@[k] == old_out[k] && out@[l] == old_out[l - 1]);
                } else {
                    assert(out@[k] == old_out[k - 1] && out@[l] == old_out[l - 1]);
                }
            }
            assert forall|j: int| 0 <= j < i + 1 implies #[trigger] out@.contains(j as usize) by {
                if j == i {
                    assert(out@[pos as int] == i);
                } else {
                    assert(old_out.contains(j as usize));
                    let k = choose|k: int| 0 <= k < old_out.len() && old_out[k] == j as usize;
                    if k < pos {
                        assert(out@[k] == j as usize);
                    } else {
                        assert(out@[k + 1] == j as usize);
                    }
                }
            }
            assert forall|k: int| 0 <= k < out@.len() implies #[trigger] out@[k] < i + 1 by {
                if k < pos {
                    assert(out@[k] == old_out[k]);
                } else if k > pos {
                    assert(out@[k] == old_out[k - 1]);
                }
            }
        }
        i = i + 1;
    }
    proof {
        let p = idx_view(out@);
        assert forall|j: int| 0 <= j < c@.len() implies #[trigger] p.contains(j) by {
            assert(out@.contains(j as usize));
            let k = choose|k: int| 0 <= k < out@.len() && out@[k] == j as usize;
            assert(p[k] == j);
        }
        assert forall|k: int, l: int| 0 <= k < l < p.len() implies idx_before(c@, #[trigger] p[k], #[trigger] p[l]) by {
            assert(idx_before(c@, out@[k] as int, out@[l] as int));
        }
        assert(is_sort_order(c@, p));
        lemma_sort_order_unique(c@, p, sort_order(c@));
    }
    out
}

} // verus!

verus! {

/// One more level of depth (held at `usize::MAX` rather than past it).
pub open spec fn depth_below(d: usize) -> usize {
    if d == usize::MAX {
        d
    } else {
        (d + 1) as usize
    }
}

/// The rows for the contents of directory `n` shown at `depth`: its
/// entries in on-screen order, each directory followed by its own rows when
/// it is in `expanded`.
pub open spec fn dir_rows(n: DirNode, depth: usize, expanded: Set<Seq<Seq<char>>>) -> Seq<
    (Seq<char>, usize, bool),
>
    decreases n, 2nat, 0nat,
{
    rows_from(n, sort_order(n.children@), 0, depth, expanded)
}

/// The rows for entries `order[k..]` of directory `n`.
pub open spec fn rows_from(
    n: DirNode,
    order: Seq<int>,
    k: int,
    depth: usize,
    expanded: Set<Seq<Seq<char>>>,
) -> Seq<(Seq<char>, usize, bool)>
    decreases n, 1nat, (if k < order.len() { order.len() - k } else { 0 }) as nat,
{
    if k < 0 || k >= order.len() || !(0 <= order[k] < n.children@.len()) {
        Seq::empty()
    } else {
        proof {
            assert(decreases_to!(n => n.children));
            assert(decreases_to!(n.children => n.children@));
            assert(decreases_to!(n.children@ => n.children@[order[k]]));
        }
        entry_rows(n.children@[order[k]], depth, expanded) + rows_from(
            n,
            order,
            k + 1,
            depth,
            expanded,
        )
    }
}

/// The rows one entry contributes: a directory row (and, when expanded, its
/// contents one level deeper) or a note row; other files show nothing.
pub open spec fn entry_rows(c: DirNode, depth: usize, expanded: Set<Seq<Seq<char>>>) -> Seq<
    (Seq<char>, usize, bool),
>
    decreases c, 3nat, 0nat,
{
    if c.is_dir {
        seq![(c.path@, depth, true)] + if expanded.contains(path_components(c.path@)) {
            dir_rows(c, depth_below(depth), expanded)
        } else {
            Seq::empty()
        }
    } else if is_note_path(c.path@) {
        seq![(c.path@, depth, false)]
    } else {
        Seq::empty()
    }
}

/// Every note at or under `n`, in directory-listing order, `n` first.
pub open spec fn notes_under(n: DirNode) -> Seq<Seq<char>>
    decreases n, 1nat, 0nat,
{
    (if is_note_path(n.path@) {
        seq![n.path@]
    } else {
        Seq::empty()
    }) + notes_from(n, 0)
}

/// The notes under entries `k..` of `n`.
pub open spec fn notes_from(n: DirNode, k: int) -> Seq<Seq<char>>
    decreases n, 0nat, (if k < n.children@.len() { n.children@.len() - k } else { 0 }) as nat,
{
    if k < 0 || k >= n.children@.len() {
        Seq::empty()
    } else {
        proof {
            assert(decreases_to!(n => n.children));
            assert(decreases_to!(n.children => n.children@));
            assert(decreases_to!(n.children@ => n.children@[k]));
        }
        notes_under(n.children@[k]) + notes_from(n, k + 1)
    }
}

/// The rows of a list of rows.
pub open spec fn rows_view(v: Seq<TreeNode>) -> Seq<(Seq<char>, usize, bool)> {
    v.map_values(|r: TreeNode| row_view(r))
}

} // verus!

verus! {

/// Appends `row` to `out`.
fn push_row(out: &mut Vec<TreeNode>, path: &String, depth: usize, is_dir: bool)
    ensures
        rows_view(final(out)@) == rows_view(old(out)@).push((path@, depth, is_dir)),
{
    out.push(TreeNode { path: path.clone(), depth, is_dir });
    assert(rows_view(out@) =~= rows_view(old(out)@).push((path@, depth, is_dir)));
}

/// Every note file at or under `n`, appended to `out`.
fn collect_notes(n: &DirNode, out: &mut Vec<String>)
    ensures
        final(out)@.map_values(|s: String| s@) == old(out)@.map_values(|s: String| s@) + notes_under(*n),
    decreases n,
{
    let ghost start = out@.map_values(|s: String| s@);
    if is_note_file(n.path.as_str()) {
        out.push(n.path.clone());
    }
    proof {
        let own = if is_note_path(n.path@) { seq![n.path@] } else { Seq::<Seq<char>>::empty() };
        assert(out@.map_values(|s: String| s@) =~= start + own);
        assert(notes_from(*n, 0) == notes_from(*n, 0));
    }
    let ghost mid = out@.map_values(|s: String| s@);
    let mut k: usize = 0;
    while k < n.children.len()
        invariant
            k <= n.children@.len(),
            out@.map_values(|s: String| s@) + notes_from(*n, k as int) == mid + notes_from(*n, 0),
        decreases n.children@.len() - k,
    {
        let ghost before = out@.map_values(|s: String| s@);
        proof {
            assert(decreases_to!(n => n.children));
            assert(decreases_to!(n.children => n.children@));
            assert(decreases_to!(n.children@ => n.children@[k as int]));
        }
        collect_notes(&n.children[k], out);
        proof {
            assert(notes_from(*n, k as int) == notes_under(n.children@[k as int]) + notes_from(
                *n,
                k + 1,
            ));
            assert(out@.map_values(|s: String| s@) + notes_from(*n, k + 1) =~= before + notes_from(
                *n,
                k as int,
            ));
        }
        k = k + 1;
    }
    proof {
        assert(notes_from(*n, k as int) =~= Seq::<Seq<char>>::empty());
        assert(out@.map_values(|s: String| s@) =~= mid + notes_from(*n, 0));
        assert(mid + notes_from(*n, 0) =~= start + notes_under(*n));
    }
}

/// `expanded` with `path` collapsed when it was expanded, expanded when it
/// was not. Directories are told apart by their path components.
pub open spec fn toggled(expanded: Set<Seq<Seq<char>>>, path: Seq<Seq<char>>) -> Set<Seq<Seq<char>>> {
    if expanded.contains(path) {
        expanded.remove(path)
    } else {
        expanded.insert(path)
    }
}

/// The components of a stored path.
pub open spec fn comps(s: String) -> Seq<Seq<char>> {
    path_components(s@)
}

/// The directory tree over the notes root: the root path and the set of
/// expanded directories. Directories are collapsed until toggled. Two
/// spellings of one directory (`a/b`, `a/b/`, `a//b`, `a/./b`) are the same
/// directory, as with `Path` equality.
pub struct NoteTree {
    root: String,
    expanded: Vec<String>,
}

impl NoteTree {
    /// No directory is recorded twice.
    #[verifier::type_invariant]
    spec fn no_duplicates(self) -> bool {
        forall|i: int, j: int|
            0 <= i < j < self.expanded@.len() ==> comps(#[trigger] self.expanded@[i]) != comps(
                #[trigger] self.expanded@[j],
            )
    }

    /// The notes root.
    pub closed spec fn root_view(self) -> Seq<char> {
        self.root@
    }

    /// The expanded directories, each as its path components.
    pub closed spec fn expanded_set(self) -> Set<Seq<Seq<char>>> {
        Set::new(
            |c: Seq<Seq<char>>|
                exists|i: int| 0 <= i < self.expanded@.len() && comps(#[trigger] self.expanded@[i]) == c,
        )
    }

    /// A tree over `root` with every directory collapsed.
    pub fn new(root: String) -> (t: NoteTree)
        ensures
            t.root_view() == root@,
            t.expanded_set() == Set::<Seq<Seq<char>>>::empty(),
    {
        let t = NoteTree { root, expanded: Vec::new() };
        assert(t.expanded_set() =~= Set::<Seq<Seq<char>>>::empty());
        t
    }

    /// The notes root.
    pub fn root(&self) -> (r: &str)
        ensures
            r@ == self.root_view(),
    {
        self.root.as_str()
    }

    /// Index of the expanded directory that is `path`.
    fn find(&self, path: &str) -> (r: Option<usize>)
        ensures
            r matches Some(i) ==> i < self.expanded@.len() && comps(self.expanded@[i as int])
                == path_components(path@),
            r is None ==> !self.expanded_set().contains(path_components(path@)),
    {
        let mut i: usize = 0;
        while i < self.expanded.len()
            invariant
                i <= self.expanded@.len(),
                forall|j: int| 0 <= j < i ==> comps(#[trigger] self.expanded@[j]) != path_components(path@),
            decreases self.expanded@.len() - i,
        {
            if same_path(self.expanded[i].as_str(), path) {
                return Some(i);
            }
            i = i + 1;
        }
        None
    }

    /// Whether the directory `path` is expanded.
    pub fn is_expanded(&self, path: &str) -> (b: bool)
        ensures
            b == self.expanded_set().contains(path_components(path@)),
    {
        match self.find(path) {
            Some(_) => true,
            None => false,
        }
    }

    /// Expands a collapsed directory, or collapses an expanded one.
    pub fn toggle(&mut self, path: &str)
        ensures
            final(self).root_view() == old(self).root_view(),
            final(self).expanded_set() == toggled(old(self).expanded_set(), path_components(path@)),
    {
        proof {
            use_type_invariant(&*self);
        }
        let ghost c = path_components(path@);
        let ghost old_set = self.expanded_set();
        let ghost old_exp = self.expanded@;
        match self.find(path) {
            Some(i) => {
                let mut exp: Vec<String> = Vec::new();
                std::mem::swap(&mut exp, &mut self.expanded);
                exp.remove(i);
                self.expanded = exp;
                proof {
                    assert forall|a: int, b: int|
                        0 <= a < b < self.expanded@.len() implies comps(#[trigger] self.expanded@[a]) != comps(
                        #[trigger] self.expanded@[b],
                    ) by {
                        let oa = if a < i { a } else { a + 1 };
                        let ob = if b < i { b } else { b + 1 };
                        assert(self.expanded@[a] == old_exp[oa]);
                        assert(self.expanded@[b] == old_exp[ob]);
                    }
                    assert forall|q: Seq<Seq<char>>| self.expanded_set().contains(q) <==> old_set.remove(
                        c,
                    ).contains(q) by {
                        if self.expanded_set().contains(q) {
                            let j = choose|j: int| 0 <= j < self.expanded@.len() && comps(#[trigger] self.expanded@[j]) == q;
                            let oj = if j < i { j } else { j + 1 };
                            assert(self.expanded@[j] == old_exp[oj]);
                            assert(comps(old_exp[oj]) == q);
                            assert(oj != i);
                        }
                        if old_set.remove(c).contains(q) {
                            let j = choose|j: int| 0 <= j < old_exp.len() && comps(#[trigger] old_exp[j]) == q;
                            assert(j != i);
                            let nj = if j < i { j } else { j - 1 };
                            assert(self.expanded@[nj] == old_exp[j]);
                        }
                    }
                    assert(self.expanded_set() =~= old_set.remove(c));
                }
            },
            None => {
                let mut exp: Vec<String> = Vec::new();
                std::mem::swap(&mut exp, &mut self.expanded);
                exp.push(String::from_str(path));
                self.expanded = exp;
                proof {
                    assert forall|q: Seq<Seq<char>>| self.expanded_set().contains(q) <==> old_set.insert(
                        c,
                    ).contains(q) by {
                        if self.expanded_set().contains(q) {
                            let j = choose|j: int| 0 <= j < self.expanded@.len() && comps(#[trigger] self.expanded@[j]) == q;
                            if j < old_exp.len() {
                                assert(self.expanded@[j] == old_exp[j]);
                            }
                        }
                        if old_set.contains(q) {
                            let j = choose|j: int| 0 <= j < old_exp.len() && comps(#[trigger] old_exp[j]) == q;
                            assert(self.expanded@[j] == old_exp[j]);
                        }
                        if q == c {
                            assert(comps(self.expanded@[old_exp.len() as int]) == q);
                        }
                    }
                    assert(self.expanded_set() =~= old_set.insert(c));
                    assert forall|a: int, b: int|
                        0 <= a < b < self.expanded@.len() implies comps(#[trigger] self.expanded@[a]) != comps(
                        #[trigger] self.expanded@[b],
                    ) by {
                        if b == old_exp.len() {
                            assert(self.expanded@[a] == old_exp[a]);
                            assert(old_set.contains(comps(old_exp[a])));
                        } else {
                            assert(self.expanded@[a] == old_exp[a]);
                            assert(self.expanded@[b] == old_exp[b]);
                        }
                    }
                }
            },
        }
    }

    /// The rows for directory `dir` at `depth`, appended to `out`.
    fn list_dir(&self, dir: &DirNode, depth: usize, out: &mut Vec<TreeNode>)
        ensures
            rows_view(final(out)@) == rows_view(old(out)@) + dir_rows(*dir, depth, self.expanded_set()),
        decreases dir,
    {
        let order = sorted_children(&dir.children);
        let ghost ord = idx_view(order@);
        let ghost exp = self.expanded_set();
        let ghost start = rows_view(out@);
        let mut k: usize = 0;
        while k < order.len()
            invariant
                k <= order@.len(),
                ord == idx_view(order@),
                ord == sort_order(dir.children@),
                is_sort_order(dir.children@, ord),
                exp == self.expanded_set(),
                rows_view(out@) + rows_from(*dir, ord, k as int, depth, exp) == start + dir_rows(
                    *dir,
                    depth,
                    exp,
                ),
            decreases order@.len() - k,
        {
            let idx = order[k];
            assert(ord[k as int] == idx as int);
            let child = &dir.children[idx];
            let ghost before = rows_view(out@);
            proof {
                assert(decreases_to!(dir => dir.children));
                assert(decreases_to!(dir.children => dir.children@));
                assert(decreases_to!(dir.children@ => dir.children@[idx as int]));
            }
            if child.is_dir {
                push_row(out, &child.path, depth, true);
                if self.is_expanded(child.path.as_str()) {
                    let d = if depth == usize::MAX { depth } else { depth + 1 };
                    self.list_dir(child, d, out);
                }
            } else if is_note_file(child.path.as_str()) {
                push_row(out, &child.path, depth, false);
            }
            proof {
                assert(rows_from(*dir, ord, k as int, depth, exp) == entry_rows(*child, depth, exp)
                    + rows_from(*dir, ord, k + 1, depth, exp));
                assert(rows_view(out@) =~= before + entry_rows(*child, depth, exp));
                assert(rows_view(out@) + rows_from(*dir, ord, k + 1, depth, exp) =~= before
                    + rows_from(*dir, ord, k as int, depth, exp));
            }
            k = k + 1;
        }
        proof {
            assert(rows_from(*dir, ord, k as int, depth, exp) =~= Seq::<(Seq<char>, usize, bool)>::empty());
            assert(rows_view(out@) =~= start + dir_rows(*dir, depth, exp));
        }
    }

    /// The tree flattened for display: the root's entries, directories first
    /// then case-insensitive name, each expanded directory followed by its
    /// own entries one level deeper. Only directories and notes show. For a
    /// well-formed snapshot no path shows twice, and every row lies under
    /// the snapshot's root, as many levels below it as its depth says.
    pub fn visible(&self, snapshot: &DirNode) -> (rows: Vec<TreeNode>)
        ensures
            rows_view(rows@) == dir_rows(*snapshot, 0, self.expanded_set()),
            snapshot_wf(*snapshot) ==> paths_distinct(rows_view(rows@)) && rows_under(
                rows_view(rows@),
                path_components(snapshot.path@),
                0,
                1,
            ),
    {
        proof {
            if snapshot_wf(*snapshot) {
                lemma_dir_rows_wf(*snapshot, 0, self.expanded_set());
            }
        }
        let mut out: Vec<TreeNode> = Vec::new();
        self.list_dir(snapshot, 0, &mut out);
        assert(rows_view(out@) =~= Seq::<(Seq<char>, usize, bool)>::empty() + dir_rows(
            *snapshot,
            0,
            self.expanded_set(),
        ));
        out
    }

    /// Every note file under the root (the root included), in
    /// directory-listing order, for search.
    pub fn all_files(&self, snapshot: &DirNode) -> (files: Vec<String>)
        ensures
            files@.map_values(|s: String| s@) == notes_under(*snapshot),
    {
        let mut out: Vec<String> = Vec::new();
        collect_notes(snapshot, &mut out);
        assert(out@.map_values(|s: String| s@) =~= Seq::<Seq<char>>::empty() + notes_under(*snapshot));
        out
    }
}

} // verus!

verus! {

/// Directories are shown before files: in the on-screen order, an entry
/// listed before a directory is a directory.
pub proof fn law_dirs_first(c: Seq<DirNode>, p: Seq<int>, k: int, l: int)
    requires
        is_sort_order(c, p),
        0 <= k < l < p.len(),
        c[p[l]].is_dir,
    ensures
        c[p[k]].is_dir,
{
    assert(idx_before(c, p[k], p[l]));
}

/// Toggling a directory twice leaves the expanded set as it was.
pub proof fn law_toggle_twice(expanded: Set<Seq<Seq<char>>>, path: Seq<Seq<char>>)
    ensures
        toggled(toggled(expanded, path), path) == expanded,
{
    assert(toggled(toggled(expanded, path), path) =~= expanded);
}

/// How many of the paths `ps` are, as `Path`s, the directory `c`.
pub open spec fn times_toggled(ps: Seq<Seq<char>>, c: Seq<Seq<char>>) -> nat
    decreases ps.len(),
{
    if ps.len() == 0 {
        0
    } else {
        times_toggled(ps.drop_last(), c) + if path_components(ps.last()) == c {
            1nat
        } else {
            0nat
        }
    }
}

/// A fresh tree toggled at the paths `ps` in order keeps its root, and a
/// directory is expanded exactly when it was toggled an odd number of
/// times (counting every spelling of it): `ts[0]` is the fresh tree and
/// `ts[i + 1]` is `ts[i]` after `toggle(ps[i])`.
pub proof fn law_toggle_sequence(ts: Seq<NoteTree>, ps: Seq<Seq<char>>, q: Seq<char>)
    requires
        ts.len() == ps.len() + 1,
        ts[0].expanded_set() == Set::<Seq<Seq<char>>>::empty(),
        forall|i: int|
            0 <= i < ps.len() ==> (#[trigger] ts[i + 1]).root_view() == ts[i].root_view()
                && ts[i + 1].expanded_set() == toggled(ts[i].expanded_set(), path_components(ps[i])),
    ensures
        ts.last().root_view() == ts[0].root_view(),
        ts.last().expanded_set().contains(path_components(q)) == (times_toggled(ps, path_components(q)) % 2
            == 1),
    decreases ps.len(),
{
    if ps.len() > 0 {
        let ts0 = ts.drop_last();
        let ps0 = ps.drop_last();
        assert forall|i: int| 0 <= i < ps0.len() implies (#[trigger] ts0[i + 1]).root_view()
            == ts0[i].root_view() && ts0[i + 1].expanded_set() == toggled(
            ts0[i].expanded_set(),
            path_components(ps0[i]),
        ) by {
            assert(ts[i + 1] == ts0[i + 1]);
        }
        law_toggle_sequence(ts0, ps0, q);
        let n = ps.len() - 1;
        assert(ts[n + 1] == ts.last());
        assert(ts0.last() == ts[n]);
        assert(ts[n + 1].expanded_set() == toggled(ts[n].expanded_set(), path_components(ps[n])));
    }
}

/// Every row of the tree that is not a directory is a note.
pub open spec fn only_notes(rows: Seq<(Seq<char>, usize, bool)>) -> bool {
    forall|k: int| 0 <= k < rows.len() ==> (#[trigger] rows[k]).2 || is_note_path(rows[k].0)
}

proof fn lemma_only_notes_concat(a: Seq<(Seq<char>, usize, bool)>, b: Seq<(Seq<char>, usize, bool)>)
    requires
        only_notes(a),
        only_notes(b),
    ensures
        only_notes(a + b),
{
    assert forall|k: int| 0 <= k < (a + b).len() implies (#[trigger] (a + b)[k]).2 || is_note_path(
        (a + b)[k].0,
    ) by {
        if k < a.len() {
            assert((a + b)[k] == a[k]);
        } else {
            assert((a + b)[k] == b[k - a.len()]);
        }
    }
}

proof fn lemma_dir_rows_notes(n: DirNode, depth: usize, expanded: Set<Seq<Seq<char>>>)
    ensures
        only_notes(dir_rows(n, depth, expanded)),
    decreases n, 2nat, 0nat,
{
    lemma_rows_from_notes(n, sort_order(n.children@), 0, depth, expanded);
}

proof fn lemma_rows_from_notes(
    n: DirNode,
    order: Seq<int>,
    k: int,
    depth: usize,
    expanded: Set<Seq<Seq<char>>>,
)
    ensures
        only_notes(rows_from(n, order, k, depth, expanded)),
    decreases n, 1nat, (if k < order.len() { order.len() - k } else { 0 }) as nat,
{
    if k < 0 || k >= order.len() || !(0 <= order[k] < n.children@.len()) {
    } else {
        assert(decreases_to!(n => n.children));
        assert(decreases_to!(n.children => n.children@));
        assert(decreases_to!(n.children@ => n.children@[order[k]]));
        lemma_entry_rows_notes(n.children@[order[k]], depth, expanded);
        lemma_rows_from_notes(n, order, k + 1, depth, expanded);
        lemma_only_notes_concat(
            entry_rows(n.children@[order[k]], depth, expanded),
            rows_from(n, order, k + 1, depth, expanded),
        );
    }
}

proof fn lemma_entry_rows_notes(c: DirNode, depth: usize, expanded: Set<Seq<Seq<char>>>)
    ensures
        only_notes(entry_rows(c, depth, expanded)),
    decreases c, 3nat, 0nat,
{
    if c.is_dir {
        let head = seq![(c.path@, depth, true)];
        if expanded.contains(path_components(c.path@)) {
            lemma_dir_rows_notes(c, depth_below(depth), expanded);
            lemma_only_notes_concat(head, dir_rows(c, depth_below(depth), expanded));
        } else {
            assert(entry_rows(c, depth, expanded) =~= head);
        }
    }
}

proof fn lemma_notes_under_notes(n: DirNode)
    ensures
        forall|k: int| 0 <= k < notes_under(n).len() ==> is_note_path(#[trigger] notes_under(n)[k]),
    decreases n, 1nat, 0nat,
{
    lemma_notes_from_notes(n, 0);
    let own = if is_note_path(n.path@) { seq![n.path@] } else { Seq::<Seq<char>>::empty() };
    assert forall|k: int| 0 <= k < notes_under(n).len() implies is_note_path(#[trigger] notes_under(n)[k]) by {
        if k < own.len() {
            assert(notes_under(n)[k] == own[k]);
        } else {
            assert(notes_under(n)[k] == notes_from(n, 0)[k - own.len()]);
        }
    }
}

proof fn lemma_notes_from_notes(n: DirNode, k: int)
    ensures
        forall|m: int| 0 <= m < notes_from(n, k).len() ==> is_note_path(#[trigger] notes_from(n, k)[m]),
    decreases n, 0nat, (if k < n.children@.len() { n.children@.len() - k } else { 0 }) as nat,
{
    if k < 0 || k >= n.children@.len() {
    } else {
        assert(decreases_to!(n => n.children));
        assert(decreases_to!(n.children => n.children@));
        assert(decreases_to!(n.children@ => n.children@[k]));
        lemma_notes_under_notes(n.children@[k]);
        lemma_notes_from_notes(n, k + 1);
        let a = notes_under(n.children@[k]);
        let b = notes_from(n, k + 1);
        assert forall|m: int| 0 <= m < notes_from(n, k).len() implies is_note_path(#[trigger] notes_from(n, k)[m]) by {
            if m < a.len() {
                assert(notes_from(n, k)[m] == a[m]);
            } else {
                assert(notes_from(n, k)[m] == b[m - a.len()]);
            }
        }
    }
}

/// Only notes show up: every row of the tree that is not a directory, and
/// every file that search looks at, is a `.md` or `.txt` file.
pub proof fn law_only_notes_show(n: DirNode, depth: usize, expanded: Set<Seq<Seq<char>>>)
    ensures
        only_notes(dir_rows(n, depth, expanded)),
        forall|k: int| 0 <= k < notes_under(n).len() ==> is_note_path(#[trigger] notes_under(n)[k]),
{
    lemma_dir_rows_notes(n, depth, expanded);
    lemma_notes_under_notes(n);
}

} // verus!

verus! {

/// `p` lists indices of `c` in on-screen order.
pub open spec fn idx_sorted(c: Seq<DirNode>, p: Seq<int>) -> bool {
    forall|k: int, l: int| 0 <= k < l < p.len() ==> idx_before(c, #[trigger] p[k], #[trigger] p[l])
}

/// `p` with `x` put in its on-screen place.
pub open spec fn insert_sorted(c: Seq<DirNode>, p: Seq<int>, x: int) -> Seq<int>
    decreases p.len(),
{
    if p.len() == 0 {
        seq![x]
    } else if idx_before(c, x, p[0]) {
        seq![x] + p
    } else {
        seq![p[0]] + insert_sorted(c, p.drop_first(), x)
    }
}

proof fn lemma_insert_sorted(c: Seq<DirNode>, p: Seq<int>, x: int)
    requires
        idx_sorted(c, p),
        forall|k: int| 0 <= k < p.len() ==> 0 <= #[trigger] p[k] < c.len(),
        0 <= x < c.len(),
        !p.contains(x),
    ensures
        idx_sorted(c, insert_sorted(c, p, x)),
        insert_sorted(c, p, x).len() == p.len() + 1,
        forall|y: int| #[trigger] insert_sorted(c, p, x).contains(y) <==> (p.contains(y) || y == x),
        forall|k: int| 0 <= k < insert_sorted(c, p, x).len() ==> 0 <= #[trigger] insert_sorted(c, p, x)[k] < c.len(),
    decreases p.len(),
{
    let r = insert_sorted(c, p, x);
    if p.len() == 0 {
        assert forall|y: int| #[trigger] r.contains(y) <==> (p.contains(y) || y == x) by {
            if r.contains(y) {
                assert(r[0] == x);
            }
            if y == x {
                assert(r[0] == x);
            }
        }
    } else if idx_before(c, x, p[0]) {
        assert forall|k: int, l: int| 0 <= k < l < r.len() implies idx_before(c, #[trigger] r[k], #[trigger] r[l]) by {
            if k == 0 {
                assert(r[l] == p[l - 1]);
                if l > 1 {
                    assert(idx_before(c, p[0], p[l - 1]));
                    lemma_idx_order(c, x, p[0], p[l - 1]);
                }
            } else {
                assert(r[k] == p[k - 1] && r[l] == p[l - 1]);
            }
        }
        assert forall|y: int| #[trigger] r.contains(y) <==> (p.contains(y) || y == x) by {
            if r.contains(y) {
                let k = choose|k: int| 0 <= k < r.len() && r[k] == y;
                if k > 0 {
                    assert(p[k - 1] == y);
                }
            }
            if p.contains(y) {
                let k = choose|k: int| 0 <= k < p.len() && p[k] == y;
                assert(r[k + 1] == y);
            }
            if y == x {
                assert(r[0] == x);
            }
        }
        assert forall|k: int| 0 <= k < r.len() implies 0 <= #[trigger] r[k] < c.len() by {
            if k > 0 {
                assert(r[k] == p[k - 1]);
            }
        }
    } else {
        let t = p.drop_first();
        assert forall|k: int, l: int| 0 <= k < l < t.len() implies idx_before(c, #[trigger] t[k], #[trigger] t[l]) by {
            assert(t[k] == p[k + 1] && t[l] == p[l + 1]);
        }
        assert forall|k: int| 0 <= k < t.len() implies 0 <= #[trigger] t[k] < c.len() by {
            assert(t[k] == p[k + 1]);
        }
        if t.contains(x) {
            let k = choose|k: int| 0 <= k < t.len() && t[k] == x;
            assert(p[k + 1] == x);
        }
        lemma_insert_sorted(c, t, x);
        let rest = insert_sorted(c, t, x);
        assert(x != p[0]) by {
            assert(p[0] == p[0]);
        }
        lemma_idx_order(c, x, p[0], x);
        assert(idx_before(c, p[0], x));
        assert forall|k: int, l: int| 0 <= k < l < r.len() implies idx_before(c, #[trigger] r[k], #[trigger] r[l]) by {
            if k == 0 {
                assert(r[l] == rest[l - 1]);
                assert(rest.contains(rest[l - 1]));
                if rest[l - 1] != x {
                    assert(t.contains(rest[l - 1]));
                    let m = choose|m: int| 0 <= m < t.len() && t[m] == rest[l - 1];
                    assert(p[m + 1] == rest[l - 1]);
                    assert(idx_before(c, p[0], p[m + 1]));
                }
            } else {
                assert(r[k] == rest[k - 1] && r[l] == rest[l - 1]);
            }
        }
        assert forall|y: int| #[trigger] r.contains(y) <==> (p.contains(y) || y == x) by {
            if r.contains(y) {
                let k = choose|k: int| 0 <= k < r.len() && r[k] == y;
                if k > 0 {
                    assert(rest[k - 1] == y);
                    assert(rest.contains(y));
                    if t.contains(y) {
                        let m = choose|m: int| 0 <= m < t.len() && t[m] == y;
                        assert(p[m + 1] == y);
                    }
                } else {
                    assert(p[0] == y);
                }
            }
            if p.contains(y) {
                let k = choose|k: int| 0 <= k < p.len() && p[k] == y;
                if k == 0 {
                    assert(r[0] == y);
                } else {
                    assert(t[k - 1] == y);
                    assert(t.contains(y));
                    assert(rest.contains(y));
                    let m = choose|m: int| 0 <= m < rest.len() && rest[m] == y;
                    assert(r[m + 1] == y);
                }
            }
            if y == x {
                assert(rest.contains(x));
                let m = choose|m: int| 0 <= m < rest.len() && rest[m] == x;
                assert(r[m + 1] == x);
            }
        }
        assert forall|k: int| 0 <= k < r.len() implies 0 <= #[trigger] r[k] < c.len() by {
            if k > 0 {
                assert(r[k] == rest[k - 1]);
            }
        }
    }
}

/// The first `n` indices of `c` in on-screen order.
pub open spec fn order_upto(c: Seq<DirNode>, n: nat) -> Seq<int>
    decreases n,
{
    if n == 0 {
        seq![]
    } else {
        insert_sorted(c, order_upto(c, (n - 1) as nat), n - 1)
    }
}

proof fn lemma_order_upto(c: Seq<DirNode>, n: nat)
    requires
        n <= c.len(),
    ensures
        idx_sorted(c, order_upto(c, n)),
        order_upto(c, n).len() == n,
        forall|y: int| #[trigger] order_upto(c, n).contains(y) <==> 0 <= y < n,
        forall|k: int| 0 <= k < order_upto(c, n).len() ==> 0 <= #[trigger] order_upto(c, n)[k] < c.len(),
    decreases n,
{
    if n > 0 {
        lemma_order_upto(c, (n - 1) as nat);
        lemma_insert_sorted(c, order_upto(c, (n - 1) as nat), n - 1);
    }
}

/// Every directory listing has an on-screen order.
pub proof fn lemma_sort_order_exists(c: Seq<DirNode>)
    ensures
        is_sort_order(c, sort_order(c)),
{
    lemma_order_upto(c, c.len());
    let p = order_upto(c, c.len());
    assert forall|i: int| 0 <= i < c.len() implies #[trigger] p.contains(i) by {
    }
    assert(is_sort_order(c, p));
}

/// The path `c` lies directly under the directory `n`: its components are
/// `n`'s and one more name.
pub open spec fn directly_under(c: Seq<char>, n: Seq<char>) -> bool {
    let cc = path_components(c);
    let nc = path_components(n);
    &&& cc.len() == nc.len() + 1
    &&& cc.subrange(0, nc.len() as int) == nc
    &&& is_normal_component(cc.last())
}

/// Entries `k..` of `n` lie directly under it and are well formed.
pub open spec fn entries_wf(n: DirNode, k: int) -> bool
    decreases n, 0nat, (if k < n.children@.len() { n.children@.len() - k } else { 0 }) as nat,
{
    if k < 0 || k >= n.children@.len() {
        true
    } else {
        proof {
            assert(decreases_to!(n => n.children));
            assert(decreases_to!(n.children => n.children@));
            assert(decreases_to!(n.children@ => n.children@[k]));
        }
        &&& directly_under(n.children@[k].path@, n.path@)
        &&& snapshot_wf(n.children@[k])
        &&& entries_wf(n, k + 1)
    }
}

/// A snapshot as a directory listing gives it: every entry lies directly
/// under its directory, and no directory lists one path twice.
pub open spec fn snapshot_wf(n: DirNode) -> bool
    decreases n, 1nat, 0nat,
{
    &&& forall|i: int, j: int|
        0 <= i < j < n.children@.len() ==> path_components(n.children@[i].path@) != path_components(
            n.children@[j].path@,
        )
    &&& entries_wf(n, 0)
}

/// `a` capped at `usize::MAX`.
pub open spec fn capped(a: int) -> int {
    if a < usize::MAX {
        a
    } else {
        usize::MAX as int
    }
}

/// Every row's path has the components `base` and at least `extra` more,
/// and its depth is `depth` plus the number of those beyond `extra`.
pub open spec fn rows_under(
    rows: Seq<(Seq<char>, usize, bool)>,
    base: Seq<Seq<char>>,
    depth: usize,
    extra: int,
) -> bool {
    forall|i: int|
        0 <= i < rows.len() ==> {
            let rc = path_components(#[trigger] rows[i].0);
            &&& rc.len() >= base.len() + extra
            &&& rc.subrange(0, base.len() as int) == base
            &&& rows[i].1 as int == capped(depth + rc.len() - base.len() - extra)
        }
}

/// No two rows are the same path.
pub open spec fn paths_distinct(rows: Seq<(Seq<char>, usize, bool)>) -> bool {
    forall|i: int, j: int|
        0 <= i < j < rows.len() ==> path_components(#[trigger] rows[i].0) != path_components(
            #[trigger] rows[j].0,
        )
}

proof fn lemma_rows_concat(
    a: Seq<(Seq<char>, usize, bool)>,
    b: Seq<(Seq<char>, usize, bool)>,
    base: Seq<Seq<char>>,
    depth: usize,
    extra: int,
)
    requires
        rows_under(a, base, depth, extra),
        rows_under(b, base, depth, extra),
    ensures
        rows_under(a + b, base, depth, extra),
{
    assert forall|i: int| 0 <= i < (a + b).len() implies {
        let rc = path_components(#[trigger] (a + b)[i].0);
        &&& rc.len() >= base.len() + extra
        &&& rc.subrange(0, base.len() as int) == base
        &&& (a + b)[i].1 as int == capped(depth + rc.len() - base.len() - extra)
    } by {
        if i < a.len() {
            assert((a + b)[i] == a[i]);
        } else {
            assert((a + b)[i] == b[i - a.len()]);
        }
    }
}

proof fn lemma_distinct_concat(a: Seq<(Seq<char>, usize, bool)>, b: Seq<(Seq<char>, usize, bool)>)
    requires
        paths_distinct(a),
        paths_distinct(b),
        forall|i: int, j: int|
            0 <= i < a.len() && 0 <= j < b.len() ==> path_components(#[trigger] a[i].0) != path_components(
                #[trigger] b[j].0,
            ),
    ensures
        paths_distinct(a + b),
{
    assert forall|i: int, j: int| 0 <= i < j < (a + b).len() implies path_components(
        #[trigger] (a + b)[i].0,
    ) != path_components(#[trigger] (a + b)[j].0) by {
        if j < a.len() {
            assert((a + b)[i] == a[i] && (a + b)[j] == a[j]);
        } else if i < a.len() {
            assert((a + b)[i] == a[i] && (a + b)[j] == b[j - a.len()]);
        } else {
            assert((a + b)[i] == b[i - a.len()] && (a + b)[j] == b[j - a.len()]);
        }
    }
}

/// The rows of `dir_rows(n, ..)` lie under `n`, one level per depth, and
/// repeat no path.
proof fn lemma_dir_rows_wf(n: DirNode, depth: usize, expanded: Set<Seq<Seq<char>>>)
    requires
        snapshot_wf(n),
    ensures
        rows_under(dir_rows(n, depth, expanded), path_components(n.path@), depth, 1),
        paths_distinct(dir_rows(n, depth, expanded)),
    decreases n, 2nat, 0nat,
{
    let order = sort_order(n.children@);
    lemma_sort_order_exists(n.children@);
    assert forall|i: int, j: int| 0 <= i < j < order.len() implies order[i] != order[j] by {
        assert(idx_before(n.children@, order[i], order[j]));
        lemma_idx_order(n.children@, order[i], order[i], order[i]);
    }
    lemma_rows_from_wf(n, order, 0, depth, expanded);
}

/// Entry `i` of `n` is well formed and lies directly under `n`.
proof fn lemma_entry_of(n: DirNode, k: int, i: int)
    requires
        entries_wf(n, k),
        0 <= k <= i < n.children@.len(),
    ensures
        directly_under(n.children@[i].path@, n.path@),
        snapshot_wf(n.children@[i]),
    decreases i - k,
{
    if k < i {
        lemma_entry_of(n, k + 1, i);
    }
}

proof fn lemma_rows_from_wf(
    n: DirNode,
    order: Seq<int>,
    k: int,
    depth: usize,
    expanded: Set<Seq<Seq<char>>>,
)
    requires
        snapshot_wf(n),
        forall|i: int, j: int| 0 <= i < j < order.len() ==> order[i] != order[j],
        0 <= k,
    ensures
        rows_under(rows_from(n, order, k, depth, expanded), path_components(n.path@), depth, 1),
        paths_distinct(rows_from(n, order, k, depth, expanded)),
        forall|i: int|
            0 <= i < rows_from(n, order, k, depth, expanded).len() ==> exists|m: int|
                k <= m < order.len() && 0 <= order[m] < n.children@.len() && path_components(
                    (#[trigger] rows_from(n, order, k, depth, expanded)[i]).0,
                ).subrange(0, path_components(n.path@).len() as int + 1) == path_components(
                    n.children@[order[m]].path@,
                ),
    decreases n, 1nat, (if k < order.len() { order.len() - k } else { 0 }) as nat,
{
    let rows = rows_from(n, order, k, depth, expanded);
    let b = path_components(n.path@);
    if k < 0 || k >= order.len() || !(0 <= order[k] < n.children@.len()) {
        assert(rows =~= Seq::<(Seq<char>, usize, bool)>::empty());
    } else {
        let c = n.children@[order[k]];
        assert(decreases_to!(n => n.children));
        assert(decreases_to!(n.children => n.children@));
        assert(decreases_to!(n.children@ => n.children@[order[k]]));
        lemma_entry_of(n, 0, order[k]);
        lemma_entry_rows_wf(c, depth, expanded);
        lemma_rows_from_wf(n, order, k + 1, depth, expanded);
        let e = entry_rows(c, depth, expanded);
        let rest = rows_from(n, order, k + 1, depth, expanded);
        assert(rows == e + rest);
        let cc = path_components(c.path@);
        assert(cc.len() == b.len() + 1 && cc.subrange(0, b.len() as int) == b);
        assert forall|i: int| 0 <= i < e.len() implies {
            let rc = path_components(#[trigger] e[i].0);
            &&& rc.len() >= b.len() + 1
            &&& rc.subrange(0, b.len() as int) == b
            &&& e[i].1 as int == capped(depth + rc.len() - b.len() - 1)
        } by {
            let rc = path_components(e[i].0);
            assert(rc.subrange(0, cc.len() as int) == cc);
            assert(rc.subrange(0, b.len() as int) =~= rc.subrange(0, cc.len() as int).subrange(
                0,
                b.len() as int,
            ));
        }
        lemma_rows_concat(e, rest, b, depth, 1);
        assert forall|i: int, j: int| 0 <= i < e.len() && 0 <= j < rest.len() implies path_components(
            #[trigger] e[i].0,
        ) != path_components(#[trigger] rest[j].0) by {
            let m = choose|m: int|
                k + 1 <= m < order.len() && 0 <= order[m] < n.children@.len() && path_components(
                    (#[trigger] rows_from(n, order, k + 1, depth, expanded)[j]).0,
                ).subrange(0, b.len() as int + 1) == path_components(n.children@[order[m]].path@);
            assert(order[m] != order[k]);
            assert(path_components(n.children@[order[m]].path@) != cc);
            let ri = path_components(e[i].0);
            let rj = path_components(rest[j].0);
            assert(ri.subrange(0, b.len() as int + 1) == cc);
            if ri == rj {
                assert(rj.subrange(0, b.len() as int + 1) == cc);
            }
        }
        lemma_distinct_concat(e, rest);
        assert forall|i: int|
            0 <= i < rows.len() implies exists|m: int|
            k <= m < order.len() && 0 <= order[m] < n.children@.len() && path_components(
                (#[trigger] rows_from(n, order, k, depth, expanded)[i]).0,
            ).subrange(0, b.len() as int + 1) == path_components(n.children@[order[m]].path@) by {
            if i < e.len() {
                assert(rows[i] == e[i]);
                assert(path_components(e[i].0).subrange(0, b.len() as int + 1) == cc);
            } else {
                assert(rows[i] == rest[i - e.len()]);
                let m = choose|m: int|
                    k + 1 <= m < order.len() && 0 <= order[m] < n.children@.len() && path_components(
                        (#[trigger] rows_from(n, order, k + 1, depth, expanded)[i - e.len()]).0,
                    ).subrange(0, b.len() as int + 1) == path_components(n.children@[order[m]].path@);
            }
        }
    }
}

/// The rows one entry contributes: the entry itself, then (when expanded)
/// its contents, all under the entry's path.
proof fn lemma_entry_rows_wf(c: DirNode, depth: usize, expanded: Set<Seq<Seq<char>>>)
    requires
        snapshot_wf(c),
    ensures
        rows_under(entry_rows(c, depth, expanded), path_components(c.path@), depth, 0),
        paths_distinct(entry_rows(c, depth, expanded)),
    decreases c, 3nat, 0nat,
{
    let cc = path_components(c.path@);
    let rows = entry_rows(c, depth, expanded);
    let head = seq![(c.path@, depth, c.is_dir)];
    assert(cc.subrange(0, cc.len() as int) =~= cc);
    if c.is_dir && expanded.contains(cc) {
        let db = depth_below(depth);
        lemma_dir_rows_wf(c, db, expanded);
        let inner = dir_rows(c, db, expanded);
        assert(rows == seq![(c.path@, depth, true)] + inner);
        assert forall|i: int| 0 <= i < inner.len() implies {
            let rc = path_components(#[trigger] inner[i].0);
            &&& rc.len() >= cc.len() + 0
            &&& rc.subrange(0, cc.len() as int) == cc
            &&& inner[i].1 as int == capped(depth + rc.len() - cc.len() - 0)
        } by {
            let rc = path_components(inner[i].0);
            assert(rc.len() >= cc.len() + 1);
        }
        lemma_rows_concat(seq![(c.path@, depth, true)], inner, cc, depth, 0);
        lemma_distinct_concat(seq![(c.path@, depth, true)], inner);
    } else if c.is_dir {
        assert(rows =~= seq![(c.path@, depth, true)]);
    } else if is_note_path(c.path@) {
        assert(rows =~= seq![(c.path@, depth, false)]);
    } else {
        assert(rows =~= Seq::<(Seq<char>, usize, bool)>::empty());
    }
}

/// The tree shows each directory and note of a well-formed snapshot at most
/// once, below the snapshot's root: a row's path has the root's components
/// and at least one more, and its depth is the number of further ones (held
/// at `usize::MAX`).
pub proof fn law_tree_rows_under_root(n: DirNode, expanded: Set<Seq<Seq<char>>>)
    requires
        snapshot_wf(n),
    ensures
        paths_distinct(dir_rows(n, 0, expanded)),
        forall|i: int|
            0 <= i < dir_rows(n, 0, expanded).len() ==> {
                let rc = path_components(#[trigger] dir_rows(n, 0, expanded)[i].0);
                let base = path_components(n.path@);
                &&& rc.subrange(0, base.len() as int) == base
                &&& rc.len() >= base.len() + 1
                &&& dir_rows(n, 0, expanded)[i].1 as int == capped(rc.len() - base.len() - 1)
            },
{
    lemma_dir_rows_wf(n, 0, expanded);
}

} // verus!
