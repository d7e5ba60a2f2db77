//! Note paths as text, read as `std::path::Path` reads them on Unix
//! targets. How a path splits into components, and its file name and
//! extension, are stated here as std documents them; the parent, the prefix
//! stripping and the extension replacement are taken from std through the
//! wrappers below, each tied to a name for its result. Joining a directory
//! and a single file name is stated and proved here.

use std::path::Path;
use vstd::prelude::*;

use crate::text::{find_char, lemma_find_char_at};

verus! {

/// A piece of a path between separators, as a component: nothing for an
/// empty piece (repeated or trailing `/`) or a `.` piece.
pub open spec fn kept_piece(s: Seq<char>) -> Seq<Seq<char>> {
    if s.len() == 0 || s == seq!['.'] {
        seq![]
    } else {
        seq![s]
    }
}

/// The pieces of `p` between `/`s, without empty and `.` pieces.
pub open spec fn normal_parts(p: Seq<char>) -> Seq<Seq<char>>
    decreases p.len(),
{
    let k = find_char(p, '/');
    if k >= p.len() {
        kept_piece(p)
    } else {
        kept_piece(p.subrange(0, k as int)) + normal_parts(p.subrange(k as int + 1, p.len() as int))
    }
}

/// The text of `p` before its first `/`.
pub open spec fn first_piece(p: Seq<char>) -> Seq<char> {
    if find_char(p, '/') >= p.len() {
        p
    } else {
        p.subrange(0, find_char(p, '/') as int)
    }
}

/// The components `Path::components` yields for `p` on Unix: the root
/// (written `/`) when `p` starts with `/`, a current-directory component
/// (written `.`) when `p` starts with a `.` piece, then every other piece
/// between separators, repeated and trailing separators and `.` pieces
/// left out. Two paths are equal as `Path`s exactly when their components
/// are.
pub open spec fn path_components(p: Seq<char>) -> Seq<Seq<char>> {
    if p.len() > 0 && p[0] == '/' {
        seq![seq!['/']] + normal_parts(p)
    } else if first_piece(p) == seq!['.'] {
        seq![seq!['.']] + normal_parts(p)
    } else {
        normal_parts(p)
    }
}

proof fn lemma_find_char_bound(s: Seq<char>, c: char)
    ensures
        find_char(s, c) <= s.len(),
        forall|i: int| 0 <= i < find_char(s, c) ==> s[i] != c,
        find_char(s, c) < s.len() ==> s[find_char(s, c) as int] == c,
    decreases s.len(),
{
    if s.len() > 0 && s[0] != c {
        lemma_find_char_bound(s.drop_first(), c);
        assert forall|i: int| 0 <= i < find_char(s, c) implies s[i] != c by {
            if i > 0 {
                assert(s[i] == s.drop_first()[i - 1]);
            }
        }
    }
}

proof fn lemma_parts_not_root(p: Seq<char>)
    ensures
        forall|k: int| 0 <= k < normal_parts(p).len() ==> #[trigger] normal_parts(p)[k] != seq!['/']
            && normal_parts(p)[k] != seq!['.'],
    decreases p.len(),
{
    lemma_find_char_bound(p, '/');
    let k = find_char(p, '/');
    if k >= p.len() {
        if p.len() > 0 {
            assert(p[0] != '/');
        }
    } else {
        let head = p.subrange(0, k as int);
        let rest = p.subrange(k as int + 1, p.len() as int);
        lemma_parts_not_root(rest);
        if head.len() > 0 {
            assert(head[0] == p[0]);
        }
        assert forall|j: int| 0 <= j < normal_parts(p).len() implies #[trigger] normal_parts(p)[j] != seq!['/']
            && normal_parts(p)[j] != seq!['.'] by {
            let a = kept_piece(head);
            if j < a.len() {
                assert(normal_parts(p)[j] == a[j]);
                assert(a[j] == head);
                if head == seq!['/'] {
                    assert(head[0] == '/');
                }
            } else {
                assert(normal_parts(p)[j] == normal_parts(rest)[j - a.len()]);
            }
        }
    }
}

/// The root and the current directory can only be the first component.
pub proof fn lemma_root_first(p: Seq<char>)
    ensures
        forall|k: int| 1 <= k < path_components(p).len() ==> #[trigger] path_components(p)[k] != seq!['/']
            && path_components(p)[k] != seq!['.'],
{
    lemma_parts_not_root(p);
    let c = path_components(p);
    assert forall|k: int| 1 <= k < c.len() implies #[trigger] c[k] != seq!['/'] && c[k] != seq!['.'] by {
        if p.len() > 0 && p[0] == '/' {
            assert(c[k] == normal_parts(p)[k - 1]);
        } else if first_piece(p) == seq!['.'] {
            assert(c[k] == normal_parts(p)[k - 1]);
        } else {
            assert(c[k] == normal_parts(p)[k]);
        }
    }
}

proof fn lemma_find_char_concat(a: Seq<char>, b: Seq<char>, c: char)
    ensures
        find_char(a, c) < a.len() ==> find_char(a + b, c) == find_char(a, c),
        find_char(a, c) >= a.len() ==> find_char(a + b, c) == a.len() + find_char(b, c),
{
    lemma_find_char_bound(a, c);
    lemma_find_char_bound(b, c);
    let k = find_char(a, c);
    if k < a.len() {
        assert forall|i: int| 0 <= i < k implies #[trigger] (a + b)[i] != c by {
            assert((a + b)[i] == a[i]);
        }
        assert((a + b)[k as int] == a[k as int]);
        lemma_find_char_at(a + b, c, k as int);
    } else {
        let j = find_char(b, c);
        assert forall|i: int| 0 <= i < a.len() + j implies #[trigger] (a + b)[i] != c by {
            if i < a.len() {
                assert((a + b)[i] == a[i]);
            } else {
                assert((a + b)[i] == b[i - a.len()]);
            }
        }
        if j < b.len() {
            assert((a + b)[a.len() + j as int] == b[j as int]);
        }
        lemma_find_char_at(a + b, c, (a.len() + j) as int);
    }
}

/// The pieces of `a/b` are those of `a`, then those of `b`.
proof fn lemma_parts_concat(a: Seq<char>, b: Seq<char>)
    ensures
        normal_parts(a + seq!['/'] + b) == normal_parts(a) + normal_parts(b),
    decreases a.len(),
{
    let s = a + seq!['/'] + b;
    lemma_find_char_concat(a, seq!['/'] + b, '/');
    assert(s =~= a + (seq!['/'] + b));
    lemma_find_char_bound(a, '/');
    let k = find_char(a, '/');
    if k < a.len() {
        let ra = a.subrange(k as int + 1, a.len() as int);
        lemma_parts_concat(ra, b);
        assert(s.subrange(0, k as int) =~= a.subrange(0, k as int));
        assert(s.subrange(k as int + 1, s.len() as int) =~= ra + seq!['/'] + b);
    } else {
        assert(find_char(seq!['/'] + b, '/') == 0);
        assert(s.subrange(0, a.len() as int) =~= a);
        assert(s.subrange(a.len() as int + 1, s.len() as int) =~= b);
        assert(normal_parts(a) == kept_piece(a));
    }
}

/// Joining a name onto a directory adds the name's components: for a
/// directory with components and a name whose components hold neither the
/// root nor `.`, `Path::join`'s components are the directory's followed by
/// the name's.
pub proof fn lemma_join_components(dir: Seq<char>, name: Seq<char>)
    requires
        path_components(dir).len() > 0,
        path_components(name) == normal_parts(name),
    ensures
        path_components(join_spec(dir, name)) == path_components(dir) + path_components(name),
{
    let j = join_spec(dir, name);
    let body = if dir.last() == '/' { dir.drop_last() } else { dir };
    assert(dir.len() > 0);
    assert(j =~= body + seq!['/'] + name) by {
        if dir.last() == '/' {
            assert(dir =~= dir.drop_last() + seq!['/']);
        }
    }
    lemma_parts_concat(body, name);
    lemma_parts_concat(body, Seq::<char>::empty());
    assert(body + seq!['/'] + Seq::<char>::empty() =~= body + seq!['/']);
    assert(normal_parts(Seq::<char>::empty()) =~= Seq::<Seq<char>>::empty());
    assert(normal_parts(dir) == normal_parts(body)) by {
        if dir.last() == '/' {
            assert(dir =~= body + seq!['/'] + Seq::<char>::empty());
        }
    }
    assert(j[0] == dir[0]);
    lemma_find_char_concat(body, seq!['/'] + name, '/');
    assert(j =~= body + (seq!['/'] + name));
    lemma_find_char_bound(body, '/');
    lemma_find_char_bound(dir, '/');
    if dir.last() == '/' {
        lemma_find_char_concat(body, seq!['/'], '/');
    }
    if find_char(body, '/') < body.len() {
        assert(first_piece(j) =~= first_piece(dir)) by {
            assert(first_piece(j) =~= body.subrange(0, find_char(body, '/') as int));
            if dir.last() == '/' {
                assert(dir =~= body + seq!['/']);
            }
            assert(first_piece(dir) =~= dir.subrange(0, find_char(body, '/') as int));
        }
    } else {
        assert(find_char(seq!['/'] + name, '/') == 0);
        assert(first_piece(j) =~= body);
        if dir.last() == '/' {
            assert(dir =~= body + seq!['/']);
            assert(find_char(seq!['/'], '/') == 0);
            assert(first_piece(dir) =~= body);
        } else {
            assert(first_piece(dir) =~= body);
        }
    }
}

/// A non-empty path has components.
pub proof fn lemma_components_nonempty(p: Seq<char>)
    requires
        p.len() > 0,
    ensures
        path_components(p).len() > 0,
{
    if !(p[0] == '/') && first_piece(p) != seq!['.'] {
        lemma_find_char_bound(p, '/');
        let k = find_char(p, '/');
        assert(k > 0);
        if k < p.len() {
            assert(p.subrange(0, k as int).len() > 0);
            assert(first_piece(p) == p.subrange(0, k as int));
        }
        assert(kept_piece(first_piece(p)).len() == 1);
    }
}

/// A component that names an entry: not the root, `.` or `..`.
pub open spec fn is_normal_component(c: Seq<char>) -> bool {
    c != seq!['/'] && c != seq!['.'] && c != seq!['.', '.']
}

/// What `Path::file_name` gives for `p` on Unix: the last component when it
/// names an entry, else nothing.
pub open spec fn path_file_name(p: Seq<char>) -> Option<Seq<char>> {
    let c = path_components(p);
    if c.len() > 0 && is_normal_component(c.last()) {
        Some(c.last())
    } else {
        None
    }
}

/// Index of the last `c` in `s`, or -1.
pub open spec fn last_index(s: Seq<char>, c: char) -> int
    decreases s.len(),
{
    if s.len() == 0 {
        -1
    } else if s.last() == c {
        s.len() - 1
    } else {
        last_index(s.drop_last(), c)
    }
}

/// What `Path::extension` gives for `p` on Unix: the part of the file name
/// after its last `.`; nothing when there is no file name, no `.`, or the
/// only `.` starts the name.
pub open spec fn path_extension(p: Seq<char>) -> Option<Seq<char>> {
    match path_file_name(p) {
        Some(f) => if last_index(f, '.') > 0 {
            Some(f.subrange(last_index(f, '.') + 1, f.len() as int))
        } else {
            None
        },
        None => None,
    }
}

/// What `Path::file_stem` gives for `p` on Unix: the file name without its
/// extension and the `.` before it.
pub open spec fn path_file_stem(p: Seq<char>) -> Option<Seq<char>> {
    match path_file_name(p) {
        Some(f) => if last_index(f, '.') > 0 {
            Some(f.subrange(0, last_index(f, '.')))
        } else {
            Some(f)
        },
        None => None,
    }
}

/// What `Path::parent` gives for the path `p` on Unix targets, as text.
pub uninterp spec fn path_parent(p: Seq<char>) -> Option<Seq<char>>;

/// What `Path::with_extension(ext)` gives for the path `p` on Unix
/// targets, as text.
pub uninterp spec fn path_with_extension(p: Seq<char>, ext: Seq<char>) -> Seq<char>;

/// What `Path::strip_prefix(base)` gives for the path `p` on Unix targets,
/// as text, or `None` when `base` is not a prefix of `p` component-wise.
pub uninterp spec fn path_strip_prefix(p: Seq<char>, base: Seq<char>) -> Option<Seq<char>>;

/// `Path::extension`, as text.
#[verifier::external_body]
pub(crate) fn extension(p: &str) -> (r: Option<String>)
    ensures
        r matches Some(e) ==> path_extension(p@) == Some(e@),
        r is None ==> path_extension(p@) is None,
{
    Path::new(p).extension().map(|e| e.to_string_lossy().into_owned())
}

/// `Path::file_name`, as text.
#[verifier::external_body]
pub(crate) fn file_name(p: &str) -> (r: Option<String>)
    ensures
        r matches Some(e) ==> path_file_name(p@) == Some(e@),
        r is None ==> path_file_name(p@) is None,
{
    Path::new(p).file_name().map(|e| e.to_string_lossy().into_owned())
}

/// `==` on `Path`s: std compares their components.
#[verifier::external_body]
pub(crate) fn same_path(p: &str, q: &str) -> (b: bool)
    ensures
        b == (path_components(p@) == path_components(q@)),
{
    Path::new(p) == Path::new(q)
}

/// `Path::parent`: the path without its last component; the text is tied
/// to the name `path_parent`. As std documents it, there is none for the
/// empty path or one ending in the root, and otherwise its components are
/// the path's without the last.
#[verifier::external_body]
pub(crate) fn parent(p: &str) -> (r: Option<String>)
    ensures
        r matches Some(e) ==> path_parent(p@) == Some(e@),
        r is None ==> path_parent(p@) is None,
        r is None <==> (path_components(p@).len() == 0 || path_components(p@).last() == seq!['/']),
        r matches Some(e) ==> path_components(e@) == path_components(p@).drop_last(),
{
    Path::new(p).parent().map(|e| e.to_string_lossy().into_owned())
}

/// `Path::with_extension`: the result is tied to the name
/// `path_with_extension`. As std documents it, a path without a file name comes
/// back unchanged; otherwise the parent stays and, for a non-empty `ext`
/// without `.`, the stem stays and the extension becomes `ext`. For a path
/// that ends in its file name, the text is the path up to the stem's end,
/// `.`, then `ext` (the path is cut after the stem, then `.` and `ext` are
/// added). An `ext`
/// holding `/` is refused, as std panics on it; how the text is cut and
/// joined is left unsaid.
#[verifier::external_body]
pub(crate) fn with_extension(p: &str, ext: &str) -> (r: String)
    requires
        !ext@.contains('/'),
    ensures
        r@ == path_with_extension(p@, ext@),
        path_file_name(p@) is None ==> r@ == p@,
        path_file_name(p@) is Some ==> path_parent(r@) == path_parent(p@),
        path_file_name(p@) is Some && ext@.len() > 0 && !ext@.contains('.') ==> path_extension(r@)
            == Some(ext@) && path_file_stem(r@) == path_file_stem(p@),        path_file_name(p@) is Some && path_file_name(p@)->0.is_suffix_of(p@) && ext@.len() > 0 ==> r@
            == p@.subrange(0, p@.len() - path_file_name(p@)->0.len()) + path_file_stem(p@)->0 + seq!['.']
            + ext@,
{
    Path::new(p).with_extension(ext).to_string_lossy().into_owned()
}

/// `Path::strip_prefix`: `p` relative to `base`; the result is tied to the
/// name `path_strip_prefix`. As std documents it, it fails exactly when the
/// components of `base` do not start those of `p`, and otherwise gives the
/// remaining components.
#[verifier::external_body]
pub(crate) fn strip_prefix(p: &str, base: &str) -> (r: Option<String>)
    ensures
        r matches Some(e) ==> path_strip_prefix(p@, base@) == Some(e@),
        r is None ==> path_strip_prefix(p@, base@) is None,
        r is None <==> !path_components(base@).is_prefix_of(path_components(p@)),
        r matches Some(e) ==> path_components(base@) + path_components(e@) == path_components(p@),
{
    Path::new(p).strip_prefix(base).ok().map(|e| e.to_string_lossy().into_owned())
}

/// `dir.join(name)` for a `name` that does not start with `/`: a `/` is put
/// between them unless `dir` is empty or already ends with one.
pub open spec fn join_spec(dir: Seq<char>, name: Seq<char>) -> Seq<char> {
    if dir.len() == 0 || dir.last() == '/' {
        dir + name
    } else {
        dir + seq!['/'] + name
    }
}

/// `Path::join` of a directory and a relative name.
pub fn join(dir: &str, name: &str) -> (r: String)
    requires
        name@.len() == 0 || name@[0] != '/',
    ensures
        r@ == join_spec(dir@, name@),
{
    let d = crate::text::chars_of(dir);
    let n = crate::text::chars_of(name);
    let mut out = d.clone();
    if d.len() > 0 && d[d.len() - 1] != '/' {
        out.push('/');
    }
    let ghost base = out@;
    let mut i: usize = 0;
    while i < n.len()
        invariant
            i <= n@.len(),
            out@ == base + n@.subrange(0, i as int),
        decreases n@.len() - i,
    {
        out.push(n[i]);
        assert(out@ =~= base + n@.subrange(0, i + 1));
        i = i + 1;
    }
    assert(n@.subrange(0, n@.len() as int) =~= n@);
    assert(d@ == dir@);
    crate::text::string_of(out.as_slice())
}

} // verus!
