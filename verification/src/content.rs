//! Full-text search: case-insensitive substring search over the contents of
//! the notes. The caller reads the files; a file it could not read is given
//! as `None` and skipped.

use vstd::prelude::*;

use crate::text::{
    chars_of, contains, contains_spec, lines, lines_spec, lowercase, string_of, take_chars,
    take_spec, to_lowercase, trim_chars, trim_spec, views,
};

verus! {

/// One content-search hit: index into the caller's file list and the first
/// matching line, trimmed for display.
pub struct ContentHit {
    pub file: usize,
    pub snippet: String,
}

/// A hit as plain values.
pub open spec fn hit_view(h: ContentHit) -> (usize, Seq<char>) {
    (h.file, h.snippet@)
}

/// The longest snippet shown, in characters.
pub const SNIPPET_CHARS: usize = 80;

/// The first of `lines` whose lowercase form contains `needle`, trimmed and
/// cut to 80 characters.
pub open spec fn first_match(lines: Seq<Seq<char>>, needle: Seq<char>) -> Option<Seq<char>>
    decreases lines.len(),
{
    if lines.len() == 0 {
        None
    } else if contains_spec(lowercase(lines[0]), needle) {
        Some(take_spec(trim_spec(lines[0]), SNIPPET_CHARS as nat))
    } else {
        first_match(lines.subrange(1, lines.len() as int), needle)
    }
}

/// The snippet for `line`, whose lowercase form is `lowered`: the line
/// trimmed and cut to 80 characters when `lowered` contains `needle`.
pub fn line_snippet(line: &Vec<char>, lowered: &str, needle: &Vec<char>) -> (r: Option<String>)
    ensures
        r matches Some(s) ==> contains_spec(lowered@, needle@) && s@ == take_spec(
            trim_spec(line@),
            SNIPPET_CHARS as nat,
        ),
        r is None ==> !contains_spec(lowered@, needle@),
{
    let lower = chars_of(lowered);
    if contains(&lower, needle) {
        let t = trim_chars(line);
        let s = take_chars(&t, SNIPPET_CHARS);
        Some(string_of(s.as_slice()))
    } else {
        None
    }
}

/// First line of `text` containing the already-lowercased `needle`, trimmed
/// and capped at 80 chars for display.
pub fn match_in(text: &str, needle: &str) -> (r: Option<String>)
    ensures
        r matches Some(s) ==> first_match(lines_spec(text@), needle@) == Some(s@),
        r is None ==> first_match(lines_spec(text@), needle@) is None,
        r matches Some(sn) ==> exists|k: int|
            0 <= k < lines_spec(text@).len() && contains_spec(lowercase(#[trigger] lines_spec(text@)[k]), needle@)
                && sn@ == take_spec(trim_spec(lines_spec(text@)[k]), SNIPPET_CHARS as nat) && forall|j: int|
                0 <= j < k ==> !contains_spec(lowercase(#[trigger] lines_spec(text@)[j]), needle@),
        r is None ==> forall|k: int|
            0 <= k < lines_spec(text@).len() ==> !contains_spec(lowercase(#[trigger] lines_spec(text@)[k]), needle@),
{
    proof {
        law_first_matching_line(lines_spec(text@), needle@);
    }
    let ls = lines(&chars_of(text));
    let nd = chars_of(needle);
    let ghost all = views(ls@);
    let mut i: usize = 0;
    assert(all.subrange(0, all.len() as int) =~= all);
    while i < ls.len()
        invariant
            all == views(ls@),
            all == lines_spec(text@),
            nd@ == needle@,
            i <= ls@.len(),
            first_match(all, nd@) == first_match(all.subrange(i as int, all.len() as int), nd@),
        decreases ls@.len() - i,
    {
        let line = string_of(ls[i].as_slice());
        let lowered = to_lowercase(line.as_str());
        let ghost rest = all.subrange(i as int, all.len() as int);
        assert(rest[0] == ls@[i as int]@);
        if let Some(s) = line_snippet(&ls[i], lowered.as_str(), &nd) {
            proof {
                law_first_matching_line(all, nd@);
            }
            return Some(s);
        }
        assert(rest.subrange(1, rest.len() as int) =~= all.subrange(i + 1, all.len() as int));
        i = i + 1;
    }
    None
}

/// The hits among the first `n` files: each readable file whose text has a
/// line matching `needle`, in file order.
pub open spec fn hits_upto(needle: Seq<char>, contents: Seq<Option<Seq<char>>>, n: int) -> Seq<
    (usize, Seq<char>),
>
    decreases n,
{
    if n <= 0 || n > contents.len() {
        Seq::empty()
    } else {
        let prev = hits_upto(needle, contents, n - 1);
        match contents[n - 1] {
            Some(text) => match first_match(lines_spec(text), needle) {
                Some(s) => prev.push(((n - 1) as usize, s)),
                None => prev,
            },
            None => prev,
        }
    }
}

/// The contents as plain values.
pub open spec fn contents_view(contents: Seq<Option<String>>) -> Seq<Option<Seq<char>>> {
    contents.map_values(
        |o: Option<String>|
            match o {
                Some(s) => Some(s@),
                None => None,
            },
    )
}

/// Case-insensitive substring search over note contents: for each readable
/// file (in order), the first line containing the query. Empty query
/// finds nothing.
pub fn search(query: &str, contents: &Vec<Option<String>>) -> (hits: Vec<ContentHit>)
    ensures
        query@.len() == 0 ==> hits@.len() == 0,
        query@.len() > 0 ==> hits@.map_values(|h: ContentHit| hit_view(h)) == hits_upto(
            lowercase(query@),
            contents_view(contents@),
            contents@.len() as int,
        ),
{
    let q = chars_of(query);
    if q.len() == 0 {
        return Vec::new();
    }
    let needle = to_lowercase(query);
    search_lowered(needle.as_str(), contents)
}

/// The hits for the already-lowercased `needle`: for each readable file
/// (in order), the first line whose lowercase form contains it.
pub fn search_lowered(needle: &str, contents: &Vec<Option<String>>) -> (hits: Vec<ContentHit>)
    ensures
        hits@.map_values(|h: ContentHit| hit_view(h)) == hits_upto(
            needle@,
            contents_view(contents@),
            contents@.len() as int,
        ),
{
    let mut out: Vec<ContentHit> = Vec::new();
    let ghost cv = contents_view(contents@);
    let mut i: usize = 0;
    assert(out@.map_values(|h: ContentHit| hit_view(h)) =~= hits_upto(needle@, cv, 0));
    while i < contents.len()
        invariant
            i <= contents@.len(),
            cv == contents_view(contents@),
            out@.map_values(|h: ContentHit| hit_view(h)) == hits_upto(needle@, cv, i as int),
        decreases contents@.len() - i,
    {
        let ghost before = out@.map_values(|h: ContentHit| hit_view(h));
        match &contents[i] {
            Some(text) => {
                match match_in(text.as_str(), needle) {
                    Some(snippet) => {
                        out.push(ContentHit { file: i, snippet });
                        assert(out@.map_values(|h: ContentHit| hit_view(h)) =~= before.push(
                            hit_view(out@.last()),
                        ));
                    },
                    None => {},
                }
            },
            None => {},
        }
        proof {
            assert(cv[i as int] == (match contents@[i as int] {
                Some(s) => Some(s@),
                None => None,
            }));
            assert(out@.map_values(|h: ContentHit| hit_view(h)) =~= hits_upto(needle@, cv, i + 1));
        }
        i = i + 1;
    }
    out
}

} // verus!

verus! {

/// Content hits keep the order of the note list: their note indices are
/// strictly increasing, and each is a note that was given.
pub proof fn law_hits_in_file_order(needle: Seq<char>, contents: Seq<Option<Seq<char>>>, n: int)
    requires
        0 <= n <= contents.len(),
        contents.len() <= usize::MAX,
    ensures
        forall|k: int, l: int|
            0 <= k < l < hits_upto(needle, contents, n).len() ==> (#[trigger] hits_upto(needle, contents, n)[k]).0
                < (#[trigger] hits_upto(needle, contents, n)[l]).0,
        forall|k: int|
            0 <= k < hits_upto(needle, contents, n).len() ==> (#[trigger] hits_upto(needle, contents, n)[k]).0 < n,
    decreases n,
{
    if n > 0 {
        law_hits_in_file_order(needle, contents, n - 1);
        let prev = hits_upto(needle, contents, n - 1);
        let cur = hits_upto(needle, contents, n);
        match contents[n - 1] {
            Some(text) => match first_match(lines_spec(text), needle) {
                Some(s) => {
                    assert(cur == prev.push(((n - 1) as usize, s)));
                    assert forall|k: int| 0 <= k < cur.len() implies (#[trigger] cur[k]).0 < n by {
                        if k < prev.len() {
                            assert(cur[k] == prev[k]);
                        }
                    }
                    assert forall|k: int, l: int| 0 <= k < l < cur.len() implies (#[trigger] cur[k]).0 < (#[trigger] cur[l]).0 by {
                        assert(cur[k] == prev[k]);
                        if l < prev.len() {
                            assert(cur[l] == prev[l]);
                        } else {
                            assert(cur[l].0 == n - 1);
                            assert(prev[k].0 < n - 1);
                        }
                    }
                },
                None => {},
            },
            None => {},
        }
    }
}

} // verus!

verus! {

/// The snippet comes from the earliest matching line: when some line's
/// lowercase form contains `needle`, the result is the first such line,
/// trimmed and cut to 80 characters, and no earlier line matches; when no
/// line matches, there is none.
pub proof fn law_first_matching_line(lines: Seq<Seq<char>>, needle: Seq<char>)
    ensures
        match first_match(lines, needle) {
            Some(s) => exists|k: int|
                0 <= k < lines.len() && contains_spec(lowercase(#[trigger] lines[k]), needle) && s
                    == take_spec(trim_spec(lines[k]), SNIPPET_CHARS as nat) && forall|j: int|
                    0 <= j < k ==> !contains_spec(lowercase(#[trigger] lines[j]), needle),
            None => forall|k: int| 0 <= k < lines.len() ==> !contains_spec(lowercase(#[trigger] lines[k]), needle),
        },
    decreases lines.len(),
{
    if lines.len() > 0 {
        let rest = lines.subrange(1, lines.len() as int);
        law_first_matching_line(rest, needle);
        if contains_spec(lowercase(lines[0]), needle) {
            assert(contains_spec(lowercase(lines[0]), needle));
        } else {
            match first_match(rest, needle) {
                Some(s) => {
                    let k = choose|k: int|
                        0 <= k < rest.len() && contains_spec(lowercase(#[trigger] rest[k]), needle) && s
                            == take_spec(trim_spec(rest[k]), SNIPPET_CHARS as nat) && forall|j: int|
                            0 <= j < k ==> !contains_spec(lowercase(#[trigger] rest[j]), needle);
                    assert(lines[k + 1] == rest[k]);
                    assert forall|j: int| 0 <= j < k + 1 implies !contains_spec(lowercase(#[trigger] lines[j]), needle) by {
                        if j > 0 {
                            assert(lines[j] == rest[j - 1]);
                        }
                    }
                },
                None => {
                    assert forall|k: int| 0 <= k < lines.len() implies !contains_spec(lowercase(#[trigger] lines[k]), needle) by {
                        if k > 0 {
                            assert(lines[k] == rest[k - 1]);
                        }
                    }
                },
            }
        }
    }
}

} // verus!
