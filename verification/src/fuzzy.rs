//! Fuzzy filename search: each label is scored against the query by
//! `nucleo-matcher` (path-aware configuration, smart case folding), and the
//! matching labels are ranked by descending score, ties in list order.

use nucleo_matcher::pattern::{CaseMatching, Normalization, Pattern};
use nucleo_matcher::{Config, Matcher, Utf32Str};
use vstd::prelude::*;

use crate::text::chars_of;

verus! {

/// The score `nucleo-matcher` gives `item` for `query` (pattern parsed with
/// case-insensitive matching and smart normalization, matcher configured
/// for paths), or `None` when it does not match.
pub uninterp spec fn fuzzy_score(query: Seq<char>, item: Seq<char>) -> Option<u32>;

/// The number of words of `q`: maximal runs of characters other than a
/// space.
pub open spec fn word_count(q: Seq<char>) -> nat
    decreases q.len(),
{
    if q.len() == 0 {
        0
    } else {
        word_count(q.drop_last()) + if q.last() != ' ' && (q.len() == 1 || q[q.len() - 2] == ' ') {
            1nat
        } else {
            0nat
        }
    }
}

/// Most words a query may have. `Pattern::score` adds one `u16` score per
/// word of the query (its atoms, split at unescaped spaces, empty ones
/// dropped, so no more than the words) into a `u32`; 65537 scores of at most
/// 65535 fit exactly.
pub const MAX_QUERY_WORDS: usize = 65537;

/// The number of words of `q`.
pub fn count_words(q: &str) -> (n: usize)
    ensures
        n == word_count(q@),
{
    let c = chars_of(q);
    let mut n: usize = 0;
    let mut i: usize = 0;
    while i < c.len()
        invariant
            i <= c@.len(),
            c@ == q@,
            n == word_count(c@.subrange(0, i as int)),
            n <= i,
        decreases c@.len() - i,
    {
        let ghost before = c@.subrange(0, i as int);
        let ghost after = c@.subrange(0, i + 1);
        proof {
            assert(after.drop_last() =~= before);
            assert(after.last() == c@[i as int]);
            if i > 0 {
                assert(after[i - 1] == c@[i - 1]);
            }
        }
        if c[i] != ' ' && (i == 0 || c[i - 1] == ' ') {
            n = n + 1;
        }
        i = i + 1;
    }
    assert(c@.subrange(0, c@.len() as int) =~= c@);
    n
}

/// Scores `item` against `query` with `nucleo-matcher`: parses the query
/// into a `Pattern` and scores the item with a `Matcher` built from
/// `Config::DEFAULT.match_paths()`. The result is tied to the name
/// `fuzzy_score`; the scoring rules themselves are left unsaid. The query
/// may have at most `MAX_QUERY_WORDS` words, past which the summed score
/// can overflow, and the item at most `u32::MAX` characters, past which the
/// matcher asserts.
#[verifier::external_body]
fn score(query: &str, item: &str) -> (r: Option<u32>)
    requires
        word_count(query@) <= MAX_QUERY_WORDS,
        item@.len() <= u32::MAX,
    ensures
        r == fuzzy_score(query@, item@),
{
    let mut matcher = Matcher::new(Config::DEFAULT.match_paths());
    let pattern = Pattern::parse(query, CaseMatching::Ignore, Normalization::Smart);
    let mut buf = Vec::new();
    pattern.score(Utf32Str::new(item, &mut buf), &mut matcher)
}

/// Item `i` ranks above item `j`: a higher score, or the same score and an
/// earlier position.
pub open spec fn ranks_above(scores: Seq<Option<u32>>, i: int, j: int) -> bool {
    let a = scores[i]->0;
    let b = scores[j]->0;
    a > b || (a == b && i < j)
}

/// `r` is the ranking of `scores`: every matching index once, none other,
/// best score first, ties in list order.
pub open spec fn is_ranking(scores: Seq<Option<u32>>, r: Seq<usize>) -> bool {
    &&& forall|k: int| 0 <= k < r.len() ==> #[trigger] r[k] < scores.len() && scores[r[k] as int] is Some
    &&& forall|i: int| 0 <= i < scores.len() && scores[i] is Some ==> #[trigger] r.contains(i as usize)
    &&& forall|k: int, l: int|
        0 <= k < l < r.len() ==> ranks_above(scores, #[trigger] r[k] as int, #[trigger] r[l] as int)
}

/// Whether item `j` matched with a score of at least `s`.
fn scored_at_least(scores: &Vec<Option<u32>>, j: usize, s: u32) -> (b: bool)
    requires
        j < scores@.len(),
    ensures
        b == (scores@[j as int] matches Some(t) && t >= s),
{
    match scores[j] {
        Some(t) => t >= s,
        None => false,
    }
}

/// Ranks the matching items (`Some` score) by descending score; items with
/// equal scores keep their order.
pub fn rank(scores: &Vec<Option<u32>>) -> (r: Vec<usize>)
    ensures
        is_ranking(scores@, r@),
{
    let mut out: Vec<usize> = Vec::new();
    let mut i: usize = 0;
    while i < scores.len()
        invariant
            i <= scores@.len(),
            forall|k: int| 0 <= k < out@.len() ==> #[trigger] out@[k] < i && scores@[out@[k] as int] is Some,
            forall|j: int| 0 <= j < i && scores@[j] is Some ==> #[trigger] out@.contains(j as usize),
            forall|k: int, l: int|
                0 <= k < l < out@.len() ==> ranks_above(scores@, #[trigger] out@[k] as int, #[trigger] out@[l] as int),
        decreases scores@.len() - i,
    {
        if let Some(s) = scores[i] {
            let mut pos: usize = 0;
            while pos < out.len() && scored_at_least(scores, out[pos], s)
                invariant
                    i < scores@.len(),
                    scores@[i as int] == Some(s),
                    pos <= out@.len(),
                    forall|k: int| 0 <= k < out@.len() ==> #[trigger] out@[k] < i && scores@[out@[k] as int] is Some,
                    forall|k: int| 0 <= k < pos ==> ranks_above(scores@, #[trigger] out@[k] as int, i as int),
                decreases out@.len() - pos,
            {
                pos = pos + 1;
            }
            let ghost old_out = out@;
            proof {
                if pos < old_out.len() {
                    assert forall|k: int| pos <= k < old_out.len() implies ranks_above(
                        scores@,
                        i as int,
                        #[trigger] old_out[k] as int,
                    ) by {
                        if k > pos {
                            assert(ranks_above(scores@, old_out[pos as int] as int, old_out[k] as int));
                        }
                    }
                }
            }
            out.insert(pos, i);
            proof {
                assert forall|k: int, l: int|
                    0 <= k < l < out@.len() implies ranks_above(scores@, #[trigger] out@[k] as int, #[trigger] out@[l] as int) by {
                    if l < pos {
                        assert(out@[k] == old_out[k] && out@[l] == old_out[l]);
                    } else if l == pos {
                        assert(out@[k] == old_out[k]);
                    } else if k == pos {
                        assert(out@[l] == old_out[l - 1]);
                    } else if k < pos {
                        assert(out@[k] == old_out[k] && out@[l] == old_out[l - 1]);
                    } else {
                        assert(out@[k] == old_out[k - 1] && out@[l] == old_out[l - 1]);
                    }
                }
                assert forall|j: int| 0 <= j < i + 1 && scores@[j] is Some implies #[trigger] out@.contains(j as usize) by {
                    if j == i {
                        assert(out@[pos as int] == i);
                    } else {
                        assert(old_out.contains(j as usize));
                        let k = choose|k: int| 0 <= k < old_out.len() && old_out[k] == j as usize;
                        if k < pos {
                            assert(out@[k] == j as usize);
                        } else {
                            assert(out@[k + 1] == j as usize);
                        }
                    }
                }
                assert forall|k: int| 0 <= k < out@.len() implies #[trigger] out@[k] < i + 1 && scores@[out@[k] as int] is Some by {
                    if k < pos {
                        assert(out@[k] == old_out[k]);
                    } else if k > pos {
                        assert(out@[k] == old_out[k - 1]);
                    }
                }
            }
        }
        i = i + 1;
    }
    out
}

/// The scores of `items` for `query`.
pub open spec fn scores_of(query: Seq<char>, items: Seq<String>) -> Seq<Option<u32>> {
    items.map_values(|s: String| fuzzy_score(query, s@))
}

/// Fuzzy-filters `items` by `query`, returning the matching indices ordered
/// by descending score (ties in list order). An empty query yields no
/// matches: the caller shows the tree instead.
pub fn filter(query: &str, items: &Vec<String>) -> (r: Vec<usize>)
    requires
        word_count(query@) <= MAX_QUERY_WORDS,
        forall|i: int| 0 <= i < items@.len() ==> (#[trigger] items@[i])@.len() <= u32::MAX,
    ensures
        query@.len() == 0 ==> r@.len() == 0,
        query@.len() > 0 ==> is_ranking(scores_of(query@, items@), r@),
{
    if chars_of(query).len() == 0 {
        return Vec::new();
    }
    let mut scores: Vec<Option<u32>> = Vec::new();
    let mut i: usize = 0;
    while i < items.len()
        invariant
            i <= items@.len(),
            word_count(query@) <= MAX_QUERY_WORDS,
            forall|j: int| 0 <= j < items@.len() ==> (#[trigger] items@[j])@.len() <= u32::MAX,
            scores@ == scores_of(query@, items@).subrange(0, i as int),
        decreases items@.len() - i,
    {
        scores.push(score(query, items[i].as_str()));
        assert(scores@ =~= scores_of(query@, items@).subrange(0, i + 1));
        i = i + 1;
    }
    assert(scores@ =~= scores_of(query@, items@));
    rank(&scores)
}

} // verus!

verus! {

proof fn lemma_prefix_step(scores: Seq<Option<u32>>, p: Seq<usize>, q: Seq<usize>, f: int)
    requires
        scores.len() <= usize::MAX,
        is_ranking(scores, p),
        is_ranking(scores, q),
        0 <= f < p.len(),
        forall|m: int| 0 <= m < f ==> p[m] == q[m],
    ensures
        f < q.len() && p[f] == q[f],
{
    let pf = p[f] as int;
    assert(pf < scores.len() && scores[pf] is Some);
    assert(q.contains(pf as usize));
    let l = choose|l: int| 0 <= l < q.len() && q[l] == pf as usize;
    if l < f {
        assert(p[l] == q[l]);
        assert(ranks_above(scores, p[l] as int, p[f] as int));
    }
    if f < q.len() && p[f] != q[f] {
        let qf = q[f] as int;
        assert(qf < scores.len() && scores[qf] is Some);
        assert(p.contains(qf as usize));
        let m = choose|m: int| 0 <= m < p.len() && p[m] == qf as usize;
        if m < f {
            assert(q[m] == p[m]);
            assert(ranks_above(scores, q[m] as int, q[f] as int));
        }
        assert(l > f);
        assert(m > f);
        assert(ranks_above(scores, q[f] as int, q[l] as int));
        assert(ranks_above(scores, p[f] as int, p[m] as int));
    }
}

/// The ranking is unique: the contract of [`rank`] and [`filter`] allows
/// exactly one result.
pub proof fn law_ranking_unique(scores: Seq<Option<u32>>, p: Seq<usize>, q: Seq<usize>)
    requires
        scores.len() <= usize::MAX,
        is_ranking(scores, p),
        is_ranking(scores, q),
    ensures
        p == q,
{
    let n = if p.len() < q.len() { p.len() } else { q.len() };
    assert forall|f: int| 0 <= f < n implies p[f] == q[f] by {
        lemma_equal_upto(scores, p, q, f + 1);
    }
    if p.len() != q.len() {
        lemma_equal_upto(scores, p, q, n as int);
        if p.len() > q.len() {
            lemma_prefix_step(scores, p, q, n as int);
        } else {
            lemma_prefix_step(scores, q, p, n as int);
        }
    }
    assert(p =~= q);
}

proof fn lemma_equal_upto(scores: Seq<Option<u32>>, p: Seq<usize>, q: Seq<usize>, f: int)
    requires
        scores.len() <= usize::MAX,
        is_ranking(scores, p),
        is_ranking(scores, q),
        0 <= f <= p.len(),
        f <= q.len(),
    ensures
        forall|m: int| 0 <= m < f ==> p[m] == q[m],
    decreases f,
{
    if f > 0 {
        lemma_equal_upto(scores, p, q, f - 1);
        lemma_prefix_step(scores, p, q, f - 1);
    }
}

} // verus!
