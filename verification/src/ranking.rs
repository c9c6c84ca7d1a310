//! Ranking of candidate strings by relevance.
//!
//! Candidates are scored, zero scores dropped, and the rest sorted by score
//! descending with a stable insertion sort: candidates with equal scores keep
//! their input order.

use vstd::prelude::*;

use core::cmp::Ordering;

use crate::heuristic::{relevance_score, HeuristicConfig};
use crate::heuristic::calculate_relevance_score_with_config;
use crate::text::{chars_eq, chars_of};

verus! {

/// A candidate together with its relevance score.
#[derive(Clone, Debug, PartialEq, Eq)]
pub struct ScoredMatch {
    /// The matched text.
    pub text: String,
    /// The relevance score in `0..=1000`.
    pub score: u32,
}

impl PartialOrd for ScoredMatch {
    /// Matches order by score descending: a higher score compares as less,
    /// so that sorted order puts the best match first.
    fn partial_cmp(&self, other: &Self) -> Option<Ordering> {
        if other.score < self.score {
            Some(Ordering::Less)
        } else if other.score > self.score {
            Some(Ordering::Greater)
        } else {
            Some(Ordering::Equal)
        }
    }
}

impl vstd::std_specs::cmp::PartialOrdSpecImpl for ScoredMatch {
    open spec fn obeys_partial_cmp_spec() -> bool {
        true
    }

    open spec fn partial_cmp_spec(&self, other: &Self) -> Option<Ordering> {
        if other.score < self.score {
            Some(Ordering::Less)
        } else if other.score > self.score {
            Some(Ordering::Greater)
        } else {
            Some(Ordering::Equal)
        }
    }
}

/// The view of a scored match: its text's characters and its score.
pub open spec fn match_view(m: ScoredMatch) -> (Seq<char>, u32) {
    (m.text@, m.score)
}

/// Scores are non-increasing from left to right.
pub open spec fn sorted_desc<V>(s: Seq<(V, u32)>) -> bool {
    forall|i: int, j: int| 0 <= i < j < s.len() ==> s[i].1 >= s[j].1
}

/// Insert `x` after every element scoring at least `x`'s score.
pub open spec fn insert_desc<V>(s: Seq<(V, u32)>, x: (V, u32)) -> Seq<(V, u32)>
    decreases s.len(),
{
    if s.len() == 0 {
        seq![x]
    } else if s.first().1 >= x.1 {
        seq![s.first()] + insert_desc(s.drop_first(), x)
    } else {
        seq![x] + s
    }
}

/// Stable sort by score descending: insert the elements left to right.
pub open spec fn sort_desc<V>(s: Seq<(V, u32)>) -> Seq<(V, u32)>
    decreases s.len(),
{
    if s.len() == 0 {
        Seq::<(V, u32)>::empty()
    } else {
        insert_desc(sort_desc(s.drop_last()), s.last())
    }
}

/// The subsequence of elements scoring exactly `v`, in order.
pub open spec fn keep_score<V>(s: Seq<(V, u32)>, v: u32) -> Seq<(V, u32)>
    decreases s.len(),
{
    if s.len() == 0 {
        Seq::<(V, u32)>::empty()
    } else if s.first().1 == v {
        seq![s.first()] + keep_score(s.drop_first(), v)
    } else {
        keep_score(s.drop_first(), v)
    }
}

/// Where `insert_desc` puts the new element: after the leading run of
/// elements scoring at least as much.
pub open spec fn insert_pos<V>(s: Seq<(V, u32)>, x: (V, u32)) -> int
    decreases s.len(),
{
    if s.len() == 0 {
        0
    } else if s.first().1 >= x.1 {
        1 + insert_pos(s.drop_first(), x)
    } else {
        0
    }
}

/// `insert_desc` equals a positional insertion at `insert_pos`.
pub proof fn lemma_insert_desc_eq<V>(s: Seq<(V, u32)>, x: (V, u32))
    ensures
        0 <= insert_pos(s, x) <= s.len(),
        insert_desc(s, x) == s.take(insert_pos(s, x)) + seq![x] + s.skip(insert_pos(s, x)),
        forall|k: int| 0 <= k < insert_pos(s, x) ==> s[k].1 >= x.1,
        insert_pos(s, x) < s.len() ==> s[insert_pos(s, x)].1 < x.1,
    decreases s.len(),
{
    if s.len() == 0 {
        assert(insert_desc(s, x) =~= s.take(0) + seq![x] + s.skip(0));
    } else if s.first().1 >= x.1 {
        lemma_insert_desc_eq(s.drop_first(), x);
        let p = insert_pos(s.drop_first(), x);
        assert(s.take(p + 1) =~= seq![s.first()] + s.drop_first().take(p));
        assert(s.skip(p + 1) =~= s.drop_first().skip(p));
        assert(insert_desc(s, x) =~= s.take(p + 1) + seq![x] + s.skip(p + 1));
        assert forall|k: int| 0 <= k < insert_pos(s, x) implies s[k].1 >= x.1 by {
            if k > 0 {
                assert(s[k] == s.drop_first()[k - 1]);
            }
        }
        if insert_pos(s, x) < s.len() {
            assert(s[insert_pos(s, x)] == s.drop_first()[p]);
        }
    } else {
        assert(insert_desc(s, x) =~= s.take(0) + seq![x] + s.skip(0));
    }
}

/// A position with the leading-run property is `insert_pos`.
pub proof fn lemma_insert_pos_unique<V>(s: Seq<(V, u32)>, x: (V, u32), pos: int)
    requires
        0 <= pos <= s.len(),
        forall|k: int| 0 <= k < pos ==> s[k].1 >= x.1,
        pos < s.len() ==> s[pos].1 < x.1,
    ensures
        insert_pos(s, x) == pos,
    decreases s.len(),
{
    if s.len() == 0 {
    } else if pos == 0 {
    } else {
        assert(s[0].1 >= x.1);
        assert forall|k: int| 0 <= k < pos - 1 implies s.drop_first()[k].1 >= x.1 by {
            assert(s.drop_first()[k] == s[k + 1]);
        }
        if pos - 1 < s.drop_first().len() {
            assert(s.drop_first()[pos - 1] == s[pos]);
        }
        lemma_insert_pos_unique(s.drop_first(), x, pos - 1);
    }
}

/// Inserting into a sorted sequence keeps it sorted.
pub proof fn lemma_insert_sorted<V>(s: Seq<(V, u32)>, x: (V, u32))
    requires
        sorted_desc(s),
    ensures
        sorted_desc(insert_desc(s, x)),
{
    lemma_insert_desc_eq(s, x);
    let pos = insert_pos(s, x);
    let r = insert_desc(s, x);
    assert forall|i: int, j: int| 0 <= i < j < r.len() implies r[i].1 >= r[j].1 by {
        assert(r == s.take(pos) + seq![x] + s.skip(pos));
        if i < pos {
            assert(r[i] == s[i]);
        } else if i == pos {
            assert(r[i] == x);
        } else {
            assert(r[i] == s[i - 1]);
        }
        if j < pos {
            assert(r[j] == s[j]);
        } else if j == pos {
            assert(r[j] == x);
        } else {
            assert(r[j] == s[j - 1]);
        }
        if i < pos && j == pos {
            assert(s[i].1 >= x.1);
        }
        if i == pos && j > pos {
            // every element from pos on scores below x
            assert(s[pos].1 < x.1);
            assert(s[j - 1].1 <= s[pos].1);
        }
    }
}

/// A sequence with no element scoring `v` filters to nothing.
proof fn lemma_keep_none<V>(s: Seq<(V, u32)>, v: u32)
    requires
        forall|k: int| 0 <= k < s.len() ==> s[k].1 != v,
    ensures
        keep_score(s, v) == Seq::<(V, u32)>::empty(),
    decreases s.len(),
{
    if s.len() == 0 {
    } else {
        assert forall|k: int| 0 <= k < s.drop_first().len() implies s.drop_first()[k].1 != v by {
            assert(s.drop_first()[k] == s[k + 1]);
        }
        lemma_keep_none(s.drop_first(), v);
    }
}

/// Filtering distributes over concatenation.
proof fn lemma_keep_concat<V>(a: Seq<(V, u32)>, b: Seq<(V, u32)>, v: u32)
    ensures
        keep_score(a + b, v) == keep_score(a, v) + keep_score(b, v),
    decreases a.len(),
{
    if a.len() == 0 {
        assert(a + b =~= b);
        assert(keep_score(a, v) + keep_score(b, v) =~= keep_score(b, v));
    } else {
        assert((a + b).first() == a.first());
        assert((a + b).drop_first() =~= a.drop_first() + b);
        lemma_keep_concat(a.drop_first(), b, v);
        if a.first().1 == v {
            assert(seq![a.first()] + (keep_score(a.drop_first(), v) + keep_score(b, v)) =~= (
            seq![a.first()] + keep_score(a.drop_first(), v)) + keep_score(b, v));
        }
    }
}

/// Filtering a single element keeps it exactly when it scores `v`.
proof fn lemma_keep_single<V>(x: (V, u32), v: u32)
    ensures
        keep_score(seq![x], v) == if x.1 == v {
            seq![x]
        } else {
            Seq::<(V, u32)>::empty()
        },
{
    let s = seq![x];
    assert(s.first() == x);
    assert(s.drop_first() =~= Seq::<(V, u32)>::empty());
    assert(keep_score(Seq::<(V, u32)>::empty(), v) == Seq::<(V, u32)>::empty());
    if x.1 == v {
        assert(keep_score(s, v) =~= seq![x]);
    }
}

/// Inserting `x` appends it to its own score class and leaves every other
/// class unchanged.
proof fn lemma_insert_keep<V>(s: Seq<(V, u32)>, x: (V, u32), v: u32)
    requires
        sorted_desc(s),
    ensures
        keep_score(insert_desc(s, x), v) == if x.1 == v {
            keep_score(s, v).push(x)
        } else {
            keep_score(s, v)
        },
{
    lemma_insert_desc_eq(s, x);
    let pos = insert_pos(s, x);
    let front = s.take(pos);
    let back = s.skip(pos);
    lemma_keep_concat(front, seq![x] + back, v);
    lemma_keep_concat(seq![x], back, v);
    lemma_keep_concat(front, back, v);
    assert(insert_desc(s, x) == front + (seq![x] + back)) by {
        assert(front + (seq![x] + back) =~= front + seq![x] + back);
    }
    assert(s =~= front + back);
    if x.1 == v {
        // nothing after the insertion point can score v: the element at pos
        // scores below x, and the tail is sorted under it
        assert forall|k: int| 0 <= k < back.len() implies back[k].1 != v by {
            assert(back[k] == s[pos + k]);
            assert(s[pos].1 < x.1);
            if k > 0 {
                assert(s[pos + k].1 <= s[pos].1);
            }
        }
        lemma_keep_none(back, v);
        lemma_keep_single(x, v);
        assert(keep_score(insert_desc(s, x), v) =~= keep_score(s, v).push(x));
    } else {
        lemma_keep_single(x, v);
        assert(keep_score(insert_desc(s, x), v) =~= keep_score(s, v));
    }
}

/// Filtering looks through the last element.
proof fn lemma_keep_drop_last<V>(s: Seq<(V, u32)>, v: u32)
    requires
        s.len() > 0,
    ensures
        keep_score(s, v) == if s.last().1 == v {
            keep_score(s.drop_last(), v).push(s.last())
        } else {
            keep_score(s.drop_last(), v)
        },
{
    assert(s =~= s.drop_last() + seq![s.last()]);
    lemma_keep_concat(s.drop_last(), seq![s.last()], v);
    lemma_keep_single(s.last(), v);
    if s.last().1 == v {
        assert(keep_score(s.drop_last(), v) + seq![s.last()] =~= keep_score(
            s.drop_last(),
            v,
        ).push(s.last()));
    } else {
        assert(keep_score(s.drop_last(), v) + Seq::<(V, u32)>::empty() =~= keep_score(
            s.drop_last(),
            v,
        ));
    }
}

/// The sort leaves its output sorted by score descending and, within each
/// score class, in input order: ties preserve the original relative order.
pub proof fn lemma_sort_desc_sorted_stable<V>(s: Seq<(V, u32)>)
    ensures
        sorted_desc(sort_desc(s)),
        forall|v: u32| keep_score(sort_desc(s), v) == keep_score(s, v),
    decreases s.len(),
{
    if s.len() == 0 {
    } else {
        lemma_sort_desc_sorted_stable(s.drop_last());
        lemma_insert_sorted(sort_desc(s.drop_last()), s.last());
        assert forall|v: u32| keep_score(sort_desc(s), v) == keep_score(s, v) by {
            lemma_insert_keep(sort_desc(s.drop_last()), s.last(), v);
            lemma_keep_drop_last(s, v);
        }
    }
}

/// The candidates that score above zero, each paired with its score, in
/// input order.
pub open spec fn scored_list(
    p: Seq<char>,
    cs: Seq<Seq<char>>,
    cfg: HeuristicConfig,
) -> Seq<(Seq<char>, u32)>
    decreases cs.len(),
{
    if cs.len() == 0 {
        Seq::<(Seq<char>, u32)>::empty()
    } else {
        let rest = scored_list(p, cs.drop_last(), cfg);
        let sc = relevance_score(p, cs.last(), p == cs.last(), false, cfg);
        if sc > 0 {
            rest.push((cs.last(), sc as u32))
        } else {
            rest
        }
    }
}

/// Score every candidate against the pattern (exact-match flag from literal
/// equality, case-insensitive), drop the zero scores, and return the rest
/// sorted by score descending, ties in input order.
#[verifier::loop_isolation(false)]
pub fn rank_candidates(pattern: &str, candidates: &[&str], config: &HeuristicConfig) -> (r: Vec<
    ScoredMatch,
>)
    ensures
        r@.map_values(|m: ScoredMatch| match_view(m)) == sort_desc(
            scored_list(pattern@, candidates@.map_values(|c: &str| c@), *config),
        ),
        sorted_desc(r@.map_values(|m: ScoredMatch| match_view(m))),
{
    let ghost cviews = candidates@.map_values(|c: &str| c@);
    let pc = chars_of(pattern);
    let n = candidates.len();
    let mut out: Vec<ScoredMatch> = Vec::new();
    proof {
        assert(cviews.take(0) =~= Seq::<Seq<char>>::empty());
        assert(out@.map_values(|m: ScoredMatch| match_view(m)) =~= Seq::<(Seq<char>, u32)>::empty());
        lemma_sort_desc_sorted_stable(scored_list(pattern@, cviews.take(0), *config));
    }
    let mut idx: usize = 0;
    while idx < n
        invariant
            idx <= n,
            out@.map_values(|m: ScoredMatch| match_view(m)) == sort_desc(
                scored_list(pattern@, cviews.take(idx as int), *config),
            ),
            sorted_desc(out@.map_values(|m: ScoredMatch| match_view(m))),
        decreases n - idx,
    {
        let ghost prefix = scored_list(pattern@, cviews.take(idx as int), *config);
        let ghost mapped = out@.map_values(|m: ScoredMatch| match_view(m));
        let cand: &str = candidates[idx];
        let cc = chars_of(cand);
        let is_exact = chars_eq(pc.as_slice(), cc.as_slice());
        let score = calculate_relevance_score_with_config(pattern, cand, is_exact, false, config);
        proof {
            assert(cviews.take(idx + 1).drop_last() =~= cviews.take(idx as int));
            assert(cviews.take(idx + 1).last() == cand@);
        }
        if score > 0 {
            let x = ScoredMatch { text: cand.to_owned(), score };
            let mut pos: usize = 0;
            while pos < out.len() && out[pos].score >= score
                invariant
                    pos <= out@.len(),
                    forall|k: int| 0 <= k < pos ==> mapped[k].1 >= score,
                decreases out@.len() - pos,
            {
                pos = pos + 1;
            }
            proof {
                if pos < out@.len() {
                    assert(mapped[pos as int].1 < score);
                }
                lemma_insert_pos_unique(mapped, match_view(x), pos as int);
                lemma_insert_desc_eq(mapped, match_view(x));
                lemma_insert_sorted(mapped, match_view(x));
            }
            let ghost out_before = out@;
            out.insert(pos, x);
            proof {
                assert(out@ =~= out_before.take(pos as int) + seq![x] + out_before.skip(pos as int));
                assert(out@.map_values(|m: ScoredMatch| match_view(m)) =~= mapped.take(
                    pos as int,
                ) + seq![match_view(x)] + mapped.skip(pos as int)) by {
                    let newmapped = out@.map_values(|m: ScoredMatch| match_view(m));
                    let target = mapped.take(pos as int) + seq![match_view(x)] + mapped.skip(
                        pos as int,
                    );
                    assert forall|k: int| 0 <= k < newmapped.len() implies newmapped[k] == target[k] by {
                        if k < pos {
                            assert(out@[k] == out_before[k]);
                        } else if k == pos {
                            assert(out@[k] == x);
                        } else {
                            assert(out@[k] == out_before[k - 1]);
                        }
                    }
                }
                assert(out@.map_values(|m: ScoredMatch| match_view(m)) == insert_desc(
                    mapped,
                    match_view(x),
                ));
                assert(scored_list(pattern@, cviews.take(idx + 1), *config) == prefix.push(
                    match_view(x),
                ));
                assert(sort_desc(prefix.push(match_view(x))) == insert_desc(
                    sort_desc(prefix.push(match_view(x)).drop_last()),
                    match_view(x),
                ));
                assert(prefix.push(match_view(x)).drop_last() =~= prefix);
            }
        } else {
            proof {
                assert(scored_list(pattern@, cviews.take(idx + 1), *config) == prefix);
            }
        }
        idx = idx + 1;
    }
    proof {
        assert(cviews.take(n as int) =~= cviews);
    }
    out
}

} // verus!
