//! Incremental search reuse under the strict single-character policy.
//!
//! A cached result set may be reused only when the new pattern extends the
//! cached one by exactly one character (typing) or is exactly one character
//! shorter and a prefix of it (deleting). Reuse rescores the cached
//! candidates instead of rescanning the source.

use std::collections::VecDeque;

use vstd::prelude::*;

use crate::ranking::{
    insert_desc,
    lemma_insert_desc_eq,
    lemma_insert_pos_unique,
    lemma_insert_sorted,
    sort_desc,
    sorted_desc,
};
use crate::text::{chars_of, contains_seq, is_prefix, lower_of, prefix_chars, to_lower, chars_eq};

verus! {

/// A cached search result, with its lowercased text and character array
/// precomputed for rescoring.
#[derive(Clone, Debug, PartialEq, Eq)]
pub struct IncrementalResult {
    /// The matched text.
    pub text: String,
    /// The lowercased text.
    pub text_lower: String,
    /// The characters of the lowercased text.
    pub text_chars: Vec<char>,
    /// The file the match came from.
    pub path: String,
    /// The current relevance score.
    pub score: u32,
}

/// The observable content of a result: its four texts and its score.
pub open spec fn inc_view(e: IncrementalResult) -> (
    (Seq<char>, Seq<char>, Seq<char>, Seq<char>),
    u32,
) {
    ((e.text@, e.text_lower@, e.text_chars@, e.path@), e.score)
}

/// The cached entries rescored with `scores` (one score per entry, in
/// order), entries scoring zero dropped, the rest in cache order carrying
/// their new scores, as observable content.
pub open spec fn rescored_views(cached: Seq<IncrementalResult>, scores: Seq<u32>) -> Seq<
    ((Seq<char>, Seq<char>, Seq<char>, Seq<char>), u32),
>
    decreases cached.len(),
{
    if cached.len() == 0 {
        Seq::<((Seq<char>, Seq<char>, Seq<char>, Seq<char>), u32)>::empty()
    } else {
        let rest = rescored_views(cached.drop_last(), scores.drop_last());
        let e = cached.last();
        let sc = scores[cached.len() - 1];
        if sc > 0 {
            rest.push(((e.text@, e.text_lower@, e.text_chars@, e.path@), sc))
        } else {
            rest
        }
    }
}

/// `s` is a score the supplied scoring function can return for the given
/// lowercased pattern and lowercased text.
pub open spec fn consistent_score<F: Fn(&str, &str) -> u32>(
    f: F,
    pview: Seq<char>,
    tview: Seq<char>,
    s: u32,
) -> bool {
    exists|pl: &str, tl: &str| pl@ == pview && tl@ == tview && call_ensures(f, (pl, tl), s)
}

/// Incremental search engine holding the previous query's results.
pub struct IncrementalSearch {
    last_pattern: String,
    cached_results: Vec<IncrementalResult>,
    pattern_history: VecDeque<String>,
    max_results: usize,
}

impl IncrementalSearch {
    /// The pattern the cached results belong to.
    pub closed spec fn spec_last_pattern(&self) -> Seq<char> {
        self.last_pattern@
    }

    /// The cached results.
    pub closed spec fn spec_cached(&self) -> Seq<IncrementalResult> {
        self.cached_results@
    }

    /// The recent-pattern history, oldest first.
    pub closed spec fn spec_history(&self) -> Seq<String> {
        self.pattern_history@
    }

    /// The cache's capacity in results.
    pub closed spec fn spec_max_results(&self) -> usize {
        self.max_results
    }

    /// A fresh engine caching at most `max_results` results.
    pub fn new(max_results: usize) -> (r: Self)
        ensures
            r.spec_last_pattern() == Seq::<char>::empty(),
            r.spec_cached() == Seq::<IncrementalResult>::empty(),
            r.spec_history() == Seq::<String>::empty(),
            r.spec_max_results() == max_results,
    {
        IncrementalSearch {
            last_pattern: String::new(),
            cached_results: Vec::new(),
            pattern_history: VecDeque::new(),
            max_results,
        }
    }

    /// The strict single-character reuse rule: the new pattern must be one
    /// character longer and extend the cached pattern, or one character
    /// shorter and be a prefix of it; empty patterns and an empty cache
    /// never reuse.
    pub open spec fn spec_can_reuse(&self, p: Seq<char>) -> bool {
        &&& p.len() > 0
        &&& self.spec_last_pattern().len() > 0
        &&& self.spec_cached().len() > 0
        &&& ({
            ||| (p.len() == self.spec_last_pattern().len() + 1 && is_prefix(
                self.spec_last_pattern(),
                p,
            ))
            ||| (self.spec_last_pattern().len() == p.len() + 1 && is_prefix(
                p,
                self.spec_last_pattern(),
            ))
        })
    }

    /// May the cached results be reused for `new_pattern`?
    pub fn can_reuse(&self, new_pattern: &str) -> (r: bool)
        ensures
            r == self.spec_can_reuse(new_pattern@),
    {
        let pc = chars_of(new_pattern);
        let lc = chars_of(self.last_pattern.as_str());
        if pc.len() == 0 || lc.len() == 0 {
            return false;
        }
        if self.cached_results.len() == 0 {
            return false;
        }
        if pc.len() - 1 == lc.len() && prefix_chars(pc.as_slice(), lc.as_slice()) {
            return true;
        }
        if lc.len() - 1 == pc.len() && prefix_chars(lc.as_slice(), pc.as_slice()) {
            return true;
        }
        false
    }

    /// Rescore the cached results for a new pattern with the supplied
    /// scoring function, called on the lowercased pattern and each result's
    /// lowercased text. Every cached entry is rescored; entries scoring
    /// zero are dropped, and the rest come back as copies carrying their
    /// new scores, stably sorted by score descending (equal scores keep
    /// cache order).
    #[verifier::loop_isolation(false)]
    pub fn filter_results<F: Fn(&str, &str) -> u32>(&self, new_pattern: &str, score_fn: F) -> (r:
        Vec<IncrementalResult>)
        requires
            forall|x: (&str, &str)| call_requires(score_fn, x),
        ensures
            forall|i: int, j: int| 0 <= i < j < r@.len() ==> r@[i].score >= r@[j].score,
            exists|scores: Seq<u32>|
                {
                    &&& scores.len() == self.spec_cached().len()
                    &&& (forall|k: int|
                        #![trigger scores[k]]
                        0 <= k < scores.len() ==> consistent_score(
                            score_fn,
                            lower_of(new_pattern@),
                            self.spec_cached()[k].text_lower@,
                            scores[k],
                        ))
                    &&& r@.map_values(|e: IncrementalResult| inc_view(e)) == sort_desc(
                        rescored_views(self.spec_cached(), scores),
                    )
                },
    {
        let patt_lower = to_lower(new_pattern);
        let n = self.cached_results.len();
        let mut out: Vec<IncrementalResult> = Vec::new();
        let ghost mut scores: Seq<u32> = Seq::<u32>::empty();
        proof {
            assert(rescored_views(self.spec_cached().take(0), scores)
                =~= Seq::<((Seq<char>, Seq<char>, Seq<char>, Seq<char>), u32)>::empty());
            assert(out@.map_values(|e: IncrementalResult| inc_view(e)) =~= sort_desc(
                rescored_views(self.spec_cached().take(0), scores),
            ));
        }
        let mut idx: usize = 0;
        while idx < n
            invariant
                idx <= n,
                n == self.spec_cached().len(),
                patt_lower@ == lower_of(new_pattern@),
                forall|x: (&str, &str)| call_requires(score_fn, x),
                scores.len() == idx,
                forall|k: int|
                    #![trigger scores[k]]
                    0 <= k < idx ==> consistent_score(
                        score_fn,
                        lower_of(new_pattern@),
                        self.spec_cached()[k].text_lower@,
                        scores[k],
                    ),
                out@.map_values(|e: IncrementalResult| inc_view(e)) == sort_desc(
                    rescored_views(self.spec_cached().take(idx as int), scores),
                ),
                sorted_desc(out@.map_values(|e: IncrementalResult| inc_view(e))),
            decreases n - idx,
        {
            let ghost mapped = out@.map_values(|e: IncrementalResult| inc_view(e));
            let ghost prev_rescored = rescored_views(self.spec_cached().take(idx as int), scores);
            let ghost old_scores = scores;
            let e = &self.cached_results[idx];
            let ps: &str = patt_lower.as_str();
            let ts: &str = e.text_lower.as_str();
            let new_score = score_fn(ps, ts);
            proof {
                scores = scores.push(new_score);
                assert(self.spec_cached().take(idx + 1).drop_last() =~= self.spec_cached().take(
                    idx as int,
                ));
                assert(self.spec_cached().take(idx + 1).last() == self.spec_cached()[idx as int]);
                assert(scores.drop_last() =~= old_scores);
                assert(scores[idx as int] == new_score);
            }
            if new_score > 0 {
                let copy = IncrementalResult {
                    text: e.text.clone(),
                    text_lower: e.text_lower.clone(),
                    text_chars: e.text_chars.clone(),
                    path: e.path.clone(),
                    score: new_score,
                };
                proof {
                    assert(copy.text_chars@ =~= e.text_chars@);
                }
                // insert in score-descending position, after equal scores
                let mut pos: usize = 0;
                while pos < out.len() && out[pos].score >= new_score
                    invariant
                        pos <= out@.len(),
                        forall|k: int| 0 <= k < pos ==> out@[k].score >= new_score,
                    decreases out@.len() - pos,
                {
                    pos = pos + 1;
                }
                proof {
                    let x = inc_view(copy);
                    assert forall|k: int| 0 <= k < pos implies mapped[k].1 >= x.1 by {
                        assert(mapped[k] == inc_view(out@[k]));
                    }
                    if pos < out@.len() {
                        assert(mapped[pos as int] == inc_view(out@[pos as int]));
                        assert(mapped[pos as int].1 < x.1);
                    }
                    lemma_insert_pos_unique(mapped, x, pos as int);
                    lemma_insert_desc_eq(mapped, x);
                    lemma_insert_sorted(mapped, x);
                }
                let ghost out_before = out@;
                out.insert(pos, copy);
                proof {
                    let x = inc_view(copy);
                    assert(out@ =~= out_before.take(pos as int) + seq![copy] + out_before.skip(
                        pos as int,
                    ));
                    assert(out@.map_values(|e2: IncrementalResult| inc_view(e2)) =~= mapped.take(
                        pos as int,
                    ) + seq![x] + mapped.skip(pos as int)) by {
                        let newmapped = out@.map_values(|e2: IncrementalResult| inc_view(e2));
                        let target = mapped.take(pos as int) + seq![x] + mapped.skip(pos as int);
                        assert forall|k2: int|
                            0 <= k2 < newmapped.len() implies newmapped[k2] == target[k2] by {
                            if k2 < pos {
                                assert(out@[k2] == out_before[k2]);
                            } else if k2 == pos {
                                assert(out@[k2] == copy);
                            } else {
                                assert(out@[k2] == out_before[k2 - 1]);
                            }
                        }
                    }
                    assert(out@.map_values(|e2: IncrementalResult| inc_view(e2)) == insert_desc(
                        mapped,
                        x,
                    ));
                    assert(rescored_views(self.spec_cached().take(idx + 1), scores)
                        == prev_rescored.push(x));
                    assert(sort_desc(prev_rescored.push(x)) == insert_desc(
                        sort_desc(prev_rescored.push(x).drop_last()),
                        x,
                    ));
                    assert(prev_rescored.push(x).drop_last() =~= prev_rescored);
                }
            } else {
                proof {
                    assert(rescored_views(self.spec_cached().take(idx + 1), scores)
                        == prev_rescored);
                }
            }
            proof {
                assert(consistent_score(
                    score_fn,
                    lower_of(new_pattern@),
                    self.spec_cached()[idx as int].text_lower@,
                    new_score,
                )) by {
                    assert(ps@ == lower_of(new_pattern@) && ts@
                        == self.spec_cached()[idx as int].text_lower@ && call_ensures(
                        score_fn,
                        (ps, ts),
                        new_score,
                    ));
                }
                assert forall|k: int|
                    #![trigger scores[k]]
                    0 <= k < idx + 1 implies consistent_score(
                    score_fn,
                    lower_of(new_pattern@),
                    self.spec_cached()[k].text_lower@,
                    scores[k],
                ) by {
                    if k < idx {
                        assert(old_scores[k] == scores[k]);
                    } else {
                        assert(scores[k] == new_score);
                    }
                }
            }
            idx = idx + 1;
        }
        proof {
            assert(self.spec_cached().take(n as int) =~= self.spec_cached());
            let final_mapped = out@.map_values(|e: IncrementalResult| inc_view(e));
            assert forall|i: int, j: int|
                0 <= i < j < out@.len() implies out@[i].score >= out@[j].score by {
                assert(final_mapped[i] == inc_view(out@[i]));
                assert(final_mapped[j] == inc_view(out@[j]));
            }
            assert(exists|sc2: Seq<u32>|
                {
                    &&& sc2.len() == self.spec_cached().len()
                    &&& (forall|k: int|
                        #![trigger sc2[k]]
                        0 <= k < sc2.len() ==> consistent_score(
                            score_fn,
                            lower_of(new_pattern@),
                            self.spec_cached()[k].text_lower@,
                            sc2[k],
                        ))
                    &&& out@.map_values(|e: IncrementalResult| inc_view(e)) == sort_desc(
                        rescored_views(self.spec_cached(), sc2),
                    )
                }) by {
                assert(scores.len() == self.spec_cached().len());
                assert(forall|k: int|
                    #![trigger scores[k]]
                    0 <= k < scores.len() ==> consistent_score(
                        score_fn,
                        lower_of(new_pattern@),
                        self.spec_cached()[k].text_lower@,
                        scores[k],
                    ));
                assert(rescored_views(self.spec_cached(), scores) == rescored_views(
                    self.spec_cached().take(n as int),
                    scores,
                ));
                assert(out@.map_values(|e: IncrementalResult| inc_view(e)) == sort_desc(
                    rescored_views(self.spec_cached(), scores),
                ));
            }
        }
        out
    }

    /// Install a new pattern's results, keeping at most the configured
    /// number, and append the pattern to the bounded history.
    pub fn update(&mut self, pattern: String, results: Vec<IncrementalResult>)
        ensures
            final(self).spec_max_results() == old(self).spec_max_results(),
            final(self).spec_last_pattern() == pattern@,
            final(self).spec_cached() == results@.take(
                if results@.len() < old(self).spec_max_results() {
                    results@.len() as int
                } else {
                    old(self).spec_max_results() as int
                },
            ),
            final(self).spec_history() == ({
                let pushed = old(self).spec_history().push(pattern);
                if pushed.len() > 100 {
                    pushed.drop_first()
                } else {
                    pushed
                }
            }),
    {
        let history_copy = pattern.clone();
        self.last_pattern = pattern;
        let mut res = results;
        res.truncate(self.max_results);
        self.cached_results = res;
        self.pattern_history.push_back(history_copy);
        if self.pattern_history.len() > 100 {
            self.pattern_history.pop_front();
        }
    }

    /// The cached results, or `None` when nothing is cached.
    pub fn get_cached(&self) -> (r: Option<&[IncrementalResult]>)
        ensures
            match r {
                Some(s) => self.spec_cached().len() > 0 && s@ == self.spec_cached(),
                None => self.spec_cached().len() == 0,
            },
    {
        if self.cached_results.len() == 0 {
            None
        } else {
            Some(self.cached_results.as_slice())
        }
    }

    /// Forget the cached pattern, results and history.
    pub fn clear(&mut self)
        ensures
            final(self).spec_last_pattern() == Seq::<char>::empty(),
            final(self).spec_cached() == Seq::<IncrementalResult>::empty(),
            final(self).spec_history() == Seq::<String>::empty(),
            final(self).spec_max_results() == old(self).spec_max_results(),
    {
        self.last_pattern = String::new();
        self.cached_results.clear();
        self.pattern_history.clear();
    }

    /// How many results and history entries are held.
    pub fn stats(&self) -> (r: (usize, usize))
        ensures
            r.0 == self.spec_cached().len(),
            r.1 == self.spec_history().len(),
    {
        (self.cached_results.len(), self.pattern_history.len())
    }
}

impl Default for IncrementalSearch {
    /// An engine caching at most fifty results.
    fn default() -> (r: Self)
        ensures
            r.spec_last_pattern() == Seq::<char>::empty(),
            r.spec_cached() == Seq::<IncrementalResult>::empty(),
            r.spec_history() == Seq::<String>::empty(),
            r.spec_max_results() == 50,
    {
        Self::new(50)
    }
}

/// The award for matching a pattern character at text position `i`: 100
/// minus the position, floored at one.
pub open spec fn position_award(i: int) -> int {
    if i < 99 {
        100 - i
    } else {
        1
    }
}

/// The accumulated awards of the greedy in-order walk matching `p` in `t`
/// from position `i` on: `None` when not every pattern character is found.
pub open spec fn fuzzy_award_sum(p: Seq<char>, t: Seq<char>, i: int) -> Option<int>
    decreases t.len() - i + 1,
{
    if p.len() == 0 {
        Some(0)
    } else if i < 0 || i >= t.len() {
        None
    } else if t[i] == p[0] {
        match fuzzy_award_sum(p.drop_first(), t, i + 1) {
            Some(s) => Some(position_award(i) + s),
            None => None,
        }
    } else {
        fuzzy_award_sum(p, t, i + 1)
    }
}

/// The tiered score over already-lowercased strings: 1000 for an equal
/// string, 900 for a prefix, 700 for a substring; otherwise the award sum of
/// a complete in-order match, capped at the integer limit and floored at
/// 100, or 0 when some pattern character is missing.
pub open spec fn spec_tiered_score(pl: Seq<char>, tl: Seq<char>) -> u32 {
    if tl == pl {
        1000u32
    } else if is_prefix(pl, tl) {
        900u32
    } else if contains_seq(tl, pl) {
        700u32
    } else {
        match fuzzy_award_sum(pl, tl, 0) {
            Some(s) => {
                let capped = if s > u32::MAX {
                    u32::MAX as int
                } else {
                    s
                };
                if capped < 100 {
                    100u32
                } else {
                    capped as u32
                }
            },
            None => 0u32,
        }
    }
}

/// The tiered incremental score: an empty pattern scores 1000, otherwise
/// the tiered score of the lowercased pattern against the lowercased text.
pub open spec fn spec_incremental_score(p: Seq<char>, pl: Seq<char>, tl: Seq<char>) -> u32 {
    if p.len() == 0 {
        1000u32
    } else {
        spec_tiered_score(pl, tl)
    }
}

/// The awards are never negative.
proof fn lemma_award_sum_nonneg(p: Seq<char>, t: Seq<char>, i: int)
    ensures
        match fuzzy_award_sum(p, t, i) {
            Some(s) => s >= 0,
            None => true,
        },
    decreases t.len() - i + 1,
{
    if p.len() == 0 {
    } else if i < 0 || i >= t.len() {
    } else if t[i] == p[0] {
        lemma_award_sum_nonneg(p.drop_first(), t, i + 1);
    } else {
        lemma_award_sum_nonneg(p, t, i + 1);
    }
}

/// The tiered score over strings that are already lowercase.
#[verifier::loop_isolation(false)]
pub fn incremental_score_lower(pattern_lower: &str, text_lower: &str) -> (r: u32)
    ensures
        r == spec_tiered_score(pattern_lower@, text_lower@),
{
    let pl = chars_of(pattern_lower);
    let tl = chars_of(text_lower);
    if chars_eq(tl.as_slice(), pl.as_slice()) {
        return 1000;
    }
    if crate::text::prefix_chars(tl.as_slice(), pl.as_slice()) {
        return 900;
    }
    if crate::text::contains_chars(tl.as_slice(), pl.as_slice()) {
        return 700;
    }
    let plen = pl.len();
    let tlen = tl.len();
    let mut pi: usize = 0;
    let mut ti: usize = 0;
    let mut acc: u32 = 0;
    let ghost mut sum0: int = 0;
    proof {
        assert(pl@.skip(0) =~= pl@);
        lemma_award_sum_nonneg(pl@, tl@, 0);
    }
    while ti < tlen && pi < plen
        invariant
            pi <= plen,
            ti <= tlen,
            0 <= sum0,
            acc == if sum0 > u32::MAX {
                u32::MAX as int
            } else {
                sum0
            },
            match fuzzy_award_sum(pl@.skip(pi as int), tl@, ti as int) {
                Some(rest) => fuzzy_award_sum(pl@, tl@, 0) == Some(sum0 + rest),
                None => fuzzy_award_sum(pl@, tl@, 0) is None,
            },
        decreases tlen - ti,
    {
        proof {
            let ps = pl@.skip(pi as int);
            assert(ps[0] == pl@[pi as int]);
            assert(ps.drop_first() =~= pl@.skip(pi + 1));
            lemma_award_sum_nonneg(pl@.skip(pi + 1), tl@, ti + 1);
            lemma_award_sum_nonneg(pl@.skip(pi as int), tl@, ti + 1);
        }
        if tl[ti] == pl[pi] {
            let award: u32 = if ti < 99 {
                100 - (ti as u32)
            } else {
                1
            };
            if acc > u32::MAX - award {
                acc = u32::MAX;
            } else {
                acc = acc + award;
            }
            proof {
                sum0 = sum0 + position_award(ti as int);
            }
            pi = pi + 1;
        }
        ti = ti + 1;
    }
    proof {
        if pi >= plen {
            assert(pl@.skip(pi as int).len() == 0);
            assert(fuzzy_award_sum(pl@.skip(pi as int), tl@, ti as int) == Some(0int));
        } else {
            assert(fuzzy_award_sum(pl@.skip(pi as int), tl@, ti as int) is None);
        }
    }
    if pi < plen {
        return 0;
    }
    if acc < 100 {
        100
    } else {
        acc
    }
}

/// The tiered incremental score of `text` for `pattern`: both sides are
/// lowercased, then scored by exactness, prefix, substring, or an in-order
/// character walk.
pub fn incremental_score(pattern: &str, text: &str) -> (r: u32)
    ensures
        r == spec_incremental_score(pattern@, lower_of(pattern@), lower_of(text@)),
{
    if pattern.is_empty() {
        return 1000;
    }
    let pl = to_lower(pattern);
    let tl = to_lower(text);
    incremental_score_lower(pl.as_str(), tl.as_str())
}

} // verus!
