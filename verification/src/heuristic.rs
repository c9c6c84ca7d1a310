//! Weighted relevance scoring for fuzzy search.
//!
//! A score is an integer in `0..=1000`, the sum of six independent signal
//! contributions, capped at 1000. Fractional weights are carried as integer
//! per-mille values throughout, so every contribution is an exact integer
//! function of its inputs.

use vstd::arithmetic::div_mod::{
    lemma_div_is_ordered,
    lemma_div_multiples_vanish,
    lemma_div_pos_is_pos,
};
use vstd::prelude::*;

use crate::text::{
    ascii_eq_ci,
    chars_eq,
    chars_eq_ci,
    chars_of,
    char_is_alphanumeric,
    char_is_ascii_alnum,
    contains_chars,
    contains_seq,
    find_from,
    is_ascii_alnum,
    is_unicode_alnum,
    lower_of,
    match_at,
    to_lower,
};

verus! {

/// Per-mille weights of the six scoring signals.
#[derive(Clone, Debug, PartialEq, Eq, Structural)]
pub struct ScoringWeights {
    /// Weight of an exact match.
    pub exact_match: u32,
    /// Weight of a case-sensitive match.
    pub case_sensitive: u32,
    /// Weight of a word-boundary match.
    pub word_boundary: u32,
    /// Weight of a fuzzy in-order match.
    pub fuzzy_match: u32,
    /// Weight of a substring match.
    pub substring_match: u32,
    /// Weight of length similarity.
    pub length_similarity: u32,
}

impl Default for ScoringWeights {
    /// The standard weights, in per-mille.
    fn default() -> (r: Self)
        ensures
            r == spec_default_weights(),
    {
        ScoringWeights {
            exact_match: 1000,
            case_sensitive: 500,
            word_boundary: 300,
            fuzzy_match: 200,
            substring_match: 150,
            length_similarity: 100,
        }
    }
}

/// The standard weights, in per-mille.
pub open spec fn spec_default_weights() -> ScoringWeights {
    ScoringWeights {
        exact_match: 1000,
        case_sensitive: 500,
        word_boundary: 300,
        fuzzy_match: 200,
        substring_match: 150,
        length_similarity: 100,
    }
}

impl ScoringWeights {
    /// Custom weights for domain-specific scoring.
    pub fn new(
        exact_match: u32,
        case_sensitive: u32,
        word_boundary: u32,
        fuzzy_match: u32,
        substring_match: u32,
        length_similarity: u32,
    ) -> (r: Self)
        ensures
            r == (ScoringWeights {
                exact_match,
                case_sensitive,
                word_boundary,
                fuzzy_match,
                substring_match,
                length_similarity,
            }),
    {
        ScoringWeights {
            exact_match,
            case_sensitive,
            word_boundary,
            fuzzy_match,
            substring_match,
            length_similarity,
        }
    }

    /// The sum of the six weights.
    pub open spec fn spec_sum(&self) -> int {
        self.exact_match + self.case_sensitive + self.word_boundary + self.fuzzy_match
            + self.substring_match + self.length_similarity
    }

    /// Scale the weights so that they sum to (at most) one thousand
    /// per-mille; all-zero weights normalize to the standard weights.
    pub fn normalize(&self) -> (r: Self)
        ensures
            self.spec_sum() == 0 ==> r == spec_default_weights(),
            self.spec_sum() != 0 ==> {
                let s = self.spec_sum();
                &&& r.exact_match == self.exact_match * 1000 / s
                &&& r.case_sensitive == self.case_sensitive * 1000 / s
                &&& r.word_boundary == self.word_boundary * 1000 / s
                &&& r.fuzzy_match == self.fuzzy_match * 1000 / s
                &&& r.substring_match == self.substring_match * 1000 / s
                &&& r.length_similarity == self.length_similarity * 1000 / s
            },
    {
        let sum: u64 = self.exact_match as u64 + self.case_sensitive as u64
            + self.word_boundary as u64 + self.fuzzy_match as u64 + self.substring_match as u64
            + self.length_similarity as u64;
        if sum == 0 {
            return ScoringWeights::default();
        }
        proof {
            lemma_norm_weight_bound(self.exact_match as int, sum as int);
            lemma_norm_weight_bound(self.case_sensitive as int, sum as int);
            lemma_norm_weight_bound(self.word_boundary as int, sum as int);
            lemma_norm_weight_bound(self.fuzzy_match as int, sum as int);
            lemma_norm_weight_bound(self.substring_match as int, sum as int);
            lemma_norm_weight_bound(self.length_similarity as int, sum as int);
        }
        ScoringWeights {
            exact_match: (self.exact_match as u64 * 1000 / sum) as u32,
            case_sensitive: (self.case_sensitive as u64 * 1000 / sum) as u32,
            word_boundary: (self.word_boundary as u64 * 1000 / sum) as u32,
            fuzzy_match: (self.fuzzy_match as u64 * 1000 / sum) as u32,
            substring_match: (self.substring_match as u64 * 1000 / sum) as u32,
            length_similarity: (self.length_similarity as u64 * 1000 / sum) as u32,
        }
    }
}

/// A weight no larger than the total scales to at most 1000 per-mille.
proof fn lemma_norm_weight_bound(w: int, s: int)
    requires
        0 <= w <= s,
        1 <= s,
    ensures
        0 <= w * 1000 / s <= 1000,
{
    lemma_div_pos_is_pos(w * 1000, s);
    assert(w * 1000 <= s * 1000) by (nonlinear_arith)
        requires
            0 <= w <= s,
    ;
    lemma_div_is_ordered(w * 1000, s * 1000, s);
    lemma_div_multiples_vanish(1000, s);
}

/// Configuration of the heuristic matcher. Fractions are per-mille values.
#[derive(Clone, Debug, PartialEq, Eq, Structural)]
pub struct HeuristicConfig {
    /// Minimum fraction of pattern characters a fuzzy match must find, in
    /// per-mille.
    pub fuzzy_threshold: u32,
    /// Maximum edit distance for close matches; a quarter of the pattern
    /// length when absent.
    pub max_edit_distance: Option<usize>,
    /// Unicode-aware word boundaries, as opposed to ASCII-only.
    pub unicode_aware: bool,
    /// Case-sensitive substring matching.
    pub case_sensitive_substring: bool,
    /// Bonus multiplier for consecutive matches, in per-mille.
    pub consecutive_match_bonus: u32,
    /// Scoring weights.
    pub weights: ScoringWeights,
}

/// The default heuristic configuration.
pub open spec fn spec_default_config() -> HeuristicConfig {
    HeuristicConfig {
        fuzzy_threshold: 600,
        max_edit_distance: None,
        unicode_aware: true,
        case_sensitive_substring: false,
        consecutive_match_bonus: 1000,
        weights: spec_default_weights(),
    }
}

impl HeuristicConfig {
    /// A configuration with custom settings and standard weights.
    pub fn new(
        fuzzy_threshold: u32,
        max_edit_distance: Option<usize>,
        unicode_aware: bool,
        case_sensitive_substring: bool,
        consecutive_match_bonus: u32,
    ) -> (r: Self)
        ensures
            r == (HeuristicConfig {
                fuzzy_threshold,
                max_edit_distance,
                unicode_aware,
                case_sensitive_substring,
                consecutive_match_bonus,
                weights: spec_default_weights(),
            }),
    {
        HeuristicConfig {
            fuzzy_threshold,
            max_edit_distance,
            unicode_aware,
            case_sensitive_substring,
            consecutive_match_bonus,
            weights: ScoringWeights::default(),
        }
    }

    /// A configuration with custom settings and custom weights.
    pub fn with_weights(
        fuzzy_threshold: u32,
        max_edit_distance: Option<usize>,
        unicode_aware: bool,
        case_sensitive_substring: bool,
        consecutive_match_bonus: u32,
        weights: ScoringWeights,
    ) -> (r: Self)
        ensures
            r == (HeuristicConfig {
                fuzzy_threshold,
                max_edit_distance,
                unicode_aware,
                case_sensitive_substring,
                consecutive_match_bonus,
                weights,
            }),
    {
        HeuristicConfig {
            fuzzy_threshold,
            max_edit_distance,
            unicode_aware,
            case_sensitive_substring,
            consecutive_match_bonus,
            weights,
        }
    }
}

impl Default for HeuristicConfig {
    /// The default configuration.
    fn default() -> (r: Self)
        ensures
            r == spec_default_config(),
    {
        HeuristicConfig {
            fuzzy_threshold: 600,
            max_edit_distance: None,
            unicode_aware: true,
            case_sensitive_substring: false,
            consecutive_match_bonus: 1000,
            weights: ScoringWeights::default(),
        }
    }
}

// ---------------------------------------------------------------------------
// Signal specifications
// ---------------------------------------------------------------------------

/// Number of position-aligned equal characters of two sequences.
pub open spec fn aligned_eq_count(p: Seq<char>, t: Seq<char>) -> nat
    decreases p.len(),
{
    if p.len() == 0 || t.len() == 0 {
        0
    } else {
        (if p[0] == t[0] {
            1nat
        } else {
            0nat
        }) + aligned_eq_count(p.drop_first(), t.drop_first())
    }
}

/// No more characters can align than the pattern has.
proof fn lemma_aligned_eq_count_le(p: Seq<char>, t: Seq<char>)
    ensures
        aligned_eq_count(p, t) <= p.len(),
    decreases p.len(),
{
    if p.len() == 0 || t.len() == 0 {
    } else {
        lemma_aligned_eq_count_le(p.drop_first(), t.drop_first());
    }
}

/// The case-sensitivity contribution, in per-mille: full weight on a verbatim
/// match, else partial credit for the fraction of aligned equal characters.
pub open spec fn case_component(p: Seq<char>, t: Seq<char>, is_case_sensitive: bool) -> int {
    if !is_case_sensitive {
        0
    } else if p == t {
        500
    } else {
        (aligned_eq_count(p, t) as int) * 250 / (if p.len() == 0 {
            1int
        } else {
            p.len() as int
        })
    }
}

/// Is the character alphanumeric, under the configured notion?
pub open spec fn alnum_at(c: char, unicode: bool) -> bool {
    if unicode {
        is_unicode_alnum(c)
    } else {
        is_ascii_alnum(c)
    }
}

/// The occurrence of a pattern of length `plen` at `i` in `t` is flanked by
/// non-alphanumeric characters or the ends of `t`.
pub open spec fn word_boundary_ok(plen: int, t: Seq<char>, i: int, unicode: bool) -> bool {
    &&& (i == 0 || !alnum_at(t[i - 1], unicode))
    &&& (i + plen >= t.len() || !alnum_at(t[i + plen], unicode))
}

/// Some occurrence of `p` in `t` sits on a word boundary.
pub open spec fn is_word_boundary(p: Seq<char>, t: Seq<char>, unicode: bool) -> bool {
    exists|i: int| match_at(t, p, i) && word_boundary_ok(p.len() as int, t, i, unicode)
}

/// Number of pattern characters found in order in `t`, ASCII-case-folded,
/// by a greedy left-to-right walk.
pub open spec fn fuzzy_count(p: Seq<char>, t: Seq<char>) -> nat
    decreases t.len(),
{
    if p.len() == 0 || t.len() == 0 {
        0
    } else if ascii_eq_ci(t[0], p[0]) {
        1 + fuzzy_count(p.drop_first(), t.drop_first())
    } else {
        fuzzy_count(p, t.drop_first())
    }
}

/// The walk finds at most all pattern characters.
proof fn lemma_fuzzy_count_le(p: Seq<char>, t: Seq<char>)
    ensures
        fuzzy_count(p, t) <= p.len(),
    decreases t.len(),
{
    if p.len() == 0 || t.len() == 0 {
    } else if ascii_eq_ci(t[0], p[0]) {
        lemma_fuzzy_count_le(p.drop_first(), t.drop_first());
    } else {
        lemma_fuzzy_count_le(p, t.drop_first());
    }
}

/// At least `threshold` per-mille of the pattern's characters are found in
/// order; an empty pattern always passes.
pub open spec fn fuzzy_passes(p: Seq<char>, t: Seq<char>, threshold: int) -> bool {
    p.len() == 0 || fuzzy_count(p, t) * 1000 >= threshold * p.len()
}

/// The substring signal: `p` occurs in `t`, verbatim or lowercased.
pub open spec fn substring_holds(p: Seq<char>, t: Seq<char>, case_sensitive: bool) -> bool {
    if case_sensitive {
        contains_seq(t, p)
    } else {
        contains_seq(lower_of(t), lower_of(p))
    }
}

/// Length similarity in per-mille: 1000 for equal lengths, decreasing with
/// the relative difference, never negative.
pub open spec fn length_similarity_milli(plen: nat, tlen: nat) -> int {
    if plen == tlen {
        1000
    } else {
        let m = if plen > tlen {
            plen as int
        } else {
            tlen as int
        };
        let d = if plen > tlen {
            plen - tlen
        } else {
            tlen - plen
        };
        (m - d) * 1000 / m
    }
}

/// Length similarity stays in `0..=1000`.
proof fn lemma_length_similarity_bounds(plen: nat, tlen: nat)
    ensures
        0 <= length_similarity_milli(plen, tlen) <= 1000,
{
    if plen == tlen {
    } else {
        let m = if plen > tlen {
            plen as int
        } else {
            tlen as int
        };
        let d = if plen > tlen {
            plen - tlen
        } else {
            tlen - plen
        };
        lemma_div_pos_is_pos((m - d) * 1000, m);
        assert((m - d) * 1000 <= m * 1000) by (nonlinear_arith)
            requires
                0 <= m - d <= m,
        ;
        lemma_div_is_ordered((m - d) * 1000, m * 1000, m);
        lemma_div_multiples_vanish(1000, m);
    }
}

/// The case component stays in `0..=500`.
proof fn lemma_case_component_bounds(p: Seq<char>, t: Seq<char>, is_cs: bool)
    ensures
        0 <= case_component(p, t, is_cs) <= 500,
{
    if is_cs && p != t {
        let d = if p.len() == 0 {
            1int
        } else {
            p.len() as int
        };
        lemma_aligned_eq_count_le(p, t);
        lemma_div_pos_is_pos((aligned_eq_count(p, t) as int) * 250, d);
        assert((aligned_eq_count(p, t) as int) * 250 <= d * 250) by (nonlinear_arith)
            requires
                aligned_eq_count(p, t) as int <= d,
        ;
        lemma_div_is_ordered((aligned_eq_count(p, t) as int) * 250, d * 250, d);
        lemma_div_multiples_vanish(250, d);
    }
}

/// The relevance score: the capped sum of the six signal contributions.
pub open spec fn relevance_score(
    p: Seq<char>,
    t: Seq<char>,
    is_exact: bool,
    is_case_sensitive: bool,
    cfg: HeuristicConfig,
) -> int {
    let sum = (if is_exact {
        1000int
    } else {
        0int
    }) + case_component(p, t, is_case_sensitive) + (if is_word_boundary(
        p,
        t,
        cfg.unicode_aware,
    ) {
        300int
    } else {
        0int
    }) + (if fuzzy_passes(p, t, cfg.fuzzy_threshold as int) {
        200int
    } else {
        0int
    }) + (if substring_holds(p, t, cfg.case_sensitive_substring) {
        150int
    } else {
        0int
    }) + length_similarity_milli(p.len(), t.len()) / 10;
    if sum > 1000 {
        1000
    } else {
        sum
    }
}

/// Every score lies in `0..=1000`.
pub proof fn lemma_relevance_score_bounds(
    p: Seq<char>,
    t: Seq<char>,
    is_exact: bool,
    is_case_sensitive: bool,
    cfg: HeuristicConfig,
)
    ensures
        0 <= relevance_score(p, t, is_exact, is_case_sensitive, cfg) <= 1000,
{
    lemma_case_component_bounds(p, t, is_case_sensitive);
    lemma_length_similarity_bounds(p.len(), t.len());
}

/// An exact match scores 1000, the top of the range, so it scores at least
/// as much as any non-exact match of the same pattern against any text under
/// the same settings.
pub proof fn lemma_exact_match_dominates(
    p: Seq<char>,
    t1: Seq<char>,
    t2: Seq<char>,
    is_case_sensitive: bool,
    cfg: HeuristicConfig,
)
    ensures
        relevance_score(p, t1, true, is_case_sensitive, cfg) == 1000,
        relevance_score(p, t1, true, is_case_sensitive, cfg) >= relevance_score(
            p,
            t2,
            false,
            is_case_sensitive,
            cfg,
        ),
{
    lemma_case_component_bounds(p, t1, is_case_sensitive);
    lemma_length_similarity_bounds(p.len(), t1.len());
    lemma_relevance_score_bounds(p, t2, false, is_case_sensitive, cfg);
}

// ---------------------------------------------------------------------------
// Executable signal checks
// ---------------------------------------------------------------------------

/// Is the character alphanumeric, under the configured notion?
fn char_alnum(c: char, unicode: bool) -> (r: bool)
    ensures
        r == alnum_at(c, unicode),
{
    if unicode {
        char_is_alphanumeric(c)
    } else {
        char_is_ascii_alnum(c)
    }
}

/// Does some occurrence of the pattern in the text sit on a word boundary?
/// Occurrences are tried left to right until one is flanked by
/// non-alphanumeric characters or the text's ends. The alphanumeric test is
/// Unicode-aware or ASCII-only as requested.
#[verifier::loop_isolation(false)]
pub fn is_word_boundary_match(pattern: &str, text: &str, unicode_aware: bool) -> (r: bool)
    ensures
        r == is_word_boundary(pattern@, text@, unicode_aware),
{
    let pc = chars_of(pattern);
    let tc = chars_of(text);
    let plen = pc.len();
    let tlen = tc.len();
    if plen > tlen {
        proof {
            assert forall|i: int| !match_at(text@, pattern@, i) by {}
        }
        return false;
    }
    let last = tlen - plen;
    let mut from: usize = 0;
    loop
        invariant
            from <= tlen,
            forall|i: int|
                0 <= i < from ==> !(match_at(text@, pattern@, i) && word_boundary_ok(
                    plen as int,
                    text@,
                    i,
                    unicode_aware,
                )),
        decreases tlen - from,
    {
        match find_from(tc.as_slice(), pc.as_slice(), from) {
            None => {
                proof {
                    assert forall|i: int|
                        !(match_at(text@, pattern@, i) && word_boundary_ok(
                            plen as int,
                            text@,
                            i,
                            unicode_aware,
                        )) by {
                        if from <= i {
                            assert(!match_at(text@, pattern@, i));
                        }
                    }
                }
                return false;
            },
            Some(pos) => {
                proof {
                    assert(pos + pc@.len() <= tlen);
                }
                let before_ok: bool = if pos == 0 {
                    true
                } else {
                    !char_alnum(tc[pos - 1], unicode_aware)
                };
                let after_pos: usize = pos + plen;
                let after_ok: bool = if after_pos >= tlen {
                    true
                } else {
                    !char_alnum(tc[after_pos], unicode_aware)
                };
                if before_ok && after_ok {
                    proof {
                        assert(match_at(text@, pattern@, pos as int) && word_boundary_ok(
                            plen as int,
                            text@,
                            pos as int,
                            unicode_aware,
                        ));
                    }
                    return true;
                }
                if pos == last {
                    proof {
                        assert forall|i: int|
                            !(match_at(text@, pattern@, i) && word_boundary_ok(
                                plen as int,
                                text@,
                                i,
                                unicode_aware,
                            )) by {
                            if from <= i < pos {
                                assert(!match_at(text@, pattern@, i));
                            } else if i > last {
                                assert(!match_at(text@, pattern@, i));
                            }
                        }
                    }
                    return false;
                }
                from = pos + 1;
            },
        }
    }
}

/// Is the pattern a substring of the text, verbatim when case-sensitive,
/// otherwise after Unicode lowercasing of both sides?
pub fn is_substring_match(pattern: &str, text: &str, case_sensitive: bool) -> (r: bool)
    ensures
        r == substring_holds(pattern@, text@, case_sensitive),
{
    if case_sensitive {
        let pc = chars_of(pattern);
        let tc = chars_of(text);
        contains_chars(tc.as_slice(), pc.as_slice())
    } else {
        let pl = to_lower(pattern);
        let tl = to_lower(text);
        let pc = chars_of(pl.as_str());
        let tc = chars_of(tl.as_str());
        contains_chars(tc.as_slice(), pc.as_slice())
    }
}

/// Greedy in-order ASCII-case-folded count of pattern characters found in
/// the text.
#[verifier::loop_isolation(false)]
fn fuzzy_count_exec(p: &[char], t: &[char]) -> (r: usize)
    ensures
        r == fuzzy_count(p@, t@),
{
    proof {
        assert(p@.skip(0) =~= p@);
        assert(t@.skip(0) =~= t@);
    }
    let mut pi: usize = 0;
    let mut ti: usize = 0;
    let mut matched: usize = 0;
    let plen = p.len();
    let tlen = t.len();
    while ti < tlen && pi < plen
        invariant
            pi <= plen,
            ti <= tlen,
            matched <= pi,
            plen == p@.len(),
            tlen == t@.len(),
            fuzzy_count(p@, t@) == matched + fuzzy_count(p@.skip(pi as int), t@.skip(ti as int)),
        decreases tlen - ti,
    {
        proof {
            let ps = p@.skip(pi as int);
            let ts = t@.skip(ti as int);
            assert(ps[0] == p@[pi as int]);
            assert(ts[0] == t@[ti as int]);
            assert(ps.drop_first() =~= p@.skip(pi + 1));
            assert(ts.drop_first() =~= t@.skip(ti + 1));
        }
        if chars_eq_ci(t[ti], p[pi]) {
            pi = pi + 1;
            matched = matched + 1;
        }
        ti = ti + 1;
    }
    proof {
        if pi >= plen {
            assert(p@.skip(pi as int).len() == 0);
            assert(fuzzy_count(p@.skip(pi as int), t@.skip(ti as int)) == 0);
        } else {
            assert(t@.skip(ti as int).len() == 0);
            assert(fuzzy_count(p@.skip(pi as int), t@.skip(ti as int)) == 0);
        }
    }
    matched
}

/// Does a fuzzy in-order walk find at least `threshold` per-mille of the
/// pattern's characters in the text? An empty pattern always passes.
pub fn fuzzy_match_with_threshold(pattern: &str, text: &str, threshold: u32) -> (r: bool)
    ensures
        r == fuzzy_passes(pattern@, text@, threshold as int),
{
    let pc = chars_of(pattern);
    let tc = chars_of(text);
    if pc.len() == 0 {
        return true;
    }
    let matched = fuzzy_count_exec(pc.as_slice(), tc.as_slice());
    let th: u128 = threshold as u128;
    let pl: u128 = pc.len() as u128;
    proof {
        assert(th * pl <= 0xffff_ffff * 0xffff_ffff_ffff_ffffu128) by (nonlinear_arith)
            requires
                th <= 0xffff_ffffu128,
                pl <= 0xffff_ffff_ffff_ffffu128,
        ;
    }
    (matched as u128) * 1000 >= th * pl
}

/// Are all pattern characters found in order in the text (ASCII case
/// folded)? Equivalent to a fuzzy match with a full-strength threshold.
pub fn fuzzy_match(pattern: &str, text: &str) -> (r: bool)
    ensures
        r == fuzzy_passes(pattern@, text@, 1000),
        r == (fuzzy_count(pattern@, text@) == pattern@.len()),
{
    proof {
        lemma_fuzzy_count_le(pattern@, text@);
    }
    fuzzy_match_with_threshold(pattern, text, 1000)
}

/// The greatest gap the consecutive-match walk sees: while pattern characters
/// remain and at least one has matched, every non-matching text character
/// grows the current gap.
pub open spec fn max_gap_walk(
    p: Seq<char>,
    t: Seq<char>,
    started: bool,
    cur: nat,
    mx: nat,
) -> nat
    decreases t.len(),
{
    if t.len() == 0 || p.len() == 0 {
        mx
    } else if ascii_eq_ci(t[0], p[0]) {
        max_gap_walk(p.drop_first(), t.drop_first(), true, 0, mx)
    } else if started {
        let c = cur + 1;
        let m = if c > mx {
            c
        } else {
            mx
        };
        max_gap_walk(p, t.drop_first(), true, c, m)
    } else {
        max_gap_walk(p, t.drop_first(), false, cur, mx)
    }
}

/// All pattern characters are found without gaps between them.
pub open spec fn all_consecutive(p: Seq<char>, t: Seq<char>) -> bool {
    max_gap_walk(p, t, false, 0, 0) == 0 && fuzzy_count(p, t) == p.len()
}

/// Count pattern characters found in order in the text (ASCII case folded)
/// and report whether they were found without gaps.
#[verifier::loop_isolation(false)]
pub fn count_consecutive_matches(pattern: &str, text: &str) -> (r: (usize, bool))
    ensures
        r.0 == fuzzy_count(pattern@, text@),
        r.1 == all_consecutive(pattern@, text@),
{
    let pc = chars_of(pattern);
    let tc = chars_of(text);
    proof {
        assert(pattern@.skip(0) =~= pattern@);
        assert(text@.skip(0) =~= text@);
    }
    let plen = pc.len();
    let tlen = tc.len();
    let mut pi: usize = 0;
    let mut ti: usize = 0;
    let mut matched: usize = 0;
    let mut cur_gap: usize = 0;
    let mut max_gap: usize = 0;
    while ti < tlen && pi < plen
        invariant
            pi <= plen,
            ti <= tlen,
            matched <= pi,
            pi <= matched + ti,
            plen == pattern@.len(),
            tlen == text@.len(),
            cur_gap <= ti,
            max_gap <= ti,
            matched > 0 <==> pi > 0,
            fuzzy_count(pattern@, text@) == matched + fuzzy_count(
                pattern@.skip(pi as int),
                text@.skip(ti as int),
            ),
            max_gap_walk(pattern@, text@, false, 0, 0) == max_gap_walk(
                pattern@.skip(pi as int),
                text@.skip(ti as int),
                matched > 0,
                cur_gap as nat,
                max_gap as nat,
            ),
        decreases tlen - ti,
    {
        proof {
            let ps = pattern@.skip(pi as int);
            let ts = text@.skip(ti as int);
            assert(ps[0] == pattern@[pi as int]);
            assert(ts[0] == text@[ti as int]);
            assert(ps.drop_first() =~= pattern@.skip(pi + 1));
            assert(ts.drop_first() =~= text@.skip(ti + 1));
        }
        if chars_eq_ci(tc[ti], pc[pi]) {
            pi = pi + 1;
            matched = matched + 1;
            cur_gap = 0;
        } else if matched > 0 {
            cur_gap = cur_gap + 1;
            if cur_gap > max_gap {
                max_gap = cur_gap;
            }
        }
        ti = ti + 1;
    }
    proof {
        let ps = pattern@.skip(pi as int);
        let ts = text@.skip(ti as int);
        if pi >= plen {
            assert(ps.len() == 0);
        } else {
            assert(ts.len() == 0);
        }
        assert(fuzzy_count(ps, ts) == 0);
        assert(max_gap_walk(ps, ts, matched > 0, cur_gap as nat, max_gap as nat)
            == max_gap as nat);
        lemma_fuzzy_count_le(pattern@, text@);
    }
    let consecutive = max_gap == 0 && matched == plen;
    (matched, consecutive)
}

/// Length similarity of the two strings, in per-mille.
pub fn calculate_length_similarity(pattern: &str, text: &str) -> (r: u32)
    ensures
        r == length_similarity_milli(pattern@.len(), text@.len()),
        0 <= r <= 1000,
{
    let pc = chars_of(pattern);
    let tc = chars_of(text);
    let plen = pc.len();
    let tlen = tc.len();
    proof {
        lemma_length_similarity_bounds(pattern@.len(), text@.len());
    }
    if plen == tlen {
        1000
    } else {
        let m: usize = if plen > tlen {
            plen
        } else {
            tlen
        };
        let d: usize = if plen > tlen {
            plen - tlen
        } else {
            tlen - plen
        };
        ((m - d) as u128 * 1000 / m as u128) as u32
    }
}

/// Count of position-aligned equal characters.
#[verifier::loop_isolation(false)]
fn aligned_eq_count_exec(p: &[char], t: &[char]) -> (r: usize)
    ensures
        r == aligned_eq_count(p@, t@),
{
    proof {
        assert(p@.skip(0) =~= p@);
        assert(t@.skip(0) =~= t@);
    }
    let n: usize = if p.len() < t.len() {
        p.len()
    } else {
        t.len()
    };
    let mut i: usize = 0;
    let mut count: usize = 0;
    while i < n
        invariant
            i <= n,
            count <= i,
            n == if p@.len() < t@.len() {
                p@.len()
            } else {
                t@.len()
            },
            aligned_eq_count(p@, t@) == count + aligned_eq_count(
                p@.skip(i as int),
                t@.skip(i as int),
            ),
        decreases n - i,
    {
        proof {
            let ps = p@.skip(i as int);
            let ts = t@.skip(i as int);
            assert(ps[0] == p@[i as int]);
            assert(ts[0] == t@[i as int]);
            assert(ps.drop_first() =~= p@.skip(i + 1));
            assert(ts.drop_first() =~= t@.skip(i + 1));
        }
        if p[i] == t[i] {
            count = count + 1;
        }
        i = i + 1;
    }
    proof {
        assert(aligned_eq_count(p@.skip(i as int), t@.skip(i as int)) == 0);
    }
    count
}

/// The case-sensitivity contribution of the score, in per-mille.
fn case_component_exec(pattern: &str, text: &str, is_case_sensitive: bool) -> (r: u32)
    ensures
        r == case_component(pattern@, text@, is_case_sensitive),
        0 <= r <= 500,
{
    proof {
        lemma_case_component_bounds(pattern@, text@, is_case_sensitive);
    }
    if !is_case_sensitive {
        return 0;
    }
    let pc = chars_of(pattern);
    let tc = chars_of(text);
    if chars_eq(pc.as_slice(), tc.as_slice()) {
        500
    } else {
        let count = aligned_eq_count_exec(pc.as_slice(), tc.as_slice());
        let d: usize = if pc.len() == 0 {
            1
        } else {
            pc.len()
        };
        ((count as u128) * 250 / (d as u128)) as u32
    }
}

// ---------------------------------------------------------------------------
// The combined scorer
// ---------------------------------------------------------------------------

/// Relevance of `text` for `pattern` under the given configuration, as an
/// integer score in `0..=1000`: a deterministic function of its arguments.
pub fn calculate_relevance_score_with_config(
    pattern: &str,
    text: &str,
    is_exact: bool,
    is_case_sensitive: bool,
    config: &HeuristicConfig,
) -> (r: u32)
    ensures
        r == relevance_score(pattern@, text@, is_exact, is_case_sensitive, *config),
        0 <= r <= 1000,
{
    proof {
        lemma_relevance_score_bounds(pattern@, text@, is_exact, is_case_sensitive, *config);
    }
    let mut score: u32 = 0;
    if is_exact {
        score = score + 1000;
    }
    score = score + case_component_exec(pattern, text, is_case_sensitive);
    if is_word_boundary_match(pattern, text, config.unicode_aware) {
        score = score + 300;
    }
    if fuzzy_match_with_threshold(pattern, text, config.fuzzy_threshold) {
        score = score + 200;
    }
    if is_substring_match(pattern, text, config.case_sensitive_substring) {
        score = score + 150;
    }
    score = score + calculate_length_similarity(pattern, text) / 10;
    if score > 1000 {
        1000
    } else {
        score
    }
}

/// Relevance of `text` for `pattern` under the default configuration.
pub fn calculate_relevance_score(
    pattern: &str,
    text: &str,
    is_exact: bool,
    is_case_sensitive: bool,
) -> (r: u32)
    ensures
        r == relevance_score(pattern@, text@, is_exact, is_case_sensitive, spec_default_config()),
        0 <= r <= 1000,
{
    let config = HeuristicConfig::default();
    calculate_relevance_score_with_config(pattern, text, is_exact, is_case_sensitive, &config)
}

/// Per-signal contributions of one score, in per-mille.
#[derive(Clone, Debug)]
pub struct ScoreBreakdown {
    /// Contribution of the exact-match signal.
    pub exact_match: u32,
    /// Contribution of the case-sensitivity signal.
    pub case_sensitive: u32,
    /// Contribution of the word-boundary signal.
    pub word_boundary: u32,
    /// Contribution of the fuzzy-match signal.
    pub fuzzy_match: u32,
    /// Contribution of the substring signal.
    pub substring_match: u32,
    /// Contribution of the length-similarity signal.
    pub length_similarity: u32,
    /// The capped total, identical to the combined scorer's result.
    pub total: u32,
}

/// The score split into its six contributions; the total is the same capped
/// sum the combined scorer returns, so the two entry points cannot drift
/// apart.
pub fn calculate_relevance_score_breakdown(
    pattern: &str,
    text: &str,
    is_exact: bool,
    is_case_sensitive: bool,
    config: &HeuristicConfig,
) -> (r: ScoreBreakdown)
    ensures
        r.exact_match == if is_exact {
            1000int
        } else {
            0int
        },
        r.case_sensitive == case_component(pattern@, text@, is_case_sensitive),
        r.word_boundary == if is_word_boundary(pattern@, text@, config.unicode_aware) {
            300int
        } else {
            0int
        },
        r.fuzzy_match == if fuzzy_passes(pattern@, text@, config.fuzzy_threshold as int) {
            200int
        } else {
            0int
        },
        r.substring_match == if substring_holds(pattern@, text@, config.case_sensitive_substring) {
            150int
        } else {
            0int
        },
        r.length_similarity == length_similarity_milli(pattern@.len(), text@.len()) / 10,
        r.total == relevance_score(pattern@, text@, is_exact, is_case_sensitive, *config),
{
    proof {
        lemma_relevance_score_bounds(pattern@, text@, is_exact, is_case_sensitive, *config);
        lemma_case_component_bounds(pattern@, text@, is_case_sensitive);
    }
    let exact: u32 = if is_exact {
        1000
    } else {
        0
    };
    let case: u32 = case_component_exec(pattern, text, is_case_sensitive);
    let word: u32 = if is_word_boundary_match(pattern, text, config.unicode_aware) {
        300
    } else {
        0
    };
    let fuzzy: u32 = if fuzzy_match_with_threshold(pattern, text, config.fuzzy_threshold) {
        200
    } else {
        0
    };
    let substring: u32 = if is_substring_match(pattern, text, config.case_sensitive_substring) {
        150
    } else {
        0
    };
    let length: u32 = calculate_length_similarity(pattern, text) / 10;
    let sum: u32 = exact + case + word + fuzzy + substring + length;
    let total: u32 = if sum > 1000 {
        1000
    } else {
        sum
    };
    ScoreBreakdown {
        exact_match: exact,
        case_sensitive: case,
        word_boundary: word,
        fuzzy_match: fuzzy,
        substring_match: substring,
        length_similarity: length,
        total,
    }
}

} // verus!
