//! Locating and marking case-insensitive pattern occurrences in a text.
//!
//! Both sides are Unicode-lowercased for the search, scanning left to right
//! and advancing one character past each match's start, so overlapping
//! occurrences are reported. Each recorded span starts at a match position in
//! the lowercased text and extends by the original pattern's character count.

use vstd::prelude::*;
use vstd::string::StrSliceExecFns;

use crate::text::{chars_of, lower_of, match_at, string_from_chars, to_lower, find_from};

verus! {

/// A span's end: the start plus the pattern length, capped at the machine
/// limit.
pub open spec fn span_end(i: int, plen: nat) -> usize {
    if i + plen > usize::MAX {
        usize::MAX as usize
    } else {
        (i + plen) as usize
    }
}

/// All spans recorded while scanning for `pl` in `tl` from position `i` on:
/// each match at `j` records `(j, j + plen)` and the scan resumes at `j + 1`.
pub open spec fn match_positions_from(
    tl: Seq<char>,
    pl: Seq<char>,
    plen: nat,
    i: int,
) -> Seq<(usize, usize)>
    decreases tl.len() - pl.len() - i + 1,
{
    if i < 0 || i > tl.len() - pl.len() {
        Seq::<(usize, usize)>::empty()
    } else if match_at(tl, pl, i) {
        seq![(i as usize, span_end(i, plen))] + match_positions_from(tl, pl, plen, i + 1)
    } else {
        match_positions_from(tl, pl, plen, i + 1)
    }
}

/// A stretch with no match contributes no spans.
proof fn lemma_positions_skip_nonmatches(tl: Seq<char>, pl: Seq<char>, plen: nat, a: int, b: int)
    requires
        0 <= a <= b,
        forall|j: int| a <= j < b ==> !match_at(tl, pl, j),
    ensures
        match_positions_from(tl, pl, plen, a) == match_positions_from(tl, pl, plen, b),
    decreases b - a,
{
    if a == b {
    } else if a > tl.len() - pl.len() {
        assert(match_positions_from(tl, pl, plen, a) == Seq::<(usize, usize)>::empty());
        assert(b > tl.len() - pl.len());
        assert(match_positions_from(tl, pl, plen, b) == Seq::<(usize, usize)>::empty());
    } else {
        assert(!match_at(tl, pl, a));
        lemma_positions_skip_nonmatches(tl, pl, plen, a + 1, b);
    }
}

/// Find all case-insensitive occurrences of the pattern in the text: spans
/// `(start, start + pattern-length)` over the lowercased text, scanning left
/// to right, each match advancing the search position by one.
#[verifier::loop_isolation(false)]
pub fn find_match_positions(pattern: &str, text: &str) -> (r: Vec<(usize, usize)>)
    ensures
        r@ == match_positions_from(lower_of(text@), lower_of(pattern@), pattern@.len(), 0),
{
    let pl_s = to_lower(pattern);
    let tl_s = to_lower(text);
    let pl = chars_of(pl_s.as_str());
    let tl = chars_of(tl_s.as_str());
    let plen = pattern.unicode_len();
    let mut positions: Vec<(usize, usize)> = Vec::new();
    let mut start: usize = 0;
    proof {
        assert(positions@ + match_positions_from(tl@, pl@, plen as nat, 0)
            =~= match_positions_from(tl@, pl@, plen as nat, 0));
    }
    loop
        invariant
            start <= tl@.len(),
            match_positions_from(tl@, pl@, plen as nat, 0) == positions@ + match_positions_from(
                tl@,
                pl@,
                plen as nat,
                start as int,
            ),
        decreases tl@.len() - start,
    {
        match find_from(tl.as_slice(), pl.as_slice(), start) {
            None => {
                proof {
                    if start <= tl@.len() - pl@.len() {
                        lemma_positions_skip_nonmatches(
                            tl@,
                            pl@,
                            plen as nat,
                            start as int,
                            tl@.len() - pl@.len() + 1,
                        );
                    }
                    assert(match_positions_from(tl@, pl@, plen as nat, start as int)
                        =~= Seq::<(usize, usize)>::empty());
                    assert(positions@ + Seq::<(usize, usize)>::empty() =~= positions@);
                }
                return positions;
            },
            Some(found) => {
                proof {
                    lemma_positions_skip_nonmatches(
                        tl@,
                        pl@,
                        plen as nat,
                        start as int,
                        found as int,
                    );
                }
                let end: usize = if found <= usize::MAX - plen {
                    found + plen
                } else {
                    usize::MAX
                };
                let ghost before = positions@;
                positions.push((found, end));
                proof {
                    assert(match_positions_from(tl@, pl@, plen as nat, found as int) == seq![
                        (found, end),
                    ] + match_positions_from(tl@, pl@, plen as nat, found + 1));
                    assert(before + (seq![(found, end)] + match_positions_from(
                        tl@,
                        pl@,
                        plen as nat,
                        found + 1,
                    )) =~= positions@ + match_positions_from(tl@, pl@, plen as nat, found + 1));
                }
                let last = tl.len() - pl.len();
                if found == last {
                    proof {
                        assert(match_positions_from(tl@, pl@, plen as nat, found + 1)
                            =~= Seq::<(usize, usize)>::empty());
                        assert(positions@ + Seq::<(usize, usize)>::empty() =~= positions@);
                    }
                    return positions;
                }
                start = found + 1;
            },
        }
    }
}

/// The value clamped into `lo..=hi`.
pub open spec fn clamp(v: int, lo: int, hi: int) -> int {
    if v < lo {
        lo
    } else if v > hi {
        hi
    } else {
        v
    }
}

/// The highlighted text from position `from` on: for each span, the
/// unmatched stretch before it, the prefix marker, the matched stretch, and
/// the suffix marker; spans are clamped into the text and past the previous
/// span's end.
pub open spec fn highlight_from(
    t: Seq<char>,
    ps: Seq<(usize, usize)>,
    pre: Seq<char>,
    suf: Seq<char>,
    from: int,
) -> Seq<char>
    decreases ps.len(),
{
    if ps.len() == 0 {
        t.skip(from)
    } else {
        let s0 = clamp(ps.first().0 as int, from, t.len() as int);
        let e0 = clamp(ps.first().1 as int, s0, t.len() as int);
        t.subrange(from, s0) + pre + t.subrange(s0, e0) + suf + highlight_from(
            t,
            ps.drop_first(),
            pre,
            suf,
            e0,
        )
    }
}

/// Append `src[a..b]` to `out`.
fn push_range(out: &mut Vec<char>, src: &[char], a: usize, b: usize)
    requires
        a <= b <= src@.len(),
    ensures
        final(out)@ == old(out)@ + src@.subrange(a as int, b as int),
{
    let mut i: usize = a;
    while i < b
        invariant
            a <= i <= b <= src@.len(),
            out@ == old(out)@ + src@.subrange(a as int, i as int),
        decreases b - i,
    {
        out.push(src[i]);
        proof {
            assert(old(out)@ + src@.subrange(a as int, i + 1) =~= (old(out)@ + src@.subrange(
                a as int,
                i as int,
            )).push(src@[i as int]));
        }
        i = i + 1;
    }
}

/// Wrap every case-insensitive occurrence of the pattern in the text with
/// the prefix and suffix markers, leaving unmatched stretches untouched.
#[verifier::loop_isolation(false)]
pub fn highlight_matches(pattern: &str, text: &str, prefix: &str, suffix: &str) -> (r: String)
    ensures
        r@ == highlight_from(
            text@,
            match_positions_from(lower_of(text@), lower_of(pattern@), pattern@.len(), 0),
            prefix@,
            suffix@,
            0,
        ),
{
    let positions = find_match_positions(pattern, text);
    if positions.len() == 0 {
        proof {
            assert(text@.skip(0) =~= text@);
        }
        return text.to_owned();
    }
    let tc = chars_of(text);
    let prec = chars_of(prefix);
    let sufc = chars_of(suffix);
    let tlen = tc.len();
    let mut out: Vec<char> = Vec::new();
    let mut last_end: usize = 0;
    let mut k: usize = 0;
    proof {
        assert(positions@.skip(0) =~= positions@);
        assert(out@ + highlight_from(text@, positions@, prefix@, suffix@, 0) =~= highlight_from(
            text@,
            positions@,
            prefix@,
            suffix@,
            0,
        ));
    }
    while k < positions.len()
        invariant
            k <= positions@.len(),
            last_end <= tlen,
            highlight_from(text@, positions@, prefix@, suffix@, 0) == out@ + highlight_from(
                text@,
                positions@.skip(k as int),
                prefix@,
                suffix@,
                last_end as int,
            ),
        decreases positions@.len() - k,
    {
        let (s, e) = positions[k];
        let s0: usize = if s < last_end {
            last_end
        } else if s > tlen {
            tlen
        } else {
            s
        };
        let e0: usize = if e < s0 {
            s0
        } else if e > tlen {
            tlen
        } else {
            e
        };
        proof {
            let ps = positions@.skip(k as int);
            assert(ps.first() == positions@[k as int]);
            assert(ps.drop_first() =~= positions@.skip(k + 1));
            assert(s0 as int == clamp(ps.first().0 as int, last_end as int, text@.len() as int));
            assert(e0 as int == clamp(ps.first().1 as int, s0 as int, text@.len() as int));
        }
        let ghost out0 = out@;
        push_range(&mut out, tc.as_slice(), last_end, s0);
        push_range(&mut out, prec.as_slice(), 0, prec.len());
        push_range(&mut out, tc.as_slice(), s0, e0);
        push_range(&mut out, sufc.as_slice(), 0, sufc.len());
        proof {
            assert(prec@.subrange(0, prec@.len() as int) =~= prefix@);
            assert(sufc@.subrange(0, sufc@.len() as int) =~= suffix@);
            assert(out@ =~= out0 + text@.subrange(last_end as int, s0 as int) + prefix@
                + text@.subrange(s0 as int, e0 as int) + suffix@);
            assert(out0 + (text@.subrange(last_end as int, s0 as int) + prefix@ + text@.subrange(
                s0 as int,
                e0 as int,
            ) + suffix@ + highlight_from(text@, positions@.skip(k + 1), prefix@, suffix@, e0 as int))
                =~= out@ + highlight_from(text@, positions@.skip(k + 1), prefix@, suffix@, e0 as int));
        }
        last_end = e0;
        k = k + 1;
    }
    proof {
        assert(positions@.skip(positions@.len() as int) =~= Seq::<(usize, usize)>::empty());
    }
    push_range(&mut out, tc.as_slice(), last_end, tlen);
    proof {
        assert(text@.subrange(last_end as int, tlen as int) =~= text@.skip(last_end as int));
    }
    string_from_chars(&out)
}

} // verus!
