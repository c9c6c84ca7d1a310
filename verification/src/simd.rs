//! Byte-level pattern scanning: all occurrence positions of a byte pattern in
//! a text, with a case-insensitive variant folding ASCII letters.
//!
//! Single-byte patterns are located through `memchr`; multi-byte patterns use
//! a verified scalar scan. Both paths meet the same occurrence-list contract.

use vstd::prelude::*;

verus! {

/// `p` occurs in `t` starting at byte index `i`.
pub open spec fn byte_match_at(t: Seq<u8>, p: Seq<u8>, i: int) -> bool {
    0 <= i && i + p.len() <= t.len() && t.subrange(i, i + p.len() as int) == p
}

/// `r` lists exactly the occurrence positions of `p` in `t`, in increasing
/// order.
pub open spec fn is_occurrence_list(t: Seq<u8>, p: Seq<u8>, r: Seq<usize>) -> bool {
    &&& forall|a: int, b: int| 0 <= a < b < r.len() ==> r[a] < r[b]
    &&& forall|a: int| 0 <= a < r.len() ==> byte_match_at(t, p, r[a] as int)
    &&& forall|j: usize| byte_match_at(t, p, j as int) ==> r.contains(j)
}

/// Relies on `memchr::memchr`: returns the index of the first occurrence of
/// `needle` in `haystack`, or `None` when the byte does not occur.
#[verifier::external_body]
fn find_byte(needle: u8, haystack: &[u8]) -> (r: Option<usize>)
    ensures
        match r {
            Some(i) => i < haystack@.len() && haystack@[i as int] == needle && forall|j: int|
                0 <= j < i ==> haystack@[j] != needle,
            None => forall|j: int| 0 <= j < haystack@.len() ==> haystack@[j] != needle,
        },
{
    memchr::memchr(needle, haystack)
}

/// Fast pattern matching over raw bytes.
pub struct SimdMatcher;

impl SimdMatcher {
    /// Create a new matcher.
    pub fn new() -> Self {
        SimdMatcher
    }

    /// Find the starting positions of all occurrences of `pattern` in `text`,
    /// in increasing order; an empty pattern or empty text yields no
    /// positions.
    pub fn find_all(pattern: &[u8], text: &[u8]) -> (r: Vec<usize>)
        ensures
            (pattern@.len() == 0 || text@.len() == 0) ==> r@ == Seq::<usize>::empty(),
            pattern@.len() > 0 && text@.len() > 0 ==> is_occurrence_list(text@, pattern@, r@),
    {
        if pattern.is_empty() || text.is_empty() {
            let r: Vec<usize> = Vec::new();
            proof {
                assert(r@ =~= Seq::<usize>::empty());
            }
            return r;
        }
        if pattern.len() == 1 {
            return Self::find_single_byte(pattern[0], pattern, text);
        }
        Self::find_scalar(pattern, text)
    }

    /// Single-byte occurrences, located with `memchr`.
    #[verifier::loop_isolation(false)]
    fn find_single_byte(byte: u8, pattern: &[u8], text: &[u8]) -> (r: Vec<usize>)
        requires
            pattern@.len() == 1,
            pattern@[0] == byte,
            text@.len() > 0,
        ensures
            is_occurrence_list(text@, pattern@, r@),
    {
        let mut positions: Vec<usize> = Vec::new();
        let mut pos: usize = 0;
        let n = text.len();
        proof {
            assert(forall|i: int| byte_match_at(text@, pattern@, i) ==> text@[i] == byte) by {
                assert forall|i: int| byte_match_at(text@, pattern@, i) implies text@[i]
                    == byte by {
                    assert(text@.subrange(i, i + 1)[0] == text@[i]);
                }
            }
            assert(forall|i: int| 0 <= i < text@.len() && text@[i] == byte ==> byte_match_at(
                text@,
                pattern@,
                i,
            )) by {
                assert forall|i: int|
                    0 <= i < text@.len() && text@[i] == byte implies byte_match_at(
                    text@,
                    pattern@,
                    i,
                ) by {
                    assert(text@.subrange(i, i + 1) =~= pattern@);
                }
            }
        }
        loop
            invariant
                pos <= n,
                n == text@.len(),
                pattern@.len() == 1,
                pattern@[0] == byte,
                forall|a: int, b: int| 0 <= a < b < positions@.len() ==> positions@[a]
                    < positions@[b],
                forall|a: int| 0 <= a < positions@.len() ==> positions@[a] < pos && text@[positions@[a] as int]
                    == byte,
                forall|j: usize| j < pos && text@[j as int] == byte ==> positions@.contains(j),
            decreases n - pos,
        {
            match find_byte(byte, &text[pos..n]) {
                Some(idx) => {
                    let found: usize = pos + idx;
                    proof {
                        assert(text@.subrange(pos as int, n as int)[idx as int] == text@[pos + idx]);
                        assert(forall|j: int|
                            pos <= j < found ==> text@[j] == text@.subrange(pos as int, n as int)[j
                                - pos]);
                    }
                    let ghost prev = positions@;
                    positions.push(found);
                    proof {
                        assert forall|j: usize|
                            j < found + 1 && text@[j as int] == byte implies positions@.contains(
                            j,
                        ) by {
                            if j < pos {
                                assert(prev.contains(j));
                                let k = choose|k: int|
                                    0 <= k < prev.len() && prev[k] == j;
                                assert(positions@[k] == j);
                            } else {
                                assert(j == found);
                                assert(positions@[positions@.len() - 1] == j);
                            }
                        }
                    }
                    pos = found + 1;
                },
                None => {
                    proof {
                        assert(forall|j: int|
                            pos <= j < n ==> text@[j] == text@.subrange(pos as int, n as int)[j
                                - pos]);
                        assert(forall|j: usize|
                            j < n && text@[j as int] == byte ==> positions@.contains(j));
                    }
                    return positions;
                },
            }
        }
    }

    /// Scalar scan for multi-byte patterns.
    #[verifier::loop_isolation(false)]
    fn find_scalar(pattern: &[u8], text: &[u8]) -> (r: Vec<usize>)
        requires
            pattern@.len() > 0,
        ensures
            is_occurrence_list(text@, pattern@, r@),
    {
        let mut positions: Vec<usize> = Vec::new();
        if pattern.len() > text.len() {
            return positions;
        }
        let last = text.len() - pattern.len();
        let mut i: usize = 0;
        loop
            invariant
                i <= last,
                last == text@.len() - pattern@.len(),
                pattern@.len() > 0,
                forall|a: int, b: int| 0 <= a < b < positions@.len() ==> positions@[a]
                    < positions@[b],
                forall|a: int| 0 <= a < positions@.len() ==> positions@[a] < i && byte_match_at(
                    text@,
                    pattern@,
                    positions@[a] as int,
                ),
                forall|j: usize| j < i && byte_match_at(text@, pattern@, j as int)
                    ==> positions@.contains(j),
            decreases last - i,
        {
            if Self::bytes_match_at(text, pattern, i) {
                let ghost prev = positions@;
                positions.push(i);
                proof {
                    assert forall|j: usize|
                        j < i + 1 && byte_match_at(text@, pattern@, j as int) implies positions@.contains(
                        j,
                    ) by {
                        if j < i {
                            assert(prev.contains(j));
                            let k = choose|k: int| 0 <= k < prev.len() && prev[k] == j;
                            assert(positions@[k] == j);
                        } else {
                            assert(positions@[positions@.len() - 1] == j);
                        }
                    }
                }
            }
            if i == last {
                proof {
                    assert(forall|j: usize|
                        byte_match_at(text@, pattern@, j as int) ==> j <= last);
                }
                return positions;
            }
            i = i + 1;
        }
    }

    /// Does `p` occur in `t` starting at `i`?
    pub(crate) fn bytes_match_at(t: &[u8], p: &[u8], i: usize) -> (r: bool)
        requires
            i + p@.len() <= t@.len(),
        ensures
            r == byte_match_at(t@, p@, i as int),
    {
        let m = p.len();
        let n = t.len();
        let mut k: usize = 0;
        while k < m
            invariant
                k <= m,
                m == p@.len(),
                n == t@.len(),
                i + m <= n,
                forall|j: int| 0 <= j < k ==> t@[i + j] == p@[j],
            decreases m - k,
        {
            if t[i + k] != p[k] {
                proof {
                    assert(t@.subrange(i as int, i + p@.len()) != p@) by {
                        assert(t@.subrange(i as int, i + p@.len())[k as int] != p@[k as int]);
                    }
                }
                return false;
            }
            k = k + 1;
        }
        proof {
            assert(t@.subrange(i as int, i + p@.len()) =~= p@);
        }
        true
    }
}

impl Default for SimdMatcher {
    /// The default matcher.
    fn default() -> Self {
        Self::new()
    }
}

/// The ASCII lowercase fold of one byte.
pub open spec fn ascii_lower_byte(b: u8) -> u8 {
    if 65 <= b <= 90 {
        (b + 32) as u8
    } else {
        b
    }
}

/// The ASCII lowercase fold of a byte sequence.
pub open spec fn lower_bytes(s: Seq<u8>) -> Seq<u8> {
    s.map_values(|b: u8| ascii_lower_byte(b))
}

/// The ASCII lowercase fold of a byte slice.
fn to_ascii_lower(v: &[u8]) -> (r: Vec<u8>)
    ensures
        r@ == lower_bytes(v@),
{
    let n = v.len();
    let mut r: Vec<u8> = Vec::new();
    let mut i: usize = 0;
    while i < n
        invariant
            i <= n,
            n == v@.len(),
            r@.len() == i,
            forall|j: int| 0 <= j < i ==> r@[j] == ascii_lower_byte(v@[j]),
        decreases n - i,
    {
        let b = v[i];
        if 65 <= b && b <= 90 {
            r.push(b + 32);
        } else {
            r.push(b);
        }
        i = i + 1;
    }
    proof {
        assert(r@ =~= lower_bytes(v@));
    }
    r
}

/// Case-insensitive pattern matching: both sides are ASCII-lowercased before
/// scanning.
pub struct SimdCaseInsensitiveMatcher;

impl SimdCaseInsensitiveMatcher {
    /// Create a new case-insensitive matcher.
    pub fn new() -> Self {
        SimdCaseInsensitiveMatcher
    }

    /// Find all occurrences of the ASCII-lowercased pattern in the
    /// ASCII-lowercased text.
    pub fn find_all(pattern: &[u8], text: &[u8]) -> (r: Vec<usize>)
        ensures
            (pattern@.len() == 0 || text@.len() == 0) ==> r@ == Seq::<usize>::empty(),
            pattern@.len() > 0 && text@.len() > 0 ==> is_occurrence_list(
                lower_bytes(text@),
                lower_bytes(pattern@),
                r@,
            ),
    {
        let pattern_lower = to_ascii_lower(pattern);
        let text_lower = to_ascii_lower(text);
        SimdMatcher::find_all(pattern_lower.as_slice(), text_lower.as_slice())
    }
}

impl Default for SimdCaseInsensitiveMatcher {
    /// The default case-insensitive matcher.
    fn default() -> Self {
        Self::new()
    }
}

} // verus!
