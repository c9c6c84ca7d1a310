//! Character-level foundations shared by the scorer and the caches.
//!
//! Strings are modeled as sequences of characters. The few Unicode-dependent
//! std operations (lowercasing, the alphanumeric property) are named by
//! uninterpreted functions and supplied through trusted wrappers; everything
//! built on top of them is verified.

use vstd::prelude::*;
use vstd::string::StrSliceExecFns;

verus! {

/// What `str::to_lowercase` returns: the Unicode lowercase form of a
/// character sequence, a function of the characters alone.
pub uninterp spec fn lower_of(s: Seq<char>) -> Seq<char>;

/// What `char::is_alphanumeric` returns: a Unicode property of the character.
pub uninterp spec fn is_unicode_alnum(c: char) -> bool;

/// Relies on `str::to_lowercase`: the result depends on the characters alone.
#[verifier::external_body]
pub(crate) fn to_lower(s: &str) -> (r: String)
    ensures
        r@ == lower_of(s@),
{
    s.to_lowercase()
}

/// Relies on `char::is_alphanumeric`: a pure Unicode character property.
#[verifier::external_body]
pub(crate) fn char_is_alphanumeric(c: char) -> (r: bool)
    ensures
        r == is_unicode_alnum(c),
{
    c.is_alphanumeric()
}

/// Relies on `String`'s `FromIterator<char>`: collecting characters yields a
/// string of exactly those characters.
#[verifier::external_body]
pub(crate) fn string_from_chars(v: &Vec<char>) -> (r: String)
    ensures
        r@ == v@,
{
    v.iter().collect()
}

/// The characters of a string slice, in order.
pub fn chars_of(s: &str) -> (r: Vec<char>)
    ensures
        r@ == s@,
{
    let n = s.unicode_len();
    let mut r: Vec<char> = Vec::new();
    let mut i: usize = 0;
    while i < n
        invariant
            i <= n,
            n == s@.len(),
            r@ == s@.take(i as int),
        decreases n - i,
    {
        r.push(s.get_char(i));
        proof {
            assert(r@ =~= s@.take(i + 1));
        }
        i = i + 1;
    }
    proof {
        assert(r@ =~= s@);
    }
    r
}

/// `p` occurs in `t` starting at index `i`.
pub open spec fn match_at(t: Seq<char>, p: Seq<char>, i: int) -> bool {
    0 <= i && i + p.len() <= t.len() && t.subrange(i, i + p.len() as int) == p
}

/// `p` occurs somewhere in `t`.
pub open spec fn contains_seq(t: Seq<char>, p: Seq<char>) -> bool {
    exists|i: int| match_at(t, p, i)
}

/// `p` is a prefix of `t`.
pub open spec fn is_prefix(p: Seq<char>, t: Seq<char>) -> bool {
    p.len() <= t.len() && t.subrange(0, p.len() as int) == p
}

/// The first occurrence of `p` in `t` at or after `from` is at `i`.
pub open spec fn first_match_from(t: Seq<char>, p: Seq<char>, from: int, i: int) -> bool {
    &&& from <= i
    &&& match_at(t, p, i)
    &&& forall|j: int| from <= j < i ==> !match_at(t, p, j)
}

/// Character-sequence equality of two slices.
pub fn chars_eq(a: &[char], b: &[char]) -> (r: bool)
    ensures
        r == (a@ == b@),
{
    if a.len() != b.len() {
        proof {
            assert(a@ != b@);
        }
        return false;
    }
    let n = a.len();
    let mut i: usize = 0;
    while i < n
        invariant
            i <= n,
            n == a@.len() == b@.len(),
            forall|j: int| 0 <= j < i ==> a@[j] == b@[j],
        decreases n - i,
    {
        if a[i] != b[i] {
            return false;
        }
        i = i + 1;
    }
    proof {
        assert(a@ =~= b@);
    }
    true
}

/// Does `p` occur in `t` starting at `i`?
fn matches_at(t: &[char], p: &[char], i: usize) -> (r: bool)
    requires
        i + p@.len() <= t@.len(),
    ensures
        r == match_at(t@, p@, i as int),
{
    let m = p.len();
    let n = t.len();
    let mut k: usize = 0;
    while k < m
        invariant
            k <= m,
            m == p@.len(),
            n == t@.len(),
            i + m <= n,
            forall|j: int| 0 <= j < k ==> t@[i + j] == p@[j],
        decreases m - k,
    {
        if t[i + k] != p[k] {
            proof {
                assert(t@.subrange(i as int, i + p@.len()) != p@) by {
                    assert(t@.subrange(i as int, i + p@.len())[k as int] != p@[k as int]);
                }
            }
            return false;
        }
        k = k + 1;
    }
    proof {
        assert(t@.subrange(i as int, i + p@.len()) =~= p@);
    }
    true
}

/// First occurrence of `p` in `t` at or after `from`, scanning left to right.
pub fn find_from(t: &[char], p: &[char], from: usize) -> (r: Option<usize>)
    ensures
        match r {
            Some(i) => from <= i && first_match_from(t@, p@, from as int, i as int),
            None => forall|j: int| from <= j ==> !match_at(t@, p@, j),
        },
{
    if p.len() > t.len() {
        return None;
    }
    let last = t.len() - p.len();
    if from > last {
        return None;
    }
    let mut i: usize = from;
    loop
        invariant
            from <= i <= last,
            last == t@.len() - p@.len(),
            forall|j: int| from <= j < i ==> !match_at(t@, p@, j),
        decreases last - i,
    {
        if matches_at(t, p, i) {
            return Some(i);
        }
        if i == last {
            proof {
                assert(forall|j: int| j > last ==> !match_at(t@, p@, j));
            }
            return None;
        }
        i = i + 1;
    }
}

/// Does `p` occur anywhere in `t`?
pub fn contains_chars(t: &[char], p: &[char]) -> (r: bool)
    ensures
        r == contains_seq(t@, p@),
{
    match find_from(t, p, 0) {
        Some(_) => true,
        None => false,
    }
}

/// Is `p` a prefix of `t`?
pub fn prefix_chars(t: &[char], p: &[char]) -> (r: bool)
    ensures
        r == is_prefix(p@, t@),
{
    if p.len() > t.len() {
        return false;
    }
    matches_at(t, p, 0)
}

/// String-slice equality by characters.
pub fn str_eq(a: &str, b: &str) -> (r: bool)
    ensures
        r == (a@ == b@),
{
    let ac = chars_of(a);
    let bc = chars_of(b);
    chars_eq(ac.as_slice(), bc.as_slice())
}

/// `c` is an ASCII uppercase letter.
pub open spec fn is_ascii_upper(c: char) -> bool {
    65 <= c as int <= 90
}

/// ASCII-case-insensitive character equality, as `char::eq_ignore_ascii_case`
/// defines it: equal outright, or the same letter in the two ASCII cases.
pub open spec fn ascii_eq_ci(a: char, b: char) -> bool {
    ||| a == b
    ||| (is_ascii_upper(a) && b as int == a as int + 32)
    ||| (is_ascii_upper(b) && a as int == b as int + 32)
}

/// ASCII-case-insensitive character comparison.
pub fn chars_eq_ci(a: char, b: char) -> (r: bool)
    ensures
        r == ascii_eq_ci(a, b),
{
    if a == b {
        return true;
    }
    let au = a as u32;
    let bu = b as u32;
    (65 <= au && au <= 90 && bu == au + 32) || (65 <= bu && bu <= 90 && au == bu + 32)
}

/// `c` is an ASCII alphanumeric character (letter or digit).
pub open spec fn is_ascii_alnum(c: char) -> bool {
    ||| 48 <= c as int <= 57
    ||| 65 <= c as int <= 90
    ||| 97 <= c as int <= 122
}

/// ASCII alphanumeric test.
pub fn char_is_ascii_alnum(c: char) -> (r: bool)
    ensures
        r == is_ascii_alnum(c),
{
    let cu = c as u32;
    (48 <= cu && cu <= 57) || (65 <= cu && cu <= 90) || (97 <= cu && cu <= 122)
}

} // verus!
