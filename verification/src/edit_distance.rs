//! Levenshtein edit distance over character sequences, with the laws that
//! callers rely on: symmetry, zero distance on equal inputs, and the length
//! of the other string when one side is empty.

use vstd::prelude::*;
use vstd::string::StrSliceExecFns;

use crate::text::chars_of;

verus! {

/// The least of three naturals.
pub open spec fn min3(a: nat, b: nat, c: nat) -> nat {
    if a <= b && a <= c {
        a
    } else if b <= c {
        b
    } else {
        c
    }
}

/// Levenshtein distance: the least number of single-character insertions,
/// deletions and substitutions turning `a` into `b`.
pub open spec fn edit_dist(a: Seq<char>, b: Seq<char>) -> nat
    decreases a.len(), b.len(),
{
    if a.len() == 0 {
        b.len()
    } else if b.len() == 0 {
        a.len()
    } else {
        let cost: nat = if a.last() == b.last() {
            0
        } else {
            1
        };
        min3(
            edit_dist(a.drop_last(), b) + 1,
            edit_dist(a, b.drop_last()) + 1,
            edit_dist(a.drop_last(), b.drop_last()) + cost,
        )
    }
}

/// The distance never exceeds the longer length.
proof fn lemma_edit_dist_bound(a: Seq<char>, b: Seq<char>)
    ensures
        a.len() <= b.len() ==> edit_dist(a, b) <= b.len(),
        b.len() <= a.len() ==> edit_dist(a, b) <= a.len(),
    decreases a.len(), b.len(),
{
    if a.len() == 0 || b.len() == 0 {
    } else {
        lemma_edit_dist_bound(a.drop_last(), b.drop_last());
        lemma_edit_dist_bound(a.drop_last(), b);
        lemma_edit_dist_bound(a, b.drop_last());
    }
}

/// The distance from a string to itself is zero.
pub proof fn lemma_edit_dist_self(a: Seq<char>)
    ensures
        edit_dist(a, a) == 0,
    decreases a.len(),
{
    if a.len() == 0 {
    } else {
        lemma_edit_dist_self(a.drop_last());
    }
}

/// The distance is symmetric.
pub proof fn lemma_edit_dist_sym(a: Seq<char>, b: Seq<char>)
    ensures
        edit_dist(a, b) == edit_dist(b, a),
    decreases a.len(), b.len(),
{
    if a.len() == 0 || b.len() == 0 {
    } else {
        lemma_edit_dist_sym(a.drop_last(), b.drop_last());
        lemma_edit_dist_sym(a.drop_last(), b);
        lemma_edit_dist_sym(a, b.drop_last());
    }
}

/// The distance from the empty string is the other string's length.
pub proof fn lemma_edit_dist_empty(s: Seq<char>)
    ensures
        edit_dist(Seq::<char>::empty(), s) == s.len(),
        edit_dist(s, Seq::<char>::empty()) == s.len(),
{
}

/// One step of the two-row recurrence, phrased over prefixes.
proof fn lemma_edit_dist_step(a: Seq<char>, b: Seq<char>, i: int, j: int)
    requires
        1 <= i <= a.len(),
        1 <= j <= b.len(),
    ensures
        edit_dist(a.take(i), b.take(j)) == min3(
            edit_dist(a.take(i - 1), b.take(j)) + 1,
            edit_dist(a.take(i), b.take(j - 1)) + 1,
            edit_dist(a.take(i - 1), b.take(j - 1)) + (if a[i - 1] == b[j - 1] {
                0nat
            } else {
                1nat
            }),
        ),
{
    let x = a.take(i);
    let y = b.take(j);
    assert(x.len() == i);
    assert(y.len() == j);
    assert(x.drop_last() =~= a.take(i - 1));
    assert(y.drop_last() =~= b.take(j - 1));
    assert(x.last() == a[i - 1]);
    assert(y.last() == b[j - 1]);
}

/// Levenshtein distance between two strings, computed with the two-row
/// dynamic program (insertion, deletion and substitution all cost 1).
#[verifier::loop_isolation(false)]
pub fn levenshtein_distance(s1: &str, s2: &str) -> (r: usize)
    ensures
        r == edit_dist(s1@, s2@),
{
    let a = chars_of(s1);
    let b = chars_of(s2);
    let len1 = a.len();
    let len2 = b.len();
    if len1 == 0 {
        proof {
            assert(a@ =~= Seq::<char>::empty());
        }
        return len2;
    }
    if len2 == 0 {
        proof {
            assert(b@ =~= Seq::<char>::empty());
        }
        return len1;
    }
    // Row cells are indexed from 1: prev_row[k] is the distance between the
    // first k+1 characters of s1 and the first j-1 characters of s2; the
    // zero-column boundary (distance j) is kept implicitly.
    let mut prev_row: Vec<usize> = Vec::new();
    let mut t: usize = 0;
    while t < len1
        invariant
            t <= len1,
            prev_row@.len() == t,
            forall|k: int| 0 <= k < t ==> prev_row@[k] == k + 1,
        decreases len1 - t,
    {
        prev_row.push(t + 1);
        t = t + 1;
    }
    proof {
        assert forall|k: int| 0 <= k < len1 implies prev_row@[k] == edit_dist(
            a@.take(k + 1),
            b@.take(0),
        ) by {
            assert(b@.take(0) =~= Seq::<char>::empty());
            assert(a@.take(k + 1).len() == k + 1);
        }
    }
    let mut curr_row: Vec<usize> = vec![0; len1];
    let mut j: usize = 1;
    loop
        invariant
            1 <= j <= len2,
            prev_row@.len() == len1,
            curr_row@.len() == len1,
            forall|k: int| 0 <= k < len1 ==> prev_row@[k] == edit_dist(
                a@.take(k + 1),
                b@.take(j - 1),
            ),
        decreases len2 - j,
    {
        let mut i: usize = 1;
        loop
            invariant
                1 <= i <= len1,
                prev_row@.len() == len1,
                curr_row@.len() == len1,
                forall|k: int| 0 <= k < len1 ==> prev_row@[k] == edit_dist(
                    a@.take(k + 1),
                    b@.take(j - 1),
                ),
                forall|k: int| 0 <= k < i - 1 ==> curr_row@[k] == edit_dist(
                    a@.take(k + 1),
                    b@.take(j as int),
                ),
            decreases len1 - i,
        {
            proof {
                lemma_edit_dist_bound(a@.take(i - 1), b@.take(j - 1));
                lemma_edit_dist_bound(a@.take(i - 1), b@.take(j as int));
                lemma_edit_dist_bound(a@.take(i as int), b@.take(j - 1));
                lemma_edit_dist_step(a@, b@, i as int, j as int);
                assert(a@.take(0) =~= Seq::<char>::empty());
            }
            let cost: usize = if a[i - 1] == b[j - 1] {
                0
            } else {
                1
            };
            // distances to the previous column and row; the zero cell of the
            // current and previous columns are j and j-1 themselves
            let dm1jm1: usize = if i == 1 {
                j - 1
            } else {
                prev_row[i - 2]
            };
            let dm1j: usize = if i == 1 {
                j
            } else {
                curr_row[i - 2]
            };
            let dijm1: usize = prev_row[i - 1];
            let mut d: usize = dm1jm1 + cost;
            if dijm1 < d {
                d = dijm1 + 1;
            }
            if dm1j < d {
                d = dm1j + 1;
            }
            proof {
                assert(d == min3(
                    edit_dist(a@.take(i - 1), b@.take(j as int)) + 1,
                    edit_dist(a@.take(i as int), b@.take(j - 1)) + 1,
                    edit_dist(a@.take(i - 1), b@.take(j - 1)) + (if a@[i - 1] == b@[j - 1] {
                        0nat
                    } else {
                        1nat
                    }),
                ));
            }
            curr_row[i - 1] = d;
            if i == len1 {
                break;
            }
            i = i + 1;
        }
        if j == len2 {
            proof {
                assert(a@.take(len1 as int) =~= a@);
                assert(b@.take(len2 as int) =~= b@);
            }
            return curr_row[len1 - 1];
        }
        let mut k: usize = 0;
        while k < len1
            invariant
                k <= len1,
                prev_row@.len() == len1,
                curr_row@.len() == len1,
                forall|u: int| 0 <= u < len1 ==> curr_row@[u] == edit_dist(
                    a@.take(u + 1),
                    b@.take(j as int),
                ),
                forall|u: int| 0 <= u < k ==> prev_row@[u] == edit_dist(
                    a@.take(u + 1),
                    b@.take(j as int),
                ),
            decreases len1 - k,
        {
            prev_row[k] = curr_row[k];
            k = k + 1;
        }
        j = j + 1;
    }
}

/// Is `text` within edit distance `max_distance` of `pattern`? With no
/// explicit threshold, a quarter of the pattern's length (at least 1) is
/// used.
pub fn is_close_match(pattern: &str, text: &str, max_distance: Option<usize>) -> (r: bool)
    ensures
        r == (edit_dist(pattern@, text@) <= (match max_distance {
            Some(d) => d as int,
            None => if pattern@.len() / 4 > 1 {
                pattern@.len() as int / 4
            } else {
                1
            },
        })),
{
    let threshold: usize = match max_distance {
        Some(d) => d,
        None => {
            let quarter = pattern.unicode_len() / 4;
            if quarter > 1 {
                quarter
            } else {
                1
            }
        },
    };
    levenshtein_distance(pattern, text) <= threshold
}

} // verus!
