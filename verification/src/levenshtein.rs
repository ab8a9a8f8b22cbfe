//! Levenshtein edit distance between character sequences, with its laws.
use vstd::prelude::*;
use crate::text::{chars_len, chars_of};

verus! {

/// The smallest of three numbers.
pub open spec fn min3(x: nat, y: nat, z: nat) -> nat {
    let m = if x <= y { x } else { y };
    if m <= z { m } else { z }
}

/// The cost of aligning two characters: nothing when they are equal.
pub open spec fn subst_cost(x: char, y: char) -> nat {
    if x == y { 0 } else { 1 }
}

/// The number of single-character insertions, deletions and substitutions
/// that turn `a` into `b`.
pub open spec fn lev(a: Seq<char>, b: Seq<char>) -> nat
    decreases a.len() + b.len(),
{
    if a.len() == 0 {
        b.len()
    } else if b.len() == 0 {
        a.len()
    } else {
        min3(
            lev(a.drop_last(), b) + 1,
            lev(a, b.drop_last()) + 1,
            lev(a.drop_last(), b.drop_last()) + subst_cost(a.last(), b.last()),
        )
    }
}

/// The distance never exceeds the longer length.
pub proof fn lemma_lev_le_max(a: Seq<char>, b: Seq<char>)
    ensures
        lev(a, b) <= if a.len() >= b.len() { a.len() } else { b.len() },
    decreases a.len() + b.len(),
{
    if a.len() > 0 && b.len() > 0 {
        lemma_lev_le_max(a.drop_last(), b.drop_last());
    }
}

/// The distance is symmetric.
pub proof fn lemma_lev_symmetric(a: Seq<char>, b: Seq<char>)
    ensures
        lev(a, b) == lev(b, a),
    decreases a.len() + b.len(),
{
    if a.len() > 0 && b.len() > 0 {
        lemma_lev_symmetric(a.drop_last(), b);
        lemma_lev_symmetric(a, b.drop_last());
        lemma_lev_symmetric(a.drop_last(), b.drop_last());
    }
}

/// A string is at distance zero from itself, and only from itself.
pub proof fn lemma_lev_zero_iff_equal(a: Seq<char>, b: Seq<char>)
    ensures
        (lev(a, b) == 0) <==> (a == b),
    decreases a.len() + b.len(),
{
    if a.len() == 0 || b.len() == 0 {
        if a.len() == 0 && b.len() == 0 {
            assert(a =~= b);
        }
    } else {
        lemma_lev_zero_iff_equal(a.drop_last(), b.drop_last());
        if a == b {
            assert(a.drop_last() == b.drop_last());
        }
        if lev(a, b) == 0 {
            assert(a =~= a.drop_last().push(a.last()));
            assert(b =~= b.drop_last().push(b.last()));
        }
    }
}

/// The distance is at least the difference of the lengths.
pub proof fn lemma_lev_ge_len_diff(a: Seq<char>, b: Seq<char>)
    ensures
        lev(a, b) >= a.len() - b.len(),
        lev(a, b) >= b.len() - a.len(),
    decreases a.len() + b.len(),
{
    if a.len() > 0 && b.len() > 0 {
        lemma_lev_ge_len_diff(a.drop_last(), b);
        lemma_lev_ge_len_diff(a, b.drop_last());
        lemma_lev_ge_len_diff(a.drop_last(), b.drop_last());
    }
}

/// The distance to the empty string is the length.
pub proof fn lemma_lev_empty(a: Seq<char>)
    ensures
        lev(a, seq![]) == a.len(),
        lev(seq![], a) == a.len(),
{
}

proof fn lemma_lev_step(a: Seq<char>, b: Seq<char>, i: int, j: int)
    requires
        0 < i <= a.len(),
        0 < j <= b.len(),
    ensures
        lev(a.take(i), b.take(j)) == min3(
            lev(a.take(i - 1), b.take(j)) + 1,
            lev(a.take(i), b.take(j - 1)) + 1,
            lev(a.take(i - 1), b.take(j - 1)) + subst_cost(a[i - 1], b[j - 1]),
        ),
{
    assert(a.take(i).drop_last() =~= a.take(i - 1));
    assert(b.take(j).drop_last() =~= b.take(j - 1));
}

/// The Levenshtein distance between two character sequences.
pub fn lev_chars(a: &[char], b: &[char]) -> (d: usize)
    ensures
        d == lev(a@, b@),
{
    let n = chars_len(a);
    let m = chars_len(b);
    if n == 0 {
        return m;
    }
    if m == 0 {
        return n;
    }
    let mut prev: Vec<usize> = Vec::new();
    let mut j: usize = 0;
    while j <= m
        invariant
            0 <= j <= m + 1,
            m == b@.len(),
            m <= isize::MAX,
            prev@.len() == j,
            forall|k: int| 0 <= k < j ==> prev@[k] == lev(a@.take(0), b@.take(k)),
        decreases m + 1 - j,
    {
        assert(lev(a@.take(0), b@.take(j as int)) == j) by {
            assert(a@.take(0).len() == 0);
        }
        prev.push(j);
        j = j + 1;
    }
    let mut i: usize = 1;
    while i <= n
        invariant
            1 <= i <= n + 1,
            n == a@.len(),
            m == b@.len(),
            n <= isize::MAX,
            m <= isize::MAX,
            prev@.len() == m + 1,
            forall|k: int| 0 <= k <= m ==> prev@[k] == lev(a@.take(i - 1), b@.take(k)),
        decreases n + 1 - i,
    {
        let mut row: Vec<usize> = Vec::new();
        assert(lev(a@.take(i as int), b@.take(0)) == i) by {
            assert(b@.take(0).len() == 0);
        }
        row.push(i);
        let mut j: usize = 1;
        while j <= m
            invariant
                1 <= i <= n,
                1 <= j <= m + 1,
                n == a@.len(),
                m == b@.len(),
                n <= isize::MAX,
                m <= isize::MAX,
                prev@.len() == m + 1,
                row@.len() == j,
                forall|k: int| 0 <= k <= m ==> prev@[k] == lev(a@.take(i - 1), b@.take(k)),
                forall|k: int| 0 <= k < j ==> row@[k] == lev(a@.take(i as int), b@.take(k)),
            decreases m + 1 - j,
        {
            proof {
                lemma_lev_step(a@, b@, i as int, j as int);
                lemma_lev_le_max(a@.take(i - 1), b@.take(j as int));
                lemma_lev_le_max(a@.take(i as int), b@.take(j - 1));
                lemma_lev_le_max(a@.take(i - 1), b@.take(j - 1));
            }
            let cost: usize = if a[i - 1] == b[j - 1] { 0 } else { 1 };
            let del = prev[j] + 1;
            let ins = row[j - 1] + 1;
            let sub = prev[j - 1] + cost;
            let mut best = if del <= ins { del } else { ins };
            if sub < best {
                best = sub;
            }
            row.push(best);
            j = j + 1;
        }
        prev = row;
        i = i + 1;
    }
    assert(a@.take(n as int) =~= a@);
    assert(b@.take(m as int) =~= b@);
    prev[m]
}

/// The Levenshtein distance between two strings, counted in characters.
pub fn levenshtein_distance(a: &str, b: &str) -> (d: usize)
    ensures
        d == lev(a@, b@),
{
    let ac = chars_of(a);
    let bc = chars_of(b);
    lev_chars(ac.as_slice(), bc.as_slice())
}

} // verus!
