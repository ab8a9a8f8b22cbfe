//! Similarity scores between spoken text and known sentences.
use vstd::prelude::*;
use crate::levenshtein::{lemma_lev_le_max, lev, lev_chars};
use crate::expand::cviews;
use crate::text::{byte_len, byte_len_chars, chars_eq, lemma_byte_len_ge, sub_chars};

verus! {

/// The larger of two byte lengths.
pub open spec fn max_bytes(a: Seq<char>, b: Seq<char>) -> nat {
    if byte_len(a) >= byte_len(b) {
        byte_len(a)
    } else {
        byte_len(b)
    }
}

/// The similarity of two strings in percent: 100 minus the Levenshtein
/// distance (in characters) as a percentage of the longer UTF-8 length
/// (rounded down), where 100 is kept for identical strings (different
/// strings that would round to 100 score 99); nothing when both are empty.
pub open spec fn similarity(a: Seq<char>, b: Seq<char>) -> Option<int> {
    let m = max_bytes(a, b);
    if m == 0 {
        None
    } else {
        let raw = 100 - (lev(a, b) as int * 100) / (m as int);
        if lev(a, b) > 0 && raw == 100 {
            Some(99)
        } else {
            Some(raw)
        }
    }
}

/// A score lies between 0 and 100.
pub proof fn lemma_similarity_range(a: Seq<char>, b: Seq<char>)
    ensures
        similarity(a, b) matches Some(s) ==> 0 <= s <= 100,
{
    lemma_lev_le_max(a, b);
    lemma_byte_len_ge(a);
    lemma_byte_len_ge(b);
    let m = max_bytes(a, b) as int;
    if m > 0 {
        let d = lev(a, b) as int;
        assert(d <= m);
        assert((d * 100) / m <= 100) by (nonlinear_arith)
            requires
                d <= m,
                m > 0,
        ;
        assert((d * 100) / m >= 0) by (nonlinear_arith)
            requires
                d >= 0,
                m > 0,
        ;
    }
}

/// Identical non-empty strings are 100% similar.
pub proof fn lemma_similarity_identical(a: Seq<char>)
    requires
        byte_len(a) > 0,
    ensures
        similarity(a, a) == Some(100int),
{
    crate::levenshtein::lemma_lev_zero_iff_equal(a, a);
}

/// A score of 100 means identical: two strings, not both empty, score
/// 100 exactly when they are equal.
pub proof fn lemma_similarity_hundred_iff_equal(a: Seq<char>, b: Seq<char>)
    requires
        max_bytes(a, b) > 0,
    ensures
        similarity(a, b) == Some(100int) <==> a == b,
{
    crate::levenshtein::lemma_lev_zero_iff_equal(a, b);
    lemma_similarity_range(a, b);
    lemma_lev_le_max(a, b);
    lemma_byte_len_ge(a);
    lemma_byte_len_ge(b);
    let m = max_bytes(a, b) as int;
    let d = lev(a, b) as int;
    assert((d * 100) / m >= 0) by (nonlinear_arith)
        requires
            d >= 0,
            m > 0,
    ;
}

/// Similarity does not depend on the order of its arguments.
pub proof fn lemma_similarity_symmetric(a: Seq<char>, b: Seq<char>)
    ensures
        similarity(a, b) == similarity(b, a),
{
    crate::levenshtein::lemma_lev_symmetric(a, b);
}

// ---------------------------------------------------------------------------
// Trigram check
// ---------------------------------------------------------------------------

/// The three-character pieces of a text starting before position `i`.
pub open spec fn trigrams_upto(s: Seq<char>, i: int) -> Set<Seq<char>> {
    Set::new(|t: Seq<char>| exists|j: int| 0 <= j < i && j + 3 <= s.len() && t == #[trigger] s.subrange(j, j + 3))
}

/// The distinct three-character pieces of a text.
pub open spec fn trigrams(s: Seq<char>) -> Set<Seq<char>> {
    trigrams_upto(s, s.len() as int)
}

/// The trigram similarity of two texts in percent (rounded down): the
/// pieces they share among all the pieces of either; nothing when neither
/// has a piece (both are shorter than three characters).
pub open spec fn trigram_similarity(a: Seq<char>, b: Seq<char>) -> Option<int> {
    let u = trigrams(a).union(trigrams(b));
    if u.len() == 0 {
        None
    } else {
        Some((trigrams(a).intersect(trigrams(b)).len() * 100) as int / u.len() as int)
    }
}

/// The quick check before the edit distance: texts that share less than
/// 30% of their trigrams are skipped; texts without trigrams are not.
pub open spec fn trigram_pass(a: Seq<char>, b: Seq<char>) -> bool {
    match trigram_similarity(a, b) {
        Some(p) => p >= 30,
        None => true,
    }
}

/// Whether a list of words holds a word.
fn holds_word(v: &Vec<Vec<char>>, x: &Vec<char>) -> (b: bool)
    ensures
        b == cviews(v@).contains(x@),
{
    let mut i: usize = 0;
    while i < v.len()
        invariant
            0 <= i <= v@.len(),
            forall|k: int| 0 <= k < i ==> cviews(v@)[k] != x@,
        decreases v@.len() - i,
    {
        if chars_eq(v[i].as_slice(), x.as_slice()) {
            assert(cviews(v@)[i as int] == x@);
            return true;
        }
        i = i + 1;
    }
    false
}

/// Adds a word to a list of distinct words unless it is there.
fn add_distinct(v: &mut Vec<Vec<char>>, x: Vec<char>)
    requires
        cviews(old(v)@).no_duplicates(),
    ensures
        cviews(final(v)@).no_duplicates(),
        cviews(final(v)@).to_set() == cviews(old(v)@).to_set().insert(x@),
{
    let ghost xv = x@;
    if !holds_word(v, &x) {
        let ghost prev = cviews(v@);
        v.push(x);
        assert(cviews(v@) =~= prev.push(xv));
        proof {
            prev.lemma_push_to_set_commute(xv);
        }
    } else {
        assert(cviews(v@).to_set() =~= cviews(v@).to_set().insert(xv));
    }
}

/// The distinct trigrams of a text.
fn distinct_trigrams(s: &[char]) -> (r: Vec<Vec<char>>)
    ensures
        cviews(r@).no_duplicates(),
        cviews(r@).to_set() == trigrams(s@),
{
    let n = s.len();
    let mut r: Vec<Vec<char>> = Vec::new();
    assert(cviews(r@).to_set() =~= trigrams_upto(s@, 0));
    let mut i: usize = 0;
    while n >= 3 && i <= n - 3
        invariant
            n == s@.len(),
            i <= n,
            cviews(r@).no_duplicates(),
            cviews(r@).to_set() == trigrams_upto(s@, i as int),
        decreases n - i,
    {
        let t = sub_chars(s, i, i + 3);
        add_distinct(&mut r, t);
        assert(trigrams_upto(s@, i + 1) =~= trigrams_upto(s@, i as int).insert(s@.subrange(i as int, i + 3)));
        i = i + 1;
    }
    assert(trigrams_upto(s@, i as int) =~= trigrams(s@));
    r
}

/// Whether two texts pass the quick trigram check (see `trigram_pass`).
pub fn trigram_check(a: &[char], b: &[char]) -> (ok: bool)
    ensures
        ok == trigram_pass(a@, b@),
{
    let ta = distinct_trigrams(a);
    let tb = distinct_trigrams(b);
    let ghost sa = trigrams(a@);
    let ghost sb = trigrams(b@);
    let mut shared: Vec<Vec<char>> = Vec::new();
    let mut all: Vec<Vec<char>> = Vec::new();
    assert(cviews(shared@).to_set() =~= Set::<Seq<char>>::empty());
    assert(cviews(all@).to_set() =~= Set::<Seq<char>>::empty());
    let mut i: usize = 0;
    while i < ta.len()
        invariant
            0 <= i <= ta@.len(),
            cviews(ta@).to_set() == sa,
            cviews(tb@).to_set() == sb,
            cviews(shared@).no_duplicates(),
            cviews(all@).no_duplicates(),
            cviews(shared@).to_set() == cviews(ta@).take(i as int).to_set().intersect(sb),
            cviews(all@).to_set() == cviews(ta@).take(i as int).to_set(),
        decreases ta@.len() - i,
    {
        let ghost x = cviews(ta@)[i as int];
        assert(cviews(ta@).take(i + 1) =~= cviews(ta@).take(i as int).push(x));
        proof {
            cviews(ta@).take(i as int).lemma_push_to_set_commute(x);
        }
        let w = sub_chars(ta[i].as_slice(), 0, ta[i].len());
        assert(w@ =~= x);
        let w2 = sub_chars(ta[i].as_slice(), 0, ta[i].len());
        assert(w2@ =~= x);
        if holds_word(&tb, &w) {
            assert(sb.contains(x));
            add_distinct(&mut shared, w);
        } else {
            assert(!sb.contains(x));
        }
        add_distinct(&mut all, w2);
        assert(cviews(shared@).to_set() =~= cviews(ta@).take(i + 1).to_set().intersect(sb));
        i = i + 1;
    }
    assert(cviews(ta@).take(ta@.len() as int) =~= cviews(ta@));
    let mut j: usize = 0;
    while j < tb.len()
        invariant
            0 <= j <= tb@.len(),
            cviews(tb@).to_set() == sb,
            cviews(all@).no_duplicates(),
            cviews(all@).to_set() == sa.union(cviews(tb@).take(j as int).to_set()),
        decreases tb@.len() - j,
    {
        let ghost x = cviews(tb@)[j as int];
        assert(cviews(tb@).take(j + 1) =~= cviews(tb@).take(j as int).push(x));
        proof {
            cviews(tb@).take(j as int).lemma_push_to_set_commute(x);
        }
        let w = sub_chars(tb[j].as_slice(), 0, tb[j].len());
        assert(w@ =~= x);
        add_distinct(&mut all, w);
        assert(cviews(all@).to_set() =~= sa.union(cviews(tb@).take(j + 1).to_set()));
        j = j + 1;
    }
    assert(cviews(tb@).take(tb@.len() as int) =~= cviews(tb@));
    proof {
        cviews(shared@).unique_seq_to_set();
        cviews(all@).unique_seq_to_set();
    }
    let u = all.len();
    let c = shared.len();
    assert(u == cviews(all@).len());
    assert(c == cviews(shared@).len());
    if u == 0 {
        return true;
    }
    let p: u128 = (c as u128) * 100 / (u as u128);
    p >= 30
}

/// Computes the similarity of two character sequences.
pub fn similarity_chars(a: &[char], b: &[char]) -> (r: Option<i32>)
    ensures
        match r {
            Some(s) => similarity(a@, b@) == Some(s as int),
            None => similarity(a@, b@) is None,
        },
{
    let la = byte_len_chars(a);
    let lb = byte_len_chars(b);
    let m: u128 = if la >= lb {
        la
    } else {
        lb
    };
    if m == 0 {
        return None;
    }
    let d = lev_chars(a, b);
    proof {
        lemma_lev_le_max(a@, b@);
        lemma_byte_len_ge(a@);
        lemma_byte_len_ge(b@);
        lemma_similarity_range(a@, b@);
    }
    assert(d <= m);
    let dd: u128 = d as u128;
    assert(dd * 100 <= m * 100) by (nonlinear_arith)
        requires
            dd <= m,
    ;
    let q: u128 = (dd * 100) / m;
    assert(q <= 100) by (nonlinear_arith)
        requires
            q == (dd * 100) / (m as int),
            dd <= m,
            m > 0,
    ;
    let s: i32 = if d > 0 && q == 0 {
        99
    } else {
        100 - (q as i32)
    };
    Some(s)
}

} // verus!
