//! Word-level alignment of a sentence pattern against spoken words.
use vstd::prelude::*;
use crate::levenshtein::min3;
use crate::text::{chars_of, eq_ascii_ci, eq_ascii_ci_chars, string_from_chars, strings_len, views};

verus! {

/// A pattern word that names a parameter: `{name}`.
pub open spec fn is_param_word(w: Seq<char>) -> bool {
    w.len() > 0 && w[0] == '{' && w.last() == '}'
}

/// The parameter name inside a parameter word.
pub open spec fn param_name_of(w: Seq<char>) -> Seq<char> {
    w.subrange(1, w.len() - 1)
}

/// Returns the parameter name of a `{name}` word, if it is one.
pub fn is_param_token(word: &str) -> (r: Option<String>)
    ensures
        r is Some <==> is_param_word(word@),
        r matches Some(n) ==> n@ == param_name_of(word@),
{
    let w = chars_of(word);
    if w.len() > 0 && w[0] == '{' && w[w.len() - 1] == '}' {
        let mut inner: Vec<char> = Vec::new();
        let mut k: usize = 1;
        while k < w.len() - 1
            invariant
                1 <= k <= w@.len() - 1,
                w@.len() >= 2 || (w@.len() == 1 && k == 1),
                w@ == word@,
                inner@ == w@.subrange(1, k as int),
            decreases w@.len() - k,
        {
            inner.push(w[k]);
            assert(w@.subrange(1, k + 1) =~= w@.subrange(1, k as int).push(w@[k as int]));
            k = k + 1;
        }
        Some(string_from_chars(inner.as_slice()))
    } else {
        None
    }
}

/// The cost of aligning a pattern word with a spoken word: parameters match
/// anything, other words match when equal up to ASCII case.
pub open spec fn word_cost(p: Seq<char>, t: Seq<char>) -> nat {
    if is_param_word(p) {
        0
    } else if eq_ascii_ci(p, t) {
        0
    } else {
        1
    }
}

/// The word-level edit distance between a pattern and a text.
pub open spec fn word_dist(p: Seq<Seq<char>>, t: Seq<Seq<char>>) -> nat
    decreases p.len() + t.len(),
{
    if p.len() == 0 {
        t.len()
    } else if t.len() == 0 {
        p.len()
    } else {
        min3(
            word_dist(p.drop_last(), t) + 1,
            word_dist(p, t.drop_last()) + 1,
            word_dist(p.drop_last(), t.drop_last()) + word_cost(p.last(), t.last()),
        )
    }
}

/// The alignment read back from the distance table: for each pattern word,
/// the text position it is matched with, if any. Ties prefer a match, then
/// skipping the pattern word, then skipping the text word.
pub open spec fn alignment(p: Seq<Seq<char>>, t: Seq<Seq<char>>) -> Seq<Option<int>>
    decreases p.len() + t.len(),
{
    if p.len() == 0 {
        seq![]
    } else if t.len() == 0 {
        Seq::new(p.len(), |k: int| None)
    } else if word_dist(p, t) == word_dist(p.drop_last(), t.drop_last()) + word_cost(
        p.last(),
        t.last(),
    ) {
        alignment(p.drop_last(), t.drop_last()).push(Some(t.len() - 1))
    } else if word_dist(p, t) == word_dist(p.drop_last(), t) + 1 {
        alignment(p.drop_last(), t).push(None)
    } else {
        alignment(p, t.drop_last())
    }
}

/// The alignment has one entry per pattern word, and matched positions are
/// strictly increasing positions of the text.
pub proof fn lemma_alignment_shape(p: Seq<Seq<char>>, t: Seq<Seq<char>>)
    ensures
        alignment(p, t).len() == p.len(),
        forall|i: int|
            0 <= i < p.len() ==> (#[trigger] alignment(p, t)[i] matches Some(k) ==> 0 <= k < t.len()),
        forall|i: int, j: int|
            0 <= i < j < p.len() ==> (#[trigger] alignment(p, t)[i] matches Some(ki) ==> (
            #[trigger] alignment(p, t)[j] matches Some(kj) ==> ki < kj)),
    decreases p.len() + t.len(),
{
    if p.len() > 0 && t.len() > 0 {
        lemma_alignment_shape(p.drop_last(), t.drop_last());
        lemma_alignment_shape(p.drop_last(), t);
        lemma_alignment_shape(p, t.drop_last());
    }
}

proof fn lemma_word_dist_le_max(p: Seq<Seq<char>>, t: Seq<Seq<char>>)
    ensures
        word_dist(p, t) <= if p.len() >= t.len() { p.len() } else { t.len() },
    decreases p.len() + t.len(),
{
    if p.len() > 0 && t.len() > 0 {
        lemma_word_dist_le_max(p.drop_last(), t.drop_last());
    }
}

proof fn lemma_word_dist_step(p: Seq<Seq<char>>, t: Seq<Seq<char>>, i: int, j: int)
    requires
        0 < i <= p.len(),
        0 < j <= t.len(),
    ensures
        word_dist(p.take(i), t.take(j)) == min3(
            word_dist(p.take(i - 1), t.take(j)) + 1,
            word_dist(p.take(i), t.take(j - 1)) + 1,
            word_dist(p.take(i - 1), t.take(j - 1)) + word_cost(p[i - 1], t[j - 1]),
        ),
        alignment(p.take(i), t.take(j)) == if word_dist(p.take(i), t.take(j)) == word_dist(
            p.take(i - 1),
            t.take(j - 1),
        ) + word_cost(p[i - 1], t[j - 1]) {
            alignment(p.take(i - 1), t.take(j - 1)).push(Some(j - 1))
        } else if word_dist(p.take(i), t.take(j)) == word_dist(p.take(i - 1), t.take(j)) + 1 {
            alignment(p.take(i - 1), t.take(j)).push(None)
        } else {
            alignment(p.take(i), t.take(j - 1))
        },
{
    assert(p.take(i).drop_last() =~= p.take(i - 1));
    assert(t.take(j).drop_last() =~= t.take(j - 1));
}

fn word_cost_exec(p: &Vec<char>, t: &Vec<char>) -> (c: usize)
    ensures
        c == word_cost(p@, t@),
{
    if p.len() > 0 && p[0] == '{' && p[p.len() - 1] == '}' {
        0
    } else if eq_ascii_ci_chars(p.as_slice(), t.as_slice()) {
        0
    } else {
        1
    }
}

fn to_char_vecs(v: &[String]) -> (r: Vec<Vec<char>>)
    ensures
        r@.map_values(|w: Vec<char>| w@) == views(v@),
{
    let mut r: Vec<Vec<char>> = Vec::new();
    let mut i: usize = 0;
    while i < v.len()
        invariant
            0 <= i <= v@.len(),
            r@.map_values(|w: Vec<char>| w@) == views(v@).take(i as int),
        decreases v@.len() - i,
    {
        let ghost prev = r@;
        r.push(chars_of(v[i].as_str()));
        assert(r@.map_values(|w: Vec<char>| w@) =~= prev.map_values(|w: Vec<char>| w@).push(v@[i as int]@));
        assert(views(v@).take(i + 1) =~= views(v@).take(i as int).push(v@[i as int]@));
        i = i + 1;
    }
    assert(views(v@).take(v@.len() as int) =~= views(v@));
    r
}

/// Aligns the words of a pattern with the words of a text by word-level edit
/// distance, where `{param}` words align with any word at no cost.
pub fn align_words(pattern: &[String], text: &[String]) -> (r: Vec<Option<usize>>)
    ensures
        r@.len() == pattern@.len(),
        forall|i: int|
            0 <= i < r@.len() ==> (#[trigger] r@[i] matches Some(k) ==> alignment(
                views(pattern@),
                views(text@),
            )[i] == Some(k as int)),
        forall|i: int|
            0 <= i < r@.len() ==> (#[trigger] r@[i] is None ==> alignment(
                views(pattern@),
                views(text@),
            )[i] is None),
        forall|i: int| 0 <= i < r@.len() ==> (#[trigger] r@[i] matches Some(k) ==> k < text@.len()),
{
    let ghost ps = views(pattern@);
    let ghost ts = views(text@);
    let pv = to_char_vecs(pattern);
    let tv = to_char_vecs(text);
    let pn = strings_len(pattern);
    let tn = strings_len(text);
    assert(pv@.len() == pn && tv@.len() == tn);
    // distance table, row by row
    let mut dp: Vec<Vec<usize>> = Vec::new();
    let mut first: Vec<usize> = Vec::new();
    let mut j: usize = 0;
    while j <= tn
        invariant
            0 <= j <= tn + 1,
            tn == ts.len(),
            tn <= isize::MAX,
            first@.len() == j,
            forall|k: int| 0 <= k < j ==> first@[k] == word_dist(ps.take(0), ts.take(k)),
        decreases tn + 1 - j,
    {
        assert(word_dist(ps.take(0), ts.take(j as int)) == j) by {
            assert(ps.take(0).len() == 0);
        }
        first.push(j);
        j = j + 1;
    }
    dp.push(first);
    let mut i: usize = 1;
    while i <= pn
        invariant
            1 <= i <= pn + 1,
            pn == ps.len(),
            tn == ts.len(),
            pn <= isize::MAX,
            tn <= isize::MAX,
            pv@.map_values(|w: Vec<char>| w@) == ps,
            tv@.map_values(|w: Vec<char>| w@) == ts,
            pv@.len() == pn,
            tv@.len() == tn,
            dp@.len() == i,
            forall|r: int| 0 <= r < i ==> (#[trigger] dp@[r])@.len() == tn + 1,
            forall|r: int, k: int|
                0 <= r < i && 0 <= k <= tn ==> (#[trigger] dp@[r]@[k]) == word_dist(
                    ps.take(r),
                    ts.take(k),
                ),
        decreases pn + 1 - i,
    {
        let mut row: Vec<usize> = Vec::new();
        assert(word_dist(ps.take(i as int), ts.take(0)) == i) by {
            assert(ts.take(0).len() == 0);
        }
        row.push(i);
        let mut j: usize = 1;
        while j <= tn
            invariant
                1 <= i <= pn,
                1 <= j <= tn + 1,
                pn == ps.len(),
                tn == ts.len(),
                pn <= isize::MAX,
                tn <= isize::MAX,
                pv@.map_values(|w: Vec<char>| w@) == ps,
                tv@.map_values(|w: Vec<char>| w@) == ts,
                pv@.len() == pn,
                tv@.len() == tn,
                dp@.len() == i,
                forall|r: int| 0 <= r < i ==> (#[trigger] dp@[r])@.len() == tn + 1,
                forall|r: int, k: int|
                    0 <= r < i && 0 <= k <= tn ==> (#[trigger] dp@[r]@[k]) == word_dist(
                        ps.take(r),
                        ts.take(k),
                    ),
                row@.len() == j,
                forall|k: int| 0 <= k < j ==> row@[k] == word_dist(ps.take(i as int), ts.take(k)),
            decreases tn + 1 - j,
        {
            proof {
                lemma_word_dist_step(ps, ts, i as int, j as int);
                lemma_word_dist_le_max(ps.take(i - 1), ts.take(j as int));
                lemma_word_dist_le_max(ps.take(i as int), ts.take(j - 1));
                lemma_word_dist_le_max(ps.take(i - 1), ts.take(j - 1));
                assert(pv@[i - 1]@ == ps[i - 1]);
                assert(tv@[j - 1]@ == ts[j - 1]);
            }
            let cost = word_cost_exec(&pv[i - 1], &tv[j - 1]);
            let prev = &dp[i - 1];
            let del = prev[j] + 1;
            let ins = row[j - 1] + 1;
            let sub = prev[j - 1] + cost;
            let mut best = if del <= ins { del } else { ins };
            if sub < best {
                best = sub;
            }
            row.push(best);
            j = j + 1;
        }
        dp.push(row);
        i = i + 1;
    }
    // read the alignment back
    let mut al: Vec<Option<usize>> = Vec::new();
    let mut k: usize = 0;
    while k < pn
        invariant
            0 <= k <= pn,
            al@.len() == k,
            forall|m: int| 0 <= m < k ==> al@[m] is None,
        decreases pn - k,
    {
        al.push(None);
        k = k + 1;
    }
    let mut i: usize = pn;
    let mut j: usize = tn;
    assert(ps.take(pn as int) =~= ps);
    assert(ts.take(tn as int) =~= ts);
    let ghost full = alignment(ps, ts);
    proof {
        lemma_alignment_shape(ps, ts);
    }
    while i > 0 && j > 0
        invariant
            0 <= i <= pn,
            0 <= j <= tn,
            pn == ps.len(),
            tn == ts.len(),
            pn <= isize::MAX,
            tn <= isize::MAX,
            pv@.map_values(|w: Vec<char>| w@) == ps,
            tv@.map_values(|w: Vec<char>| w@) == ts,
            pv@.len() == pn,
            tv@.len() == tn,
            dp@.len() == pn + 1,
            forall|r: int| 0 <= r <= pn ==> (#[trigger] dp@[r])@.len() == tn + 1,
            forall|r: int, c: int|
                0 <= r <= pn && 0 <= c <= tn ==> (#[trigger] dp@[r]@[c]) == word_dist(
                    ps.take(r),
                    ts.take(c),
                ),
            al@.len() == pn,
            forall|m: int| 0 <= m < i ==> al@[m] is None,
            full == alignment(ps, ts),
            full == alignment(ps.take(i as int), ts.take(j as int)) + al@.subrange(
                i as int,
                pn as int,
            ).map_values(|o: Option<usize>| opt_int(o)),
        decreases i + j,
    {
        proof {
            lemma_word_dist_step(ps, ts, i as int, j as int);
            lemma_word_dist_le_max(ps.take(i - 1), ts.take(j as int));
            lemma_word_dist_le_max(ps.take(i - 1), ts.take(j - 1));
            assert(pv@[i - 1]@ == ps[i - 1]);
            assert(tv@[j - 1]@ == ts[j - 1]);
        }
        let cost = word_cost_exec(&pv[i - 1], &tv[j - 1]);
        let cur = dp[i][j];
        if cur == dp[i - 1][j - 1] + cost {
            let ghost old_al = al@;
            al.set(i - 1, Some(j - 1));
            proof {
                assert(al@.subrange(i - 1, pn as int).map_values(|o: Option<usize>| opt_int(o))
                    =~= seq![Some(j - 1)] + old_al.subrange(i as int, pn as int).map_values(
                    |o: Option<usize>| opt_int(o),
                ));
            }
            i = i - 1;
            j = j - 1;
        } else if cur == dp[i - 1][j] + 1 {
            proof {
                assert(al@.subrange(i - 1, pn as int).map_values(|o: Option<usize>| opt_int(o))
                    =~= seq![None] + al@.subrange(i as int, pn as int).map_values(
                    |o: Option<usize>| opt_int(o),
                ));
            }
            i = i - 1;
        } else {
            j = j - 1;
        }
    }
    proof {
        let rest = al@.subrange(i as int, pn as int).map_values(|o: Option<usize>| opt_int(o));
        if i > 0 {
            assert(ts.take(0).len() == 0);
            assert(alignment(ps.take(i as int), ts.take(j as int)) =~= Seq::new(
                i as nat,
                |k: int| None,
            ));
        }
        assert(full =~= al@.map_values(|o: Option<usize>| opt_int(o)));
        assert forall|m: int| 0 <= m < al@.len() implies (#[trigger] al@[m] matches Some(k) ==> full[m]
            == Some(k as int)) by {
            assert(full[m] == opt_int(al@[m]));
        }
        assert forall|m: int| 0 <= m < al@.len() && #[trigger] al@[m] is None implies full[m] is None by {
            assert(full[m] == opt_int(al@[m]));
        }
        assert forall|m: int| 0 <= m < al@.len() implies (#[trigger] al@[m] matches Some(k) ==> k
            < text@.len()) by {
            assert(full[m] == opt_int(al@[m]));
        }
    }
    al
}

/// An optional position as an optional integer.
pub open spec fn opt_int(o: Option<usize>) -> Option<int> {
    match o {
        Some(k) => Some(k as int),
        None => None,
    }
}

} // verus!
