//! Expansion of sentence templates: `(a|b)` alternatives, `[a|b]` optional
//! words, the same groups inside a word (`turn(s|ed)`, `light[s]`), and the
//! cartesian product behind them.
use vstd::prelude::*;
use crate::text::{
    chars_eq, chars_of, join, join_chars, split_ws_chars, join_strings, lemma_lex_irreflexive, lemma_lex_total, lemma_lex_transitive,
    lex_less, lex_lt, replace_sub, replace_sub_chars, split_at_char, split_chars, split_whitespace,
    push_all, squash_ws, squash_ws_chars, string_from_chars, sub_chars, trim, trim_chars, views, words,
};
use crate::pattern::{find_pos, pos_of};

verus! {

// ---------------------------------------------------------------------------
// Cartesian product
// ---------------------------------------------------------------------------

/// Every index tuple of a product of lists with the given lengths, the first
/// list varying slowest.
pub open spec fn cart_idx(lens: Seq<nat>) -> Seq<Seq<int>>
    decreases lens.len(),
{
    if lens.len() == 0 {
        seq![seq![]]
    } else {
        extend_each(cart_idx(lens.drop_last()), lens.last())
    }
}

/// Each tuple extended by each index below `n`, in order.
pub open spec fn extend_each(r: Seq<Seq<int>>, n: nat) -> Seq<Seq<int>>
    decreases r.len(),
{
    if r.len() == 0 {
        seq![]
    } else {
        extend_each(r.drop_last(), n) + Seq::new(n, |x: int| r.last().push(x))
    }
}

/// The lengths of a sequence of lists.
pub open spec fn lens_of<T>(lists: Seq<Vec<T>>) -> Seq<nat> {
    lists.map_values(|v: Vec<T>| v@.len())
}

/// Whether a tuple indexes into lists of the given lengths.
pub open spec fn valid_tuple(t: Seq<int>, lens: Seq<nat>) -> bool {
    t.len() == lens.len() && forall|k: int| 0 <= k < t.len() ==> 0 <= #[trigger] t[k] < lens[k]
}

proof fn lemma_extend_each_valid(r: Seq<Seq<int>>, n: nat, lens: Seq<nat>)
    requires
        lens.len() > 0,
        lens.last() == n,
        forall|i: int| 0 <= i < r.len() ==> valid_tuple(#[trigger] r[i], lens.drop_last()),
    ensures
        forall|i: int| 0 <= i < extend_each(r, n).len() ==> valid_tuple(#[trigger] extend_each(r, n)[i], lens),
    decreases r.len(),
{
    if r.len() > 0 {
        let a = extend_each(r.drop_last(), n);
        assert forall|i: int| 0 <= i < r.drop_last().len() implies valid_tuple(
            #[trigger] r.drop_last()[i],
            lens.drop_last(),
        ) by {
            assert(r.drop_last()[i] == r[i]);
        }
        lemma_extend_each_valid(r.drop_last(), n, lens);
        let last = r.last();
        assert(valid_tuple(r[r.len() - 1], lens.drop_last()));
        assert forall|i: int| 0 <= i < extend_each(r, n).len() implies valid_tuple(
            #[trigger] extend_each(r, n)[i],
            lens,
        ) by {
            if i < a.len() {
                assert(extend_each(r, n)[i] == a[i]);
            } else {
                let x = i - a.len();
                let t = last.push(x);
                assert(extend_each(r, n)[i] == t);
                assert forall|k: int| 0 <= k < t.len() implies 0 <= #[trigger] t[k] < lens[k] by {
                    if k < last.len() {
                        assert(t[k] == last[k]);
                        assert(lens.drop_last()[k] == lens[k]);
                    }
                }
            }
        }
    }
}

/// Every tuple of the product is a valid index tuple.
pub proof fn lemma_cart_idx_valid(lens: Seq<nat>)
    ensures
        forall|i: int| 0 <= i < cart_idx(lens).len() ==> valid_tuple(#[trigger] cart_idx(lens)[i], lens),
    decreases lens.len(),
{
    if lens.len() == 0 {
        assert(valid_tuple(cart_idx(lens)[0], lens));
    } else {
        lemma_cart_idx_valid(lens.drop_last());
        lemma_extend_each_valid(cart_idx(lens.drop_last()), lens.last(), lens);
    }
}

fn copy_tuple(t: &Vec<usize>) -> (r: Vec<usize>)
    ensures
        r@ == t@,
{
    let mut r: Vec<usize> = Vec::new();
    let mut i: usize = 0;
    while i < t.len()
        invariant
            0 <= i <= t@.len(),
            r@ == t@.take(i as int),
        decreases t@.len() - i,
    {
        r.push(t[i]);
        assert(t@.take(i + 1) =~= t@.take(i as int).push(t@[i as int]));
        i = i + 1;
    }
    assert(t@.take(t@.len() as int) =~= t@);
    r
}

/// The view of an index tuple as integers.
pub open spec fn tuple_view(t: Vec<usize>) -> Seq<int> {
    t@.map_values(|x: usize| x as int)
}

pub(crate) fn index_tuples(lens: &Vec<usize>) -> (r: Vec<Vec<usize>>)
    ensures
        r@.map_values(|t: Vec<usize>| tuple_view(t)) == cart_idx(lens@.map_values(|n: usize| n as nat)),
{
    let ghost ln = lens@.map_values(|n: usize| n as nat);
    let mut res: Vec<Vec<usize>> = Vec::new();
    let e: Vec<usize> = Vec::new();
    res.push(e);
    assert(tuple_view(res@[0]) =~= seq![]);
    assert(res@.map_values(|t: Vec<usize>| tuple_view(t)) =~= seq![seq![]]);
    assert(ln.take(0) =~= seq![]);
    let mut li: usize = 0;
    while li < lens.len()
        invariant
            0 <= li <= lens@.len(),
            ln == lens@.map_values(|n: usize| n as nat),
            res@.map_values(|t: Vec<usize>| tuple_view(t)) == cart_idx(ln.take(li as int)),
        decreases lens@.len() - li,
    {
        let n = lens[li];
        let ghost r = res@.map_values(|t: Vec<usize>| tuple_view(t));
        let mut next: Vec<Vec<usize>> = Vec::new();
        let mut pi: usize = 0;
        assert(r.take(0) =~= seq![]);
        while pi < res.len()
            invariant
                0 <= pi <= res@.len(),
                r == res@.map_values(|t: Vec<usize>| tuple_view(t)),
                next@.map_values(|t: Vec<usize>| tuple_view(t)) == extend_each(r.take(pi as int), n as nat),
            decreases res@.len() - pi,
        {
            let mut x: usize = 0;
            let ghost base = next@.map_values(|t: Vec<usize>| tuple_view(t));
            while x < n
                invariant
                    0 <= x <= n,
                    0 <= pi < res@.len(),
                    r == res@.map_values(|t: Vec<usize>| tuple_view(t)),
                    base == extend_each(r.take(pi as int), n as nat),
                    next@.map_values(|t: Vec<usize>| tuple_view(t)) == base + Seq::new(
                        x as nat,
                        |y: int| r[pi as int].push(y),
                    ),
                decreases n - x,
            {
                let mut ext = copy_tuple(&res[pi]);
                ext.push(x);
                let ghost prev = next@;
                next.push(ext);
                assert(tuple_view(ext) =~= r[pi as int].push(x as int));
                assert(next@.map_values(|t: Vec<usize>| tuple_view(t)) =~= prev.map_values(
                    |t: Vec<usize>| tuple_view(t),
                ).push(tuple_view(ext)));
                assert(base + Seq::new((x + 1) as nat, |y: int| r[pi as int].push(y)) =~= base
                    + Seq::new(x as nat, |y: int| r[pi as int].push(y)) + seq![r[pi as int].push(x as int)]);
                x = x + 1;
            }
            assert(r.take(pi + 1).drop_last() =~= r.take(pi as int));
            assert(r.take(pi + 1).last() == r[pi as int]);
            pi = pi + 1;
        }
        assert(r.take(res@.len() as int) =~= r);
        assert(ln.take(li + 1).drop_last() =~= ln.take(li as int));
        assert(ln.take(li + 1).last() == n as nat);
        res = next;
        li = li + 1;
    }
    assert(ln.take(lens@.len() as int) =~= ln);
    res
}

/// The cartesian product of a list of lists: every way of picking one item
/// from each list, the first list varying slowest. Items are cloned from the
/// input lists.
pub fn cartesian_product_of_lists<T: Clone>(lists: &[Vec<T>]) -> (r: Vec<Vec<T>>)
    ensures
        r@.len() == cart_idx(lens_of(lists@)).len(),
        forall|i: int|
            0 <= i < r@.len() ==> (#[trigger] r@[i])@.len() == lists@.len() && forall|k: int|
                0 <= k < lists@.len() ==> cloned::<T>(
                    lists@[k]@[cart_idx(lens_of(lists@))[i][k]],
                    #[trigger] r@[i]@[k],
                ),
{
    let mut lens: Vec<usize> = Vec::new();
    let mut i: usize = 0;
    while i < lists.len()
        invariant
            0 <= i <= lists@.len(),
            lens@.map_values(|n: usize| n as nat) == lens_of(lists@).take(i as int),
        decreases lists@.len() - i,
    {
        let ghost prev = lens@;
        lens.push(lists[i].len());
        assert(lens@.map_values(|n: usize| n as nat) =~= prev.map_values(|n: usize| n as nat).push(
            lists@[i as int]@.len(),
        ));
        assert(lens_of(lists@).take(i + 1) =~= lens_of(lists@).take(i as int).push(lists@[i as int]@.len()));
        i = i + 1;
    }
    assert(lens_of(lists@).take(lists@.len() as int) =~= lens_of(lists@));
    let ghost ln = lens_of(lists@);
    let tuples = index_tuples(&lens);
    proof {
        lemma_cart_idx_valid(ln);
    }
    let mut out: Vec<Vec<T>> = Vec::new();
    let mut ti: usize = 0;
    while ti < tuples.len()
        invariant
            0 <= ti <= tuples@.len(),
            tuples@.map_values(|t: Vec<usize>| tuple_view(t)) == cart_idx(ln),
            ln == lens_of(lists@),
            forall|q: int| 0 <= q < cart_idx(ln).len() ==> valid_tuple(#[trigger] cart_idx(ln)[q], ln),
            out@.len() == ti,
            forall|q: int|
                0 <= q < ti ==> (#[trigger] out@[q])@.len() == lists@.len() && forall|k: int|
                    0 <= k < lists@.len() ==> cloned::<T>(
                        lists@[k]@[cart_idx(ln)[q][k]],
                        #[trigger] out@[q]@[k],
                    ),
        decreases tuples@.len() - ti,
    {
        let t = &tuples[ti];
        let ghost tv = cart_idx(ln)[ti as int];
        assert(tuple_view(*t) == tv);
        assert(valid_tuple(tv, ln));
        let mut row: Vec<T> = Vec::new();
        let mut k: usize = 0;
        while k < lists.len()
            invariant
                0 <= k <= lists@.len(),
                tuple_view(*t) == tv,
                valid_tuple(tv, ln),
                ln == lens_of(lists@),
                row@.len() == k,
                forall|m: int| 0 <= m < k ==> cloned::<T>(lists@[m]@[tv[m]], #[trigger] row@[m]),
            decreases lists@.len() - k,
        {
            assert(t@[k as int] as int == tv[k as int]);
            assert(0 <= tv[k as int] < ln[k as int]);
            let item = lists[k][t[k]].clone();
            row.push(item);
            k = k + 1;
        }
        out.push(row);
        ti = ti + 1;
    }
    out
}

// ---------------------------------------------------------------------------
// Sorted sets of strings
// ---------------------------------------------------------------------------

/// Strictly increasing in the order of strings.
pub open spec fn sorted_strict(s: Seq<Seq<char>>) -> bool {
    forall|i: int, j: int| 0 <= i < j < s.len() ==> lex_lt(#[trigger] s[i], #[trigger] s[j])
}

/// The views of character buffers.
pub open spec fn cviews(v: Seq<Vec<char>>) -> Seq<Seq<char>> {
    v.map_values(|w: Vec<char>| w@)
}

/// Adds a string to a strictly sorted list, unless it is already there.
pub fn insert_sorted_unique(v: &mut Vec<Vec<char>>, x: Vec<char>)
    requires
        sorted_strict(cviews(old(v)@)),
    ensures
        sorted_strict(cviews(final(v)@)),
        cviews(final(v)@).to_set() == cviews(old(v)@).to_set().insert(x@),
{
    let ghost old_v = cviews(v@);
    let mut p: usize = 0;
    while p < v.len() && lex_less(v[p].as_slice(), x.as_slice())
        invariant
            0 <= p <= v@.len(),
            cviews(v@) == old_v,
            sorted_strict(old_v),
            forall|k: int| 0 <= k < p ==> lex_lt(old_v[k], x@),
        decreases v@.len() - p,
    {
        p = p + 1;
    }
    if p < v.len() && chars_eq(v[p].as_slice(), x.as_slice()) {
        proof {
            assert(old_v[p as int] == x@);
            assert(old_v.to_set().insert(x@) =~= old_v.to_set());
        }
        return;
    }
    proof {
        if p < v@.len() {
            assert(!lex_lt(old_v[p as int], x@));
            lemma_lex_total(old_v[p as int], x@);
            assert(lex_lt(x@, old_v[p as int]));
        }
    }
    let ghost xv = x@;
    v.insert(p, x);
    proof {
        let nv = cviews(v@);
        assert(nv =~= old_v.insert(p as int, xv));
        assert forall|i: int, j: int| 0 <= i < j < nv.len() implies lex_lt(#[trigger] nv[i], #[trigger] nv[j]) by {
            if j < p {
                assert(nv[i] == old_v[i] && nv[j] == old_v[j]);
            } else if j == p {
                assert(nv[i] == old_v[i]);
            } else if i < p {
                assert(nv[i] == old_v[i] && nv[j] == old_v[j - 1]);
                if j - 1 == p {
                    lemma_lex_transitive(old_v[i], xv, old_v[j - 1]);
                } else {
                    lemma_lex_transitive(old_v[i], xv, old_v[p as int]);
                    lemma_lex_transitive(old_v[i], old_v[p as int], old_v[j - 1]);
                }
            } else if i == p {
                assert(nv[j] == old_v[j - 1]);
                if j - 1 > p {
                    lemma_lex_transitive(xv, old_v[p as int], old_v[j - 1]);
                }
            } else {
                assert(nv[i] == old_v[i - 1] && nv[j] == old_v[j - 1]);
            }
        }
        assert(nv.to_set() =~= old_v.to_set().insert(xv)) by {
            assert forall|e: Seq<char>| nv.to_set().contains(e) implies old_v.to_set().insert(xv).contains(e) by {
                let k = choose|k: int| 0 <= k < nv.len() && nv[k] == e;
                if k < p {
                    assert(old_v[k] == e);
                } else if k > p {
                    assert(old_v[k - 1] == e);
                }
            }
            assert forall|e: Seq<char>| old_v.to_set().insert(xv).contains(e) implies nv.to_set().contains(e) by {
                if e == xv {
                    assert(nv[p as int] == xv);
                } else {
                    let k = choose|k: int| 0 <= k < old_v.len() && old_v[k] == e;
                    if k < p {
                        assert(nv[k] == e);
                    } else {
                        assert(nv[k + 1] == e);
                    }
                }
            }
        }
    }
}

fn strings_of(v: &Vec<Vec<char>>) -> (r: Vec<String>)
    ensures
        views(r@) == cviews(v@),
{
    let mut r: Vec<String> = Vec::new();
    let mut i: usize = 0;
    while i < v.len()
        invariant
            0 <= i <= v@.len(),
            views(r@) == cviews(v@).take(i as int),
        decreases v@.len() - i,
    {
        let ghost prev = r@;
        r.push(string_from_chars(v[i].as_slice()));
        assert(views(r@) =~= views(prev).push(v@[i as int]@));
        assert(cviews(v@).take(i + 1) =~= cviews(v@).take(i as int).push(v@[i as int]@));
        i = i + 1;
    }
    assert(cviews(v@).take(v@.len() as int) =~= cviews(v@));
    r
}

// ---------------------------------------------------------------------------
// Token alternatives
// ---------------------------------------------------------------------------

/// A token written `(a|b|...)`.
pub open spec fn is_group(tok: Seq<char>) -> bool {
    tok.len() >= 2 && tok[0] == '(' && tok.last() == ')'
}

/// A token written `[a|b|...]`.
pub open spec fn is_optional(tok: Seq<char>) -> bool {
    tok.len() >= 2 && tok[0] == '[' && tok.last() == ']'
}

/// The text between a token's brackets.
pub open spec fn inner(tok: Seq<char>) -> Seq<char> {
    tok.subrange(1, tok.len() - 1)
}

/// Each string trimmed.
pub open spec fn trim_all(v: Seq<Seq<char>>) -> Seq<Seq<char>> {
    v.map_values(|x: Seq<char>| trim(x))
}

/// An opening bracket of a group: `(` or `[`.
pub open spec fn is_open(c: char) -> bool {
    c == '(' || c == '['
}

/// The position of the first opening bracket of a token, or -1.
pub open spec fn first_open(tok: Seq<char>) -> int
    decreases tok.len(),
{
    if tok.len() == 0 {
        -1
    } else if is_open(tok[0]) {
        0
    } else {
        let r = first_open(tok.drop_first());
        if r < 0 {
            -1
        } else {
            r + 1
        }
    }
}

/// Each string between a prefix and a suffix.
pub open spec fn affix_all(pre: Seq<char>, v: Seq<Seq<char>>, post: Seq<char>) -> Seq<Seq<char>> {
    v.map_values(|x: Seq<char>| pre + x + post)
}

/// The alternatives of a group inside a word: the word's first `(a|b)` or
/// `[a|b]` group, up to the first closing bracket of its kind, replaced by
/// each of its pieces (trimmed when `trimmed`), and for `[..]` also left out;
/// nothing when the word has no such group.
pub open spec fn inline_alts(tok: Seq<char>, trimmed: bool) -> Option<Seq<Seq<char>>> {
    let o = first_open(tok);
    if o < 0 || o >= tok.len() {
        None
    } else {
        let close = if tok[o] == '(' {
            ')'
        } else {
            ']'
        };
        let rest = tok.subrange(o + 1, tok.len() as int);
        let cp = pos_of(rest, close);
        if cp < 0 || cp >= rest.len() {
            None
        } else {
            let pre = tok.take(o);
            let post = rest.subrange(cp + 1, rest.len() as int);
            let raw = split_at_char(rest.take(cp), '|');
            let pieces = if trimmed {
                trim_all(raw)
            } else {
                raw
            };
            let base = affix_all(pre, pieces, post);
            Some(
                if tok[o] == '[' {
                    base.push(pre + post)
                } else {
                    base
                },
            )
        }
    }
}

/// The alternatives of a word without a whole-word group: those of a group
/// inside it, else the word itself.
pub open spec fn word_alts(tok: Seq<char>, trimmed: bool) -> Seq<Seq<char>> {
    match inline_alts(tok, trimmed) {
        Some(v) => v,
        None => seq![tok],
    }
}

/// The alternatives of a token when matching at run time: the pieces of a
/// group, the pieces of an optional token plus the empty word, or those of
/// a group inside the word (see `inline_alts`).
pub open spec fn runtime_alts(tok: Seq<char>) -> Seq<Seq<char>> {
    if is_group(tok) {
        split_at_char(inner(tok), '|')
    } else if is_optional(tok) {
        split_at_char(inner(tok), '|').push(seq![])
    } else {
        word_alts(tok, false)
    }
}

/// The alternatives of a token when compiling sentences: as at run time, with
/// each piece trimmed.
pub open spec fn compile_alts(tok: Seq<char>) -> Seq<Seq<char>> {
    if is_group(tok) {
        trim_all(split_at_char(inner(tok), '|'))
    } else if is_optional(tok) {
        trim_all(split_at_char(inner(tok), '|')).push(seq![])
    } else {
        word_alts(tok, true)
    }
}

/// The alternatives of a token of a list value: the trimmed pieces of an
/// optional token (without the empty word), or the token.
pub open spec fn list_alts(tok: Seq<char>) -> Seq<Seq<char>> {
    if is_optional(tok) {
        trim_all(split_at_char(inner(tok), '|'))
    } else {
        seq![tok]
    }
}

fn inner_chars(tok: &Vec<char>) -> (r: Vec<char>)
    requires
        tok@.len() >= 2,
    ensures
        r@ == inner(tok@),
{
    let mut r: Vec<char> = Vec::new();
    let mut k: usize = 1;
    while k < tok.len() - 1
        invariant
            1 <= k <= tok@.len() - 1,
            tok@.len() >= 2,
            r@ == tok@.subrange(1, k as int),
        decreases tok@.len() - k,
    {
        r.push(tok[k]);
        assert(tok@.subrange(1, k + 1) =~= tok@.subrange(1, k as int).push(tok@[k as int]));
        k = k + 1;
    }
    r
}

fn trim_each(v: &Vec<Vec<char>>) -> (r: Vec<Vec<char>>)
    ensures
        cviews(r@) == trim_all(cviews(v@)),
{
    let mut r: Vec<Vec<char>> = Vec::new();
    let mut i: usize = 0;
    while i < v.len()
        invariant
            0 <= i <= v@.len(),
            cviews(r@) == trim_all(cviews(v@)).take(i as int),
        decreases v@.len() - i,
    {
        let ghost prev = r@;
        r.push(trim_chars(v[i].as_slice()));
        assert(cviews(r@) =~= cviews(prev).push(trim(v@[i as int]@)));
        assert(trim_all(cviews(v@)).take(i + 1) =~= trim_all(cviews(v@)).take(i as int).push(
            trim(v@[i as int]@),
        ));
        i = i + 1;
    }
    assert(trim_all(cviews(v@)).take(v@.len() as int) =~= trim_all(cviews(v@)));
    r
}

proof fn lemma_first_open(tok: Seq<char>, i: int)
    requires
        0 <= i <= tok.len(),
        forall|k: int| 0 <= k < i ==> !is_open(#[trigger] tok[k]),
    ensures
        i < tok.len() && is_open(tok[i]) ==> first_open(tok) == i,
        i == tok.len() ==> first_open(tok) == -1,
    decreases i,
{
    if i > 0 {
        let t = tok.drop_first();
        assert forall|k: int| 0 <= k < i - 1 implies !is_open(#[trigger] t[k]) by {
            assert(t[k] == tok[k + 1]);
        }
        lemma_first_open(t, i - 1);
    }
}

/// The alternatives of a group inside a word (see `inline_alts`).
fn inline_alts_exec(tok: &Vec<char>, trimmed: bool) -> (r: Option<Vec<Vec<char>>>)
    ensures
        match r {
            Some(v) => inline_alts(tok@, trimmed) == Some(cviews(v@)),
            None => inline_alts(tok@, trimmed) is None,
        },
{
    let n = tok.len();
    let mut o: usize = 0;
    while o < n
        invariant
            0 <= o <= n,
            n == tok@.len(),
            forall|k: int| 0 <= k < o ==> !is_open(#[trigger] tok@[k]),
        ensures
            0 <= o <= n,
            n == tok@.len(),
            forall|k: int| 0 <= k < o ==> !is_open(#[trigger] tok@[k]),
            o < n ==> is_open(tok@[o as int]),
        decreases n - o,
    {
        if tok[o] == '(' || tok[o] == '[' {
            break;
        }
        o = o + 1;
    }
    proof {
        lemma_first_open(tok@, o as int);
    }
    if o >= n {
        return None;
    }
    let close = if tok[o] == '(' {
        ')'
    } else {
        ']'
    };
    let rest = sub_chars(tok.as_slice(), o + 1, n);
    assert(first_open(tok@) == o as int);
    assert(rest@ == tok@.subrange(o + 1, tok@.len() as int));
    let cp = match find_pos(rest.as_slice(), close) {
        Some(c) => c,
        None => {
            assert(pos_of(rest@, close) == -1);
            return None;
        },
    };
    let pre = sub_chars(tok.as_slice(), 0, o);
    let inn = sub_chars(rest.as_slice(), 0, cp);
    let post = sub_chars(rest.as_slice(), cp + 1, rest.len());
    assert(pre@ =~= tok@.take(o as int));
    assert(inn@ =~= rest@.take(cp as int));
    let raw = split_chars(inn.as_slice(), '|');
    assert(cviews(raw@) =~= raw@.map_values(|w: Vec<char>| w@));
    let pieces = if trimmed {
        trim_each(&raw)
    } else {
        raw
    };
    let ghost pv = cviews(pieces@);
    let mut out: Vec<Vec<char>> = Vec::new();
    let mut k: usize = 0;
    while k < pieces.len()
        invariant
            0 <= k <= pieces@.len(),
            pv == cviews(pieces@),
            cviews(out@) == affix_all(pre@, pv, post@).take(k as int),
        decreases pieces@.len() - k,
    {
        let mut w: Vec<char> = Vec::new();
        push_all(&mut w, pre.as_slice());
        push_all(&mut w, pieces[k].as_slice());
        push_all(&mut w, post.as_slice());
        let ghost prev = cviews(out@);
        out.push(w);
        assert(cviews(out@) =~= prev.push(pre@ + pv[k as int] + post@));
        assert(affix_all(pre@, pv, post@).take(k + 1) =~= affix_all(pre@, pv, post@).take(k as int).push(
            pre@ + pv[k as int] + post@,
        ));
        k = k + 1;
    }
    assert(affix_all(pre@, pv, post@).take(pv.len() as int) =~= affix_all(pre@, pv, post@));
    assert(post@ == rest@.subrange(cp + 1, rest@.len() as int));
    assert(pv == (if trimmed {
        trim_all(split_at_char(rest@.take(cp as int), '|'))
    } else {
        split_at_char(rest@.take(cp as int), '|')
    }));
    if tok[o] == '[' {
        let mut w: Vec<char> = Vec::new();
        push_all(&mut w, pre.as_slice());
        push_all(&mut w, post.as_slice());
        let ghost prev = cviews(out@);
        out.push(w);
        assert(cviews(out@) =~= prev.push(pre@ + post@));
    }
    Some(out)
}

/// The three ways a token is expanded.
pub enum AltMode {
    Runtime,
    Compile,
    List,
}

/// The alternatives of a token in the given mode.
pub open spec fn alts_for(mode: AltMode, tok: Seq<char>) -> Seq<Seq<char>> {
    match mode {
        AltMode::Runtime => runtime_alts(tok),
        AltMode::Compile => compile_alts(tok),
        AltMode::List => list_alts(tok),
    }
}

/// Computes the alternatives of a token.
pub fn token_alts(mode: &AltMode, tok: &Vec<char>) -> (r: Vec<Vec<char>>)
    ensures
        cviews(r@) == alts_for(*mode, tok@),
{
    let n = tok.len();
    let group = n >= 2 && tok[0] == '(' && tok[n - 1] == ')';
    let opt = n >= 2 && tok[0] == '[' && tok[n - 1] == ']';
    let list_mode = match mode {
        AltMode::List => true,
        _ => false,
    };
    if (group && !list_mode) || opt {
        let inn = inner_chars(tok);
        let pieces = split_chars(inn.as_slice(), '|');
        let mut out = match mode {
            AltMode::Runtime => pieces,
            _ => trim_each(&pieces),
        };
        if opt && !group && !list_mode {
            let ghost prev = out@;
            out.push(Vec::new());
            assert(cviews(out@) =~= cviews(prev).push(seq![]));
        }
        proof {
            if group {
                assert(!is_optional(tok@));
            }
        }
        out
    } else {
        if !list_mode {
            let trimmed = match mode {
                AltMode::Compile => true,
                _ => false,
            };
            match inline_alts_exec(tok, trimmed) {
                Some(v) => return v,
                None => {},
            }
        }
        let mut out: Vec<Vec<char>> = Vec::new();
        let mut t: Vec<char> = Vec::new();
        let mut k: usize = 0;
        while k < tok.len()
            invariant
                0 <= k <= tok@.len(),
                t@ == tok@.take(k as int),
            decreases tok@.len() - k,
        {
            t.push(tok[k]);
            assert(tok@.take(k + 1) =~= tok@.take(k as int).push(tok@[k as int]));
            k = k + 1;
        }
        assert(tok@.take(tok@.len() as int) =~= tok@);
        out.push(t);
        assert(cviews(out@) =~= seq![tok@]);
        out
    }
}

// ---------------------------------------------------------------------------
// Run-time expansion (recursive, in the order of the alternatives)
// ---------------------------------------------------------------------------

/// Views of a list of alternative lists.
pub open spec fn aviews(a: Seq<Vec<Vec<char>>>) -> Seq<Seq<Seq<char>>> {
    a.map_values(|x: Vec<Vec<char>>| cviews(x@))
}

/// The sentences generated from position `idx` on, with the words `cur`
/// chosen so far: each alternative in order, empty alternatives adding no
/// word, and a finished sentence kept when it is not blank.
pub open spec fn gen(alts: Seq<Seq<Seq<char>>>, cur: Seq<Seq<char>>, idx: nat) -> Seq<Seq<char>>
    decreases alts.len() - idx, 1nat, 0nat,
{
    if idx >= alts.len() {
        let s = trim(join(cur, seq![' ']));
        if s.len() > 0 {
            seq![s]
        } else {
            seq![]
        }
    } else {
        gen_from(alts, cur, idx, alts[idx as int].len())
    }
}

/// The sentences generated through the first `n` alternatives at `idx`.
pub open spec fn gen_from(alts: Seq<Seq<Seq<char>>>, cur: Seq<Seq<char>>, idx: nat, n: nat) -> Seq<
    Seq<char>,
>
    decreases alts.len() - idx, 0nat, n,
{
    if idx >= alts.len() || n == 0 {
        seq![]
    } else {
        let alt = alts[idx as int][n - 1];
        gen_from(alts, cur, idx, (n - 1) as nat) + gen(
            alts,
            if alt.len() > 0 {
                cur.push(alt)
            } else {
                cur
            },
            idx + 1,
        )
    }
}

/// Double spaces collapsed once, trimmed, blanks dropped.
pub open spec fn tidy(vs: Seq<Seq<char>>) -> Seq<Seq<char>>
    decreases vs.len(),
{
    if vs.len() == 0 {
        seq![]
    } else {
        let t = trim(replace_sub(vs.last(), seq![' ', ' '], seq![' ']));
        tidy(vs.drop_last()) + if t.len() > 0 {
            seq![t]
        } else {
            seq![]
        }
    }
}

/// The run-time variants of a sentence template.
pub open spec fn expand_runtime(sentence: Seq<char>) -> Seq<Seq<char>> {
    tidy(gen(words(sentence).map_values(|t: Seq<char>| runtime_alts(t)), seq![], 0))
}

fn copy_chars(v: &Vec<char>) -> (r: Vec<char>)
    ensures
        r@ == v@,
{
    let mut r: Vec<char> = Vec::new();
    let mut i: usize = 0;
    while i < v.len()
        invariant
            0 <= i <= v@.len(),
            r@ == v@.take(i as int),
        decreases v@.len() - i,
    {
        r.push(v[i]);
        assert(v@.take(i + 1) =~= v@.take(i as int).push(v@[i as int]));
        i = i + 1;
    }
    assert(v@.take(v@.len() as int) =~= v@);
    r
}

fn copy_words(v: &Vec<Vec<char>>) -> (r: Vec<Vec<char>>)
    ensures
        cviews(r@) == cviews(v@),
{
    let mut r: Vec<Vec<char>> = Vec::new();
    let mut i: usize = 0;
    while i < v.len()
        invariant
            0 <= i <= v@.len(),
            cviews(r@) == cviews(v@).take(i as int),
        decreases v@.len() - i,
    {
        let ghost prev = r@;
        r.push(copy_chars(&v[i]));
        assert(cviews(r@) =~= cviews(prev).push(v@[i as int]@));
        assert(cviews(v@).take(i + 1) =~= cviews(v@).take(i as int).push(v@[i as int]@));
        i = i + 1;
    }
    assert(cviews(v@).take(v@.len() as int) =~= cviews(v@));
    r
}

fn generate_combinations(
    alts: &Vec<Vec<Vec<char>>>,
    current: Vec<Vec<char>>,
    index: usize,
    result: &mut Vec<Vec<char>>,
)
    requires
        index <= alts@.len(),
    ensures
        cviews(final(result)@) == cviews(old(result)@) + gen(aviews(alts@), cviews(current@), index as nat),
    decreases alts@.len() - index,
{
    let ghost av = aviews(alts@);
    if index >= alts.len() {
        let sp = vec![' '];
        let joined = join_chars(&current, sp.as_slice());
        assert(sp@ =~= seq![' ']);
        let t = trim_chars(joined.as_slice());
        if t.len() > 0 {
            let ghost prev = result@;
            result.push(t);
            assert(cviews(result@) =~= cviews(prev) + seq![t@]);
        } else {
            assert(cviews(result@) =~= cviews(result@) + seq![]);
        }
        return;
    }
    let ghost cur = cviews(current@);
    let ghost start = cviews(result@);
    let alen = alts.len();
    let mut j: usize = 0;
    assert(start =~= start + gen_from(av, cur, index as nat, 0));
    while j < alts[index].len()
        invariant
            index < alts@.len(),
            alen == alts@.len(),
            av == aviews(alts@),
            cur == cviews(current@),
            0 <= j <= alts@[index as int]@.len(),
            cviews(result@) == start + gen_from(av, cur, index as nat, j as nat),
        decreases alts@[index as int]@.len() - j,
    {
        let alt = copy_chars(&alts[index][j]);
        let mut next = copy_words(&current);
        assert(av[index as int][j as int] == alt@);
        if alt.len() > 0 {
            let ghost pv = cviews(next@);
            next.push(alt);
            assert(cviews(next@) =~= pv.push(av[index as int][j as int]));
        }
        let ghost before = cviews(result@);
        generate_combinations(alts, next, index + 1, result);
        assert(cviews(result@) =~= start + gen_from(av, cur, index as nat, (j + 1) as nat));
        j = j + 1;
    }
}

fn tidy_all(vs: &Vec<Vec<char>>) -> (r: Vec<Vec<char>>)
    ensures
        cviews(r@) == tidy(cviews(vs@)),
{
    let dbl = vec![' ', ' '];
    let one = vec![' '];
    assert(dbl@ =~= seq![' ', ' ']);
    assert(one@ =~= seq![' ']);
    let mut r: Vec<Vec<char>> = Vec::new();
    let mut i: usize = 0;
    while i < vs.len()
        invariant
            0 <= i <= vs@.len(),
            dbl@ == seq![' ', ' '],
            one@ == seq![' '],
            cviews(r@) == tidy(cviews(vs@).take(i as int)),
        decreases vs@.len() - i,
    {
        let replaced = replace_sub_chars(vs[i].as_slice(), dbl.as_slice(), one.as_slice());
        let t = trim_chars(replaced.as_slice());
        assert(cviews(vs@).take(i + 1).drop_last() =~= cviews(vs@).take(i as int));
        if t.len() > 0 {
            let ghost prev = r@;
            r.push(t);
            assert(cviews(r@) =~= cviews(prev) + seq![t@]);
        } else {
            assert(cviews(r@) =~= cviews(r@) + seq![]);
        }
        i = i + 1;
    }
    assert(cviews(vs@).take(vs@.len() as int) =~= cviews(vs@));
    r
}

fn alternatives_of(mode: &AltMode, tokens: &Vec<Vec<char>>) -> (r: Vec<Vec<Vec<char>>>)
    ensures
        aviews(r@) == cviews(tokens@).map_values(|t: Seq<char>| alts_for(*mode, t)),
{
    let mut r: Vec<Vec<Vec<char>>> = Vec::new();
    let mut i: usize = 0;
    while i < tokens.len()
        invariant
            0 <= i <= tokens@.len(),
            aviews(r@) == cviews(tokens@).map_values(|t: Seq<char>| alts_for(*mode, t)).take(i as int),
        decreases tokens@.len() - i,
    {
        let ghost prev = r@;
        let a = token_alts(mode, &tokens[i]);
        r.push(a);
        assert(aviews(r@) =~= aviews(prev).push(alts_for(*mode, tokens@[i as int]@)));
        assert(cviews(tokens@).map_values(|t: Seq<char>| alts_for(*mode, t)).take(i + 1)
            =~= cviews(tokens@).map_values(|t: Seq<char>| alts_for(*mode, t)).take(i as int).push(
            alts_for(*mode, tokens@[i as int]@),
        ));
        i = i + 1;
    }
    assert(cviews(tokens@).map_values(|t: Seq<char>| alts_for(*mode, t)).take(tokens@.len() as int)
        =~= cviews(tokens@).map_values(|t: Seq<char>| alts_for(*mode, t)));
    r
}

/// The variants of a sentence template as the matcher expands them: every
/// choice among `(a|b)` groups and `[a|b]` optional words, in order.
pub fn expand_runtime_chars(sentence: &str) -> (r: Vec<Vec<char>>)
    ensures
        cviews(r@) == expand_runtime(sentence@),
{
    let cs = chars_of(sentence);
    let tokens = split_ws_chars(&cs);
    let mode = AltMode::Runtime;
    let alts = alternatives_of(&mode, &tokens);
    assert(aviews(alts@) =~= words(sentence@).map_values(|t: Seq<char>| runtime_alts(t)));
    let mut raw: Vec<Vec<char>> = Vec::new();
    let start: Vec<Vec<char>> = Vec::new();
    assert(cviews(start@) =~= seq![]);
    assert(cviews(raw@) =~= seq![]);
    generate_combinations(&alts, start, 0, &mut raw);
    assert(cviews(raw@) =~= gen(aviews(alts@), seq![], 0));
    tidy_all(&raw)
}

/// The variants of a sentence template as the matcher expands them.
pub fn expand_runtime_strings(sentence: &str) -> (r: Vec<String>)
    ensures
        views(r@) == expand_runtime(sentence@),
{
    let v = expand_runtime_chars(sentence);
    strings_of(&v)
}

// ---------------------------------------------------------------------------
// Compile-time expansion (cartesian product, sorted and deduplicated)
// ---------------------------------------------------------------------------

/// The number of alternatives of each token.
pub open spec fn alt_lens(alts: Seq<Seq<Seq<char>>>) -> Seq<nat> {
    alts.map_values(|a: Seq<Seq<char>>| a.len())
}

/// The words picked by an index tuple.
pub open spec fn combo(alts: Seq<Seq<Seq<char>>>, t: Seq<int>) -> Seq<Seq<char>> {
    Seq::new(alts.len(), |k: int| alts[k][t[k]])
}

/// The sentence made of the picked words, with whitespace collapsed.
pub open spec fn candidate(alts: Seq<Seq<Seq<char>>>, t: Seq<int>) -> Seq<char> {
    squash_ws(join(combo(alts, t), seq![' ']))
}

/// Some character of the string is not `{`.
pub open spec fn has_non_brace(s: Seq<char>) -> bool {
    exists|i: int| 0 <= i < s.len() && s[i] != '{'
}

/// The strings made from the first `n` index tuples that are kept.
pub open spec fn candidates_upto(alts: Seq<Seq<Seq<char>>>, n: int, brace_check: bool) -> Set<
    Seq<char>,
> {
    Set::new(
        |s: Seq<char>|
            exists|q: int|
                0 <= q < n && s == candidate(alts, #[trigger] cart_idx(alt_lens(alts))[q]) && s.len()
                    > 0 && (!brace_check || has_non_brace(s)),
    )
}

/// The distinct variants of a sentence template, as the compiler writes
/// them: every combination of alternatives, whitespace collapsed, without
/// blank or all-`{` results.
pub open spec fn compiled_variants(sentence: Seq<char>) -> Set<Seq<char>> {
    let alts = words(sentence).map_values(|t: Seq<char>| compile_alts(t));
    candidates_upto(alts, cart_idx(alt_lens(alts)).len() as int, true)
}

/// The distinct variants of a list value: every choice among its `[a|b]`
/// tokens, whitespace collapsed, without blank results.
pub open spec fn list_variants(value: Seq<char>) -> Set<Seq<char>> {
    let alts = words(value).map_values(|t: Seq<char>| list_alts(t));
    candidates_upto(alts, cart_idx(alt_lens(alts)).len() as int, false)
}

fn has_non_brace_exec(s: &Vec<char>) -> (b: bool)
    ensures
        b == has_non_brace(s@),
{
    let mut i: usize = 0;
    while i < s.len()
        invariant
            0 <= i <= s@.len(),
            forall|k: int| 0 <= k < i ==> s@[k] == '{',
        decreases s@.len() - i,
    {
        if s[i] != '{' {
            return true;
        }
        i = i + 1;
    }
    false
}

fn alt_strings(alts: &Vec<Vec<Vec<char>>>) -> (r: Vec<Vec<String>>)
    ensures
        r@.len() == alts@.len(),
        forall|k: int| 0 <= k < r@.len() ==> views((#[trigger] r@[k])@) == aviews(alts@)[k],
{
    let mut r: Vec<Vec<String>> = Vec::new();
    let mut i: usize = 0;
    while i < alts.len()
        invariant
            0 <= i <= alts@.len(),
            r@.len() == i,
            forall|k: int| 0 <= k < i ==> views((#[trigger] r@[k])@) == aviews(alts@)[k],
        decreases alts@.len() - i,
    {
        r.push(strings_of(&alts[i]));
        i = i + 1;
    }
    r
}

fn expand_with(mode: AltMode, sentence: &str, brace_check: bool) -> (r: Vec<String>)
    ensures
        sorted_strict(views(r@)),
        ({
            let alts = words(sentence@).map_values(|t: Seq<char>| alts_for(mode, t));
            views(r@).to_set() == candidates_upto(
                alts,
                cart_idx(alt_lens(alts)).len() as int,
                brace_check,
            )
        }),
{
    let cs = chars_of(sentence);
    let tokens = split_ws_chars(&cs);
    let alts = alternatives_of(&mode, &tokens);
    let ghost av = aviews(alts@);
    assert(av =~= words(sentence@).map_values(|t: Seq<char>| alts_for(mode, t)));
    let token_alts = alt_strings(&alts);
    let ghost ln = alt_lens(av);
    assert(lens_of(token_alts@) =~= ln) by {
        assert forall|k: int| 0 <= k < ln.len() implies lens_of(token_alts@)[k] == ln[k] by {
            assert(views(token_alts@[k]@) == av[k]);
            assert(views(token_alts@[k]@).len() == token_alts@[k]@.len());
        }
    }
    let product = cartesian_product_of_lists(token_alts.as_slice());
    let mut out: Vec<Vec<char>> = Vec::new();
    let mut i: usize = 0;
    assert(candidates_upto(av, 0, brace_check) =~= Set::empty());
    assert(cviews(out@).to_set() =~= Set::empty());
    while i < product.len()
        invariant
            0 <= i <= product@.len(),
            product@.len() == cart_idx(ln).len(),
            ln == alt_lens(av),
            lens_of(token_alts@) == ln,
            token_alts@.len() == av.len(),
            forall|k: int| 0 <= k < token_alts@.len() ==> views((#[trigger] token_alts@[k])@) == av[k],
            forall|q: int|
                0 <= q < product@.len() ==> (#[trigger] product@[q])@.len() == token_alts@.len()
                    && forall|k: int|
                    0 <= k < token_alts@.len() ==> cloned::<String>(
                        token_alts@[k]@[cart_idx(ln)[q][k]],
                        #[trigger] product@[q]@[k],
                    ),
            sorted_strict(cviews(out@)),
            cviews(out@).to_set() == candidates_upto(av, i as int, brace_check),
        decreases product@.len() - i,
    {
        let ghost t = cart_idx(ln)[i as int];
        proof {
            lemma_cart_idx_valid(ln);
            assert(valid_tuple(t, ln));
            assert(views(product@[i as int]@) =~= combo(av, t)) by {
                assert forall|k: int| 0 <= k < av.len() implies views(product@[i as int]@)[k] == combo(
                    av,
                    t,
                )[k] by {
                    assert(cloned::<String>(token_alts@[k]@[t[k]], product@[i as int]@[k]));
                    assert(views(token_alts@[k]@)[t[k]] == av[k][t[k]]);
                }
            }
        }
        let joined = join_strings(&product[i], " ");
        proof {
            reveal_strlit(" ");
            assert(" "@ =~= seq![' ']);
        }
        let jc = chars_of(joined.as_str());
        let sq = squash_ws_chars(&jc);
        assert(sq@ == candidate(av, t));
        let keep = sq.len() > 0 && (!brace_check || has_non_brace_exec(&sq));
        let ghost before = cviews(out@);
        if keep {
            insert_sorted_unique(&mut out, sq);
        }
        proof {
            let next = candidates_upto(av, i + 1, brace_check);
            let prevs = candidates_upto(av, i as int, brace_check);
            if keep {
                assert(next =~= prevs.insert(candidate(av, t)));
            } else {
                assert(next =~= prevs);
            }
        }
        i = i + 1;
    }
    strings_of(&out)
}

/// The variants of a sentence template as the compiler writes them: every
/// combination of `(a|b)` groups and `[a|b]` optional words, whitespace
/// collapsed, without blank or all-`{` results, sorted and without
/// duplicates.
pub fn expand_optional_words(sentence: &str) -> (r: Vec<String>)
    ensures
        sorted_strict(views(r@)),
        views(r@).to_set() == compiled_variants(sentence@),
{
    let r = expand_with(AltMode::Compile, sentence, true);
    proof {
        let a1 = words(sentence@).map_values(|t: Seq<char>| alts_for(AltMode::Compile, t));
        let a2 = words(sentence@).map_values(|t: Seq<char>| compile_alts(t));
        assert(a1 =~= a2);
    }
    r
}

/// The variants of a list value: every choice among its `[a|b]` tokens,
/// whitespace collapsed, without blank results, sorted and without
/// duplicates.
pub fn expand_list_input_variants(value: &str) -> (r: Vec<String>)
    ensures
        sorted_strict(views(r@)),
        views(r@).to_set() == list_variants(value@),
{
    let r = expand_with(AltMode::List, value, false);
    proof {
        let a1 = words(value@).map_values(|t: Seq<char>| alts_for(AltMode::List, t));
        let a2 = words(value@).map_values(|t: Seq<char>| list_alts(t));
        assert(a1 =~= a2);
    }
    r
}

/// Two strictly sorted lists with the same elements are the same list.
pub proof fn lemma_sorted_strict_unique(a: Seq<Seq<char>>, b: Seq<Seq<char>>)
    requires
        sorted_strict(a),
        sorted_strict(b),
        a.to_set() == b.to_set(),
    ensures
        a == b,
    decreases a.len(),
{
    if a.len() == 0 {
        if b.len() > 0 {
            assert(b.to_set().contains(b[0]));
        }
        assert(a =~= b);
    } else {
        assert(a.to_set().contains(a[0]));
        assert(b.len() > 0);
        assert(b.to_set().contains(b[0]));
        if a[0] != b[0] {
            let j = choose|j: int| 0 <= j < a.len() && a[j] == b[0];
            let k = choose|k: int| 0 <= k < b.len() && b[k] == a[0];
            assert(j > 0 && k > 0);
            assert(lex_lt(a[0], a[j]));
            assert(lex_lt(b[0], b[k]));
            lemma_lex_transitive(a[0], b[0], a[0]);
            crate::text::lemma_lex_irreflexive(a[0]);
        }
        let a1 = a.drop_first();
        let b1 = b.drop_first();
        assert(sorted_strict(a1)) by {
            assert forall|i: int, j: int| 0 <= i < j < a1.len() implies lex_lt(#[trigger] a1[i], #[trigger] a1[j]) by {
                assert(a1[i] == a[i + 1] && a1[j] == a[j + 1]);
            }
        }
        assert(sorted_strict(b1)) by {
            assert forall|i: int, j: int| 0 <= i < j < b1.len() implies lex_lt(#[trigger] b1[i], #[trigger] b1[j]) by {
                assert(b1[i] == b[i + 1] && b1[j] == b[j + 1]);
            }
        }
        assert(a1.to_set() =~= b1.to_set()) by {
            assert forall|x: Seq<char>| a1.to_set().contains(x) implies b1.to_set().contains(x) by {
                let i = choose|i: int| 0 <= i < a1.len() && a1[i] == x;
                assert(a[i + 1] == x);
                assert(lex_lt(a[0], x));
                crate::text::lemma_lex_irreflexive(x);
                assert(b.to_set().contains(x));
                let k = choose|k: int| 0 <= k < b.len() && b[k] == x;
                assert(k != 0);
                assert(b1[k - 1] == x);
            }
            assert forall|x: Seq<char>| b1.to_set().contains(x) implies a1.to_set().contains(x) by {
                let i = choose|i: int| 0 <= i < b1.len() && b1[i] == x;
                assert(b[i + 1] == x);
                assert(lex_lt(b[0], x));
                crate::text::lemma_lex_irreflexive(x);
                assert(a.to_set().contains(x));
                let k = choose|k: int| 0 <= k < a.len() && a[k] == x;
                assert(k != 0);
                assert(a1[k - 1] == x);
            }
        }
        lemma_sorted_strict_unique(a1, b1);
        assert(a =~= seq![a[0]] + a1);
        assert(b =~= seq![b[0]] + b1);
    }
}

/// The elements of a set of strings in increasing order.
pub open spec fn sorted_list(s: Set<Seq<char>>) -> Seq<Seq<char>> {
    choose|q: Seq<Seq<char>>| sorted_strict(q) && q.to_set() == s
}

/// A strictly sorted list is the sorted list of its elements.
pub proof fn lemma_sorted_list(q: Seq<Seq<char>>)
    requires
        sorted_strict(q),
    ensures
        sorted_list(q.to_set()) == q,
{
    let r = sorted_list(q.to_set());
    assert(sorted_strict(r) && r.to_set() == q.to_set());
    lemma_sorted_strict_unique(r, q);
}

/// The compiled variants of a sentence template, in increasing order.
pub open spec fn sentence_variants(sentence: Seq<char>) -> Seq<Seq<char>> {
    sorted_list(compiled_variants(sentence))
}

/// The variants of a list value, in increasing order.
pub open spec fn value_variants(value: Seq<char>) -> Seq<Seq<char>> {
    sorted_list(list_variants(value))
}

/// The variants of a sentence template, as a sequence.
pub fn sentence_variants_of(sentence: &str) -> (r: Vec<String>)
    ensures
        views(r@) == sentence_variants(sentence@),
{
    let r = expand_optional_words(sentence);
    proof {
        lemma_sorted_list(views(r@));
    }
    r
}

/// The variants of a list value, as a sequence.
pub fn value_variants_of(value: &str) -> (r: Vec<String>)
    ensures
        views(r@) == value_variants(value@),
{
    let r = expand_list_input_variants(value);
    proof {
        lemma_sorted_list(views(r@));
    }
    r
}

} // verus!
