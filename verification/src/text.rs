//! Character-level text utilities: whitespace splitting, joining, trimming,
//! replacing and comparing strings, all over `Seq<char>` models.
use vstd::prelude::*;

verus! {

// ---------------------------------------------------------------------------
// Conversions between `&str` / `String` and `Vec<char>`
// ---------------------------------------------------------------------------

/// Collects the characters of a string slice.
pub fn chars_of(s: &str) -> (v: Vec<char>)
    ensures
        v@ == s@,
{
    let mut v: Vec<char> = Vec::new();
    for c in it: s.chars()
        invariant
            v@ == it.seq().take(it.index() as int),
    {
        v.push(c);
    }
    v
}

/// Builds a `String` from characters (`String: FromIterator<char>`).
#[verifier::external_body]
pub(crate) fn string_from_chars(v: &[char]) -> (s: String)
    ensures
        s@ == v@,
{
    v.iter().collect()
}

/// The views of a sequence of strings.
pub open spec fn views(v: Seq<String>) -> Seq<Seq<char>> {
    v.map_values(|s: String| s@)
}

/// Copies a string.
pub fn copy_string(s: &String) -> (r: String)
    ensures
        r@ == s@,
{
    s.clone()
}

/// A string made of the given literal slice.
pub fn str_to_string(s: &str) -> (r: String)
    ensures
        r@ == s@,
{
    s.to_owned()
}

// ---------------------------------------------------------------------------
// Unicode lowercasing (`str::to_lowercase`)
// ---------------------------------------------------------------------------

/// What `str::to_lowercase` returns for a string: the Unicode lowercase
/// mapping of each character (with the final-sigma rule).
pub uninterp spec fn lowercase(s: Seq<char>) -> Seq<char>;

/// `str::to_lowercase`. Claims only that the result is the Unicode lowercase
/// form of the argument, which depends on the argument alone.
#[verifier::external_body]
pub(crate) fn to_lowercase(s: &str) -> (r: String)
    ensures
        r@ == lowercase(s@),
{
    s.to_lowercase()
}

/// What `<str as Debug>::fmt` writes for a string: the string in double
/// quotes, with `\\`, `"` and control or non-printable characters escaped.
pub uninterp spec fn debug_quoted(s: Seq<char>) -> Seq<char>;

/// `format!("{:?}", s)` for a string. Claims only that the result is the
/// debug form of the argument, which depends on the argument alone.
#[verifier::external_body]
pub(crate) fn debug_str(s: &str) -> (r: String)
    ensures
        r@ == debug_quoted(s@),
{
    format!("{:?}", s)
}

/// What `char::is_alphanumeric` answers for a character (Unicode Alphabetic
/// or Numeric property).
pub uninterp spec fn alphanumeric(c: char) -> bool;

/// `char::is_alphanumeric`. Claims only that the answer depends on the
/// character alone.
#[verifier::external_body]
pub(crate) fn is_alphanumeric(c: char) -> (b: bool)
    ensures
        b == alphanumeric(c),
{
    c.is_alphanumeric()
}

// ---------------------------------------------------------------------------
// Whitespace
// ---------------------------------------------------------------------------

/// The Unicode `White_Space` property, as `char::is_whitespace` defines it.
pub open spec fn is_ws(c: char) -> bool {
    ||| c == ' '
    ||| ('\x09' <= c && c <= '\x0d')
    ||| c == '\u{85}'
    ||| c == '\u{a0}'
    ||| c == '\u{1680}'
    ||| ('\u{2000}' <= c && c <= '\u{200a}')
    ||| c == '\u{2028}'
    ||| c == '\u{2029}'
    ||| c == '\u{202f}'
    ||| c == '\u{205f}'
    ||| c == '\u{3000}'
}

/// Whether a character is whitespace.
pub fn is_whitespace(c: char) -> (b: bool)
    ensures
        b == is_ws(c),
{
    c == ' ' || ('\x09' <= c && c <= '\x0d') || c == '\u{85}' || c == '\u{a0}' || c == '\u{1680}'
        || ('\u{2000}' <= c && c <= '\u{200a}') || c == '\u{2028}' || c == '\u{2029}' || c
        == '\u{202f}' || c == '\u{205f}' || c == '\u{3000}'
}

/// The maximal runs of non-whitespace characters, in order
/// (`str::split_whitespace`).
pub open spec fn words(s: Seq<char>) -> Seq<Seq<char>>
    decreases s.len(),
{
    if s.len() == 0 {
        seq![]
    } else {
        let p = s.drop_last();
        let c = s.last();
        let w = words(p);
        if is_ws(c) {
            w
        } else if p.len() > 0 && !is_ws(p.last()) {
            w.update(w.len() - 1, w.last().push(c))
        } else {
            w.push(seq![c])
        }
    }
}

/// A non-empty prefix that ends in a non-whitespace character has words.
pub proof fn lemma_words_nonempty(s: Seq<char>)
    requires
        s.len() > 0,
        !is_ws(s.last()),
    ensures
        words(s).len() > 0,
    decreases s.len(),
{
    let p = s.drop_last();
    if p.len() > 0 && !is_ws(p.last()) {
        lemma_words_nonempty(p);
    }
}

/// Every word is non-empty and holds no whitespace.
pub proof fn lemma_words_shape(s: Seq<char>)
    ensures
        forall|i: int|
            0 <= i < words(s).len() ==> (#[trigger] words(s)[i]).len() > 0 && forall|k: int|
                0 <= k < words(s)[i].len() ==> !is_ws(words(s)[i][k]),
    decreases s.len(),
{
    if s.len() > 0 {
        let p = s.drop_last();
        lemma_words_shape(p);
        if !is_ws(s.last()) && p.len() > 0 && !is_ws(p.last()) {
            lemma_words_nonempty(p);
        }
    }
}

/// Text spaced as words joined by single spaces: no whitespace at either
/// end, no two whitespace characters in a row, and every whitespace
/// character a plain space.
pub open spec fn single_spaced(s: Seq<char>) -> bool {
    &&& s.len() > 0 ==> !is_ws(s[0]) && !is_ws(s[s.len() - 1])
    &&& forall|i: int, j: int|
        0 <= i && j == i + 1 && j < s.len() ==> !(is_ws(#[trigger] s[i]) && is_ws(#[trigger] s[j]))
    &&& forall|i: int| 0 <= i < s.len() && is_ws(#[trigger] s[i]) ==> s[i] == ' '
}

/// Words without whitespace, joined by single spaces, are single spaced.
pub proof fn lemma_join_single_spaced(ws: Seq<Seq<char>>)
    requires
        forall|i: int|
            0 <= i < ws.len() ==> (#[trigger] ws[i]).len() > 0 && forall|k: int|
                0 <= k < ws[i].len() ==> !is_ws(ws[i][k]),
    ensures
        single_spaced(join(ws, seq![' '])),
    decreases ws.len(),
{
    if ws.len() == 1 {
        let w = ws[0];
        assert(join(ws, seq![' ']) == w);
        assert(w.len() > 0);
        assert(!is_ws(w[0]));
        assert(!is_ws(w[w.len() - 1]));
    } else if ws.len() > 1 {
        let p = ws.drop_last();
        assert forall|i: int| 0 <= i < p.len() implies (#[trigger] p[i]).len() > 0 && forall|k: int|
            0 <= k < p[i].len() ==> !is_ws(p[i][k]) by {
            assert(p[i] == ws[i]);
        }
        lemma_join_single_spaced(p);
        let a = join(p, seq![' ']);
        let w = ws.last();
        assert(w == ws[ws.len() - 1]);
        assert(w.len() > 0);
        let j = join(ws, seq![' ']);
        assert(j == a + seq![' '] + w);
        assert(a.len() > 0) by {
            assert(p[0] == ws[0]);
            lemma_join_len_pos(p);
        }
        assert forall|k: int| 0 <= k < j.len() implies (#[trigger] j[k]) == (if k < a.len() {
            a[k]
        } else if k == a.len() {
            ' '
        } else {
            w[k - a.len() - 1]
        }) by {}
        assert(!is_ws(w[0]));
        assert(!is_ws(w[w.len() - 1]));
        assert(!is_ws(a[a.len() - 1]));
        assert forall|i: int, k: int| 0 <= i && k == i + 1 && k < j.len() implies !(is_ws(#[trigger] j[i]) && is_ws(
            #[trigger] j[k],
        )) by {
            if k < a.len() {
                assert(j[i] == a[i] && j[k] == a[k]);
            } else if k == a.len() {
            } else if i == a.len() {
            } else {
                assert(!is_ws(w[k - a.len() - 1]));
            }
        }
        assert forall|i: int| 0 <= i < j.len() && is_ws(#[trigger] j[i]) implies j[i] == ' ' by {
            if i < a.len() {
                assert(j[i] == a[i]);
            } else if i > a.len() {
                assert(!is_ws(w[i - a.len() - 1]));
            }
        }
    }
}

proof fn lemma_join_len_pos(ws: Seq<Seq<char>>)
    requires
        ws.len() > 0,
        ws[0].len() > 0,
    ensures
        join(ws, seq![' ']).len() > 0,
    decreases ws.len(),
{
    if ws.len() > 1 {
        assert(ws.drop_last()[0] == ws[0]);
        lemma_join_len_pos(ws.drop_last());
    }
}

/// Splits a character sequence at whitespace.
pub fn split_ws_chars(s: &Vec<char>) -> (r: Vec<Vec<char>>)
    ensures
        r@.map_values(|w: Vec<char>| w@) == words(s@),
{
    let mut out: Vec<Vec<char>> = Vec::new();
    let mut cur: Vec<char> = Vec::new();
    let n = s.len();
    let mut i: usize = 0;
    while i < n
        invariant
            n == s@.len(),
            0 <= i <= n,
            (cur@.len() > 0) == (i > 0 && !is_ws(s@[i - 1])),
            words(s@.take(i as int)) == if cur@.len() > 0 {
                out@.map_values(|w: Vec<char>| w@).push(cur@)
            } else {
                out@.map_values(|w: Vec<char>| w@)
            },
        decreases n - i,
    {
        let c = s[i];
        let ghost pre = s@.take(i as int);
        let ghost m = out@.map_values(|w: Vec<char>| w@);
        assert(s@.take(i + 1).drop_last() == pre);
        assert(s@.take(i + 1).last() == c);
        if is_whitespace(c) {
            if cur.len() > 0 {
                let w = cur;
                out.push(w);
                cur = Vec::new();
                assert(out@.map_values(|w: Vec<char>| w@) =~= m.push(w@));
            }
        } else {
            let had = cur.len() > 0;
            let ghost old_cur = cur@;
            cur.push(c);
            proof {
                if had {
                    assert(pre.last() == s@[i - 1]);
                    assert(m.push(old_cur).update(m.len() as int, old_cur.push(c)) =~= m.push(cur@));
                } else {
                    if i > 0 {
                        assert(pre.last() == s@[i - 1]);
                    }
                    assert(cur@ =~= seq![c]);
                }
            }
        }
        i = i + 1;
    }
    assert(s@.take(n as int) == s@);
    if cur.len() > 0 {
        let ghost m = out@.map_values(|w: Vec<char>| w@);
        let ghost c2 = cur@;
        out.push(cur);
        assert(out@.map_values(|w: Vec<char>| w@) =~= m.push(c2));
    }
    out
}

/// Splits a string at whitespace (`str::split_whitespace`).
pub fn split_whitespace(s: &str) -> (r: Vec<String>)
    ensures
        views(r@) == words(s@),
{
    let cs = chars_of(s);
    let ws = split_ws_chars(&cs);
    let mut out: Vec<String> = Vec::new();
    let mut i: usize = 0;
    while i < ws.len()
        invariant
            0 <= i <= ws@.len(),
            ws@.map_values(|w: Vec<char>| w@) == words(s@),
            views(out@) == ws@.map_values(|w: Vec<char>| w@).take(i as int),
        decreases ws@.len() - i,
    {
        let w = string_from_chars(ws[i].as_slice());
        let ghost prev = out@;
        out.push(w);
        assert(views(out@) =~= views(prev).push(w@));
        assert(ws@.map_values(|w: Vec<char>| w@).take(i + 1) =~= ws@.map_values(|w: Vec<char>| w@).take(i as int).push(ws@[i as int]@));
        i = i + 1;
    }
    assert(ws@.map_values(|w: Vec<char>| w@).take(ws@.len() as int) =~= words(s@));
    out
}

// ---------------------------------------------------------------------------
// Appending and joining
// ---------------------------------------------------------------------------

/// Appends characters to a buffer.
pub fn push_all(dst: &mut Vec<char>, src: &[char])
    ensures
        final(dst)@ == old(dst)@ + src@,
{
    let mut i: usize = 0;
    while i < src.len()
        invariant
            0 <= i <= src@.len(),
            dst@ == old(dst)@ + src@.take(i as int),
        decreases src@.len() - i,
    {
        dst.push(src[i]);
        assert(old(dst)@ + src@.take(i + 1) =~= old(dst)@ + src@.take(i as int) + seq![src@[i as int]]);
        i = i + 1;
    }
    assert(src@.take(src@.len() as int) =~= src@);
}

/// Appends the characters of a string slice to a buffer.
pub fn push_str(dst: &mut Vec<char>, src: &str)
    ensures
        final(dst)@ == old(dst)@ + src@,
{
    let cs = chars_of(src);
    push_all(dst, cs.as_slice());
}

/// The words of a list joined with a separator (`[T]::join`).
pub open spec fn join(ws: Seq<Seq<char>>, sep: Seq<char>) -> Seq<char>
    decreases ws.len(),
{
    if ws.len() == 0 {
        seq![]
    } else if ws.len() == 1 {
        ws[0]
    } else {
        join(ws.drop_last(), sep) + sep + ws.last()
    }
}

/// Joins character sequences with a separator.
pub fn join_chars(ws: &Vec<Vec<char>>, sep: &[char]) -> (r: Vec<char>)
    ensures
        r@ == join(ws@.map_values(|w: Vec<char>| w@), sep@),
{
    let ghost m = ws@.map_values(|w: Vec<char>| w@);
    let mut r: Vec<char> = Vec::new();
    let mut i: usize = 0;
    while i < ws.len()
        invariant
            0 <= i <= ws@.len(),
            m == ws@.map_values(|w: Vec<char>| w@),
            r@ == join(m.take(i as int), sep@),
        decreases ws@.len() - i,
    {
        assert(m.take(i + 1).drop_last() =~= m.take(i as int));
        if i > 0 {
            push_all(&mut r, sep);
        }
        push_all(&mut r, ws[i].as_slice());
        i = i + 1;
    }
    assert(m.take(ws@.len() as int) =~= m);
    r
}

/// Joins strings with a separator (`[String]::join`).
pub fn join_strings(ws: &Vec<String>, sep: &str) -> (r: String)
    ensures
        r@ == join(views(ws@), sep@),
{
    let sepc = chars_of(sep);
    let mut r: Vec<char> = Vec::new();
    let mut i: usize = 0;
    while i < ws.len()
        invariant
            0 <= i <= ws@.len(),
            sepc@ == sep@,
            r@ == join(views(ws@).take(i as int), sep@),
        decreases ws@.len() - i,
    {
        assert(views(ws@).take(i + 1).drop_last() =~= views(ws@).take(i as int));
        if i > 0 {
            push_all(&mut r, sepc.as_slice());
        }
        push_str(&mut r, ws[i].as_str());
        i = i + 1;
    }
    assert(views(ws@).take(ws@.len() as int) =~= views(ws@));
    string_from_chars(r.as_slice())
}

/// Collapses whitespace runs into single spaces and trims
/// (`s.split_whitespace().collect::<Vec<_>>().join(" ")`).
pub open spec fn squash_ws(s: Seq<char>) -> Seq<char> {
    join(words(s), seq![' '])
}

/// Collapses whitespace runs into single spaces and trims.
pub fn squash_ws_chars(s: &Vec<char>) -> (r: Vec<char>)
    ensures
        r@ == squash_ws(s@),
{
    let ws = split_ws_chars(s);
    let sp = vec![' '];
    let r = join_chars(&ws, sp.as_slice());
    assert(sp@ =~= seq![' ']);
    r
}

// ---------------------------------------------------------------------------
// Trimming
// ---------------------------------------------------------------------------

/// Drops leading whitespace.
pub open spec fn trim_start(s: Seq<char>) -> Seq<char>
    decreases s.len(),
{
    if s.len() > 0 && is_ws(s[0]) {
        trim_start(s.drop_first())
    } else {
        s
    }
}

/// Drops trailing whitespace.
pub open spec fn trim_end(s: Seq<char>) -> Seq<char>
    decreases s.len(),
{
    if s.len() > 0 && is_ws(s.last()) {
        trim_end(s.drop_last())
    } else {
        s
    }
}

/// Drops leading and trailing whitespace (`str::trim`).
pub open spec fn trim(s: Seq<char>) -> Seq<char> {
    trim_end(trim_start(s))
}

/// Trims a character sequence.
pub fn trim_chars(s: &[char]) -> (r: Vec<char>)
    ensures
        r@ == trim(s@),
{
    let n = s.len();
    let mut i: usize = 0;
    assert(s@.subrange(0, n as int) =~= s@);
    while i < n && is_whitespace(s[i])
        invariant
            n == s@.len(),
            0 <= i <= n,
            trim_start(s@) == trim_start(s@.subrange(i as int, n as int)),
        decreases n - i,
    {
        assert(s@.subrange(i as int, n as int).drop_first() =~= s@.subrange(i + 1, n as int));
        i = i + 1;
    }
    let mut j: usize = n;
    while j > i && is_whitespace(s[j - 1])
        invariant
            n == s@.len(),
            0 <= i <= j <= n,
            trim(s@) == trim_end(s@.subrange(i as int, j as int)),
        decreases j,
    {
        assert(s@.subrange(i as int, j as int).drop_last() =~= s@.subrange(i as int, j - 1));
        j = j - 1;
    }
    let mut r: Vec<char> = Vec::new();
    let mut k: usize = i;
    while k < j
        invariant
            i <= k <= j <= n,
            n == s@.len(),
            r@ == s@.subrange(i as int, k as int),
        decreases j - k,
    {
        r.push(s[k]);
        assert(s@.subrange(i as int, k + 1) =~= s@.subrange(i as int, k as int).push(s@[k as int]));
        k = k + 1;
    }
    r
}

/// Trims a string slice.
pub fn trim_str(s: &str) -> (r: String)
    ensures
        r@ == trim(s@),
{
    let cs = chars_of(s);
    let t = trim_chars(cs.as_slice());
    string_from_chars(t.as_slice())
}

// ---------------------------------------------------------------------------
// Splitting at a character
// ---------------------------------------------------------------------------

/// The pieces between occurrences of a separator character (`str::split`).
pub open spec fn split_at_char(s: Seq<char>, c: char) -> Seq<Seq<char>>
    decreases s.len(),
{
    if s.len() == 0 {
        seq![seq![]]
    } else {
        let r = split_at_char(s.drop_last(), c);
        if s.last() == c {
            r.push(seq![])
        } else {
            r.update(r.len() - 1, r.last().push(s.last()))
        }
    }
}

/// There is always at least one piece.
pub proof fn lemma_split_nonempty(s: Seq<char>, c: char)
    ensures
        split_at_char(s, c).len() >= 1,
    decreases s.len(),
{
    if s.len() > 0 {
        lemma_split_nonempty(s.drop_last(), c);
    }
}

/// Splits characters at a separator.
pub fn split_chars(s: &[char], c: char) -> (r: Vec<Vec<char>>)
    ensures
        r@.map_values(|w: Vec<char>| w@) == split_at_char(s@, c),
{
    let mut out: Vec<Vec<char>> = Vec::new();
    let mut cur: Vec<char> = Vec::new();
    let n = s.len();
    let mut i: usize = 0;
    while i < n
        invariant
            n == s@.len(),
            0 <= i <= n,
            split_at_char(s@.take(i as int), c) == out@.map_values(|w: Vec<char>| w@).push(cur@),
        decreases n - i,
    {
        let ch = s[i];
        let ghost m = out@.map_values(|w: Vec<char>| w@);
        assert(s@.take(i + 1).drop_last() == s@.take(i as int));
        assert(s@.take(i + 1).last() == ch);
        if ch == c {
            let w = cur;
            out.push(w);
            cur = Vec::new();
            assert(out@.map_values(|w: Vec<char>| w@).push(cur@) =~= m.push(w@).push(seq![]));
        } else {
            let ghost oc = cur@;
            cur.push(ch);
            assert(m.push(oc).update(m.len() as int, oc.push(ch)) =~= m.push(cur@));
        }
        i = i + 1;
    }
    assert(s@.take(n as int) =~= s@);
    let ghost m = out@.map_values(|w: Vec<char>| w@);
    let ghost cv = cur@;
    out.push(cur);
    assert(out@.map_values(|w: Vec<char>| w@) =~= m.push(cv));
    out
}

// ---------------------------------------------------------------------------
// Replacing
// ---------------------------------------------------------------------------

/// Every occurrence of a character replaced by a string
/// (`str::replace(char, &str)`).
pub open spec fn replace_char(s: Seq<char>, c: char, to: Seq<char>) -> Seq<char>
    decreases s.len(),
{
    if s.len() == 0 {
        seq![]
    } else {
        replace_char(s.drop_last(), c, to) + if s.last() == c {
            to
        } else {
            seq![s.last()]
        }
    }
}

/// Replaces every occurrence of a character.
pub fn replace_char_chars(s: &[char], c: char, to: &[char]) -> (r: Vec<char>)
    ensures
        r@ == replace_char(s@, c, to@),
{
    let mut r: Vec<char> = Vec::new();
    let mut i: usize = 0;
    while i < s.len()
        invariant
            0 <= i <= s@.len(),
            r@ == replace_char(s@.take(i as int), c, to@),
        decreases s@.len() - i,
    {
        assert(s@.take(i + 1).drop_last() =~= s@.take(i as int));
        if s[i] == c {
            push_all(&mut r, to);
        } else {
            r.push(s[i]);
        }
        i = i + 1;
    }
    assert(s@.take(s@.len() as int) =~= s@);
    r
}

/// Replaces every occurrence of a character in a string.
pub fn replace_char_str(s: &str, c: char, to: &str) -> (r: String)
    ensures
        r@ == replace_char(s@, c, to@),
{
    let cs = chars_of(s);
    let tc = chars_of(to);
    let r = replace_char_chars(cs.as_slice(), c, tc.as_slice());
    string_from_chars(r.as_slice())
}

/// Whether `f` occurs in `s` at position `i`.
pub open spec fn occurs_at(s: Seq<char>, i: int, f: Seq<char>) -> bool {
    0 <= i && i + f.len() <= s.len() && s.subrange(i, i + f.len()) == f
}

/// Whether `f` occurs in `s` at position `i`.
pub fn occurs_at_chars(s: &[char], i: usize, f: &[char]) -> (b: bool)
    ensures
        b == occurs_at(s@, i as int, f@),
{
    if i > s.len() || f.len() > s.len() - i {
        return false;
    }
    let n = s.len();
    let mut k: usize = 0;
    while k < f.len()
        invariant
            0 <= k <= f@.len(),
            n == s@.len(),
            i + f@.len() <= s@.len(),
            forall|m: int| 0 <= m < k ==> s@[i + m] == f@[m],
        decreases f@.len() - k,
    {
        assert(i + k < n);
        if s[i + k] != f[k] {
            assert(s@.subrange(i as int, i + f@.len())[k as int] != f@[k as int]);
            return false;
        }
        k = k + 1;
    }
    assert(s@.subrange(i as int, i + f@.len()) =~= f@);
    true
}

/// Every occurrence of a non-empty string replaced, left to right without
/// overlaps (`str::replace(&str, &str)`).
pub open spec fn replace_sub(s: Seq<char>, f: Seq<char>, to: Seq<char>) -> Seq<char>
    recommends
        f.len() > 0,
    decreases s.len(),
{
    if s.len() == 0 || f.len() == 0 {
        s
    } else if occurs_at(s, 0, f) {
        to + replace_sub(s.skip(f.len() as int), f, to)
    } else {
        seq![s[0]] + replace_sub(s.skip(1), f, to)
    }
}

/// Replaces every occurrence of a non-empty pattern.
pub fn replace_sub_chars(s: &[char], f: &[char], to: &[char]) -> (r: Vec<char>)
    requires
        f@.len() > 0,
    ensures
        r@ == replace_sub(s@, f@, to@),
{
    let mut r: Vec<char> = Vec::new();
    let mut i: usize = 0;
    assert(s@.skip(0) =~= s@);
    while i < s.len()
        invariant
            0 <= i <= s@.len(),
            f@.len() > 0,
            r@ + replace_sub(s@.skip(i as int), f@, to@) == replace_sub(s@, f@, to@),
        decreases s@.len() - i,
    {
        let ghost rest = s@.skip(i as int);
        if occurs_at_chars(s, i, f) {
            assert(occurs_at(rest, 0, f@)) by {
                assert(rest.subrange(0, f@.len() as int) =~= s@.subrange(i as int, i + f@.len()));
            }
            assert(rest.skip(f@.len() as int) =~= s@.skip(i + f@.len()));
            push_all(&mut r, to);
            i = i + f.len();
        } else {
            assert(!occurs_at(rest, 0, f@)) by {
                if occurs_at(rest, 0, f@) {
                    assert(rest.subrange(0, f@.len() as int) =~= s@.subrange(i as int, i + f@.len()));
                }
            }
            assert(rest.skip(1) =~= s@.skip(i + 1));
            assert(rest[0] == s@[i as int]);
            r.push(s[i]);
            i = i + 1;
        }
    }
    assert(s@.skip(s@.len() as int) =~= seq![]);
    r
}

/// Whether `f` occurs anywhere in `s` (`str::contains(&str)`).
pub open spec fn contains_sub(s: Seq<char>, f: Seq<char>) -> bool {
    exists|i: int| occurs_at(s, i, f)
}

/// Whether a pattern occurs in a character sequence.
pub fn contains_chars(s: &[char], f: &[char]) -> (b: bool)
    ensures
        b == contains_sub(s@, f@),
{
    let mut i: usize = 0;
    loop
        invariant
            0 <= i <= s@.len(),
            forall|k: int| 0 <= k < i ==> !occurs_at(s@, k, f@),
        decreases s@.len() - i,
    {
        if occurs_at_chars(s, i, f) {
            return true;
        }
        if i >= s.len() {
            assert forall|k: int| !occurs_at(s@, k, f@) by {
                if 0 <= k < i {
                }
            }
            return false;
        }
        i = i + 1;
    }
}

/// The first position of a character, if any (`str::find(char)` in
/// character positions).
pub open spec fn first_index(s: Seq<char>, c: char) -> Option<int> {
    if exists|i: int| 0 <= i < s.len() && s[i] == c {
        Some(choose|i: int| 0 <= i < s.len() && s[i] == c && forall|k: int| 0 <= k < i ==> s[k] != c)
    } else {
        None
    }
}

/// Finds the first position of a character.
pub fn find_char(s: &[char], c: char) -> (r: Option<usize>)
    ensures
        match r {
            Some(i) => i < s@.len() && s@[i as int] == c && forall|k: int| 0 <= k < i ==> s@[k] != c,
            None => forall|k: int| 0 <= k < s@.len() ==> s@[k] != c,
        },
        r matches Some(i) ==> first_index(s@, c) == Some(i as int),
        r is None ==> first_index(s@, c) is None,
{
    let mut i: usize = 0;
    while i < s.len()
        invariant
            0 <= i <= s@.len(),
            forall|k: int| 0 <= k < i ==> s@[k] != c,
        decreases s@.len() - i,
    {
        if s[i] == c {
            proof {
                let j = choose|j: int| 0 <= j < s@.len() && s@[j] == c && forall|k: int| 0 <= k < j ==> s@[k] != c;
                assert(0 <= i < s@.len() && s@[i as int] == c && forall|k: int| 0 <= k < i ==> s@[k] != c);
                if j < i {
                } else if j > i {
                }
            }
            return Some(i);
        }
        i = i + 1;
    }
    None
}

// ---------------------------------------------------------------------------
// Ordering of strings
// ---------------------------------------------------------------------------

/// Lexicographic order by code point (the order of `str`).
pub open spec fn lex_lt(a: Seq<char>, b: Seq<char>) -> bool
    decreases a.len(),
{
    if a.len() == 0 {
        b.len() > 0
    } else if b.len() == 0 {
        false
    } else if a[0] != b[0] {
        a[0] < b[0]
    } else {
        lex_lt(a.drop_first(), b.drop_first())
    }
}

/// The order is irreflexive.
pub proof fn lemma_lex_irreflexive(a: Seq<char>)
    ensures
        !lex_lt(a, a),
    decreases a.len(),
{
    if a.len() > 0 {
        lemma_lex_irreflexive(a.drop_first());
    }
}

/// The order is transitive.
pub proof fn lemma_lex_transitive(a: Seq<char>, b: Seq<char>, c: Seq<char>)
    requires
        lex_lt(a, b),
        lex_lt(b, c),
    ensures
        lex_lt(a, c),
    decreases a.len(),
{
    if a.len() > 0 && b.len() > 0 && c.len() > 0 {
        if a[0] == b[0] && b[0] == c[0] {
            lemma_lex_transitive(a.drop_first(), b.drop_first(), c.drop_first());
        }
    }
}

/// Two distinct strings are ordered one way or the other.
pub proof fn lemma_lex_total(a: Seq<char>, b: Seq<char>)
    requires
        a != b,
    ensures
        lex_lt(a, b) || lex_lt(b, a),
    decreases a.len(),
{
    if a.len() > 0 && b.len() > 0 && a[0] == b[0] {
        if a.drop_first() == b.drop_first() {
            assert(a =~= seq![a[0]] + a.drop_first());
            assert(b =~= seq![b[0]] + b.drop_first());
        }
        lemma_lex_total(a.drop_first(), b.drop_first());
    } else if a.len() == 0 && b.len() == 0 {
        assert(a =~= b);
    }
}

/// Compares two character sequences: whether `a` sorts before `b`.
pub fn lex_less(a: &[char], b: &[char]) -> (r: bool)
    ensures
        r == lex_lt(a@, b@),
{
    let mut i: usize = 0;
    assert(a@.skip(0) =~= a@);
    assert(b@.skip(0) =~= b@);
    while i < a.len() && i < b.len()
        invariant
            0 <= i <= a@.len(),
            i <= b@.len(),
            lex_lt(a@, b@) == lex_lt(a@.skip(i as int), b@.skip(i as int)),
        decreases a@.len() - i,
    {
        if a[i] != b[i] {
            return a[i] < b[i];
        }
        assert(a@.skip(i as int).drop_first() =~= a@.skip(i + 1));
        assert(b@.skip(i as int).drop_first() =~= b@.skip(i + 1));
        i = i + 1;
    }
    i == a.len() && i < b.len()
}

// ---------------------------------------------------------------------------
// Decimal numbers
// ---------------------------------------------------------------------------

/// The decimal digit character for a value below ten.
pub open spec fn digit_char(d: int) -> char {
    if d == 0 { '0' }
    else if d == 1 { '1' }
    else if d == 2 { '2' }
    else if d == 3 { '3' }
    else if d == 4 { '4' }
    else if d == 5 { '5' }
    else if d == 6 { '6' }
    else if d == 7 { '7' }
    else if d == 8 { '8' }
    else { '9' }
}

/// The decimal form of a natural number (`Display` for unsigned integers).
pub open spec fn decimal(n: nat) -> Seq<char>
    decreases n,
{
    if n < 10 {
        seq![digit_char(n as int)]
    } else {
        decimal(n / 10) + seq![digit_char((n % 10) as int)]
    }
}

fn digit(d: u64) -> (c: char)
    requires
        d < 10,
    ensures
        c == digit_char(d as int),
{
    if d == 0 { '0' }
    else if d == 1 { '1' }
    else if d == 2 { '2' }
    else if d == 3 { '3' }
    else if d == 4 { '4' }
    else if d == 5 { '5' }
    else if d == 6 { '6' }
    else if d == 7 { '7' }
    else if d == 8 { '8' }
    else { '9' }
}

/// Writes a natural number in decimal.
pub fn u64_decimal(n: u64) -> (r: Vec<char>)
    ensures
        r@ == decimal(n as nat),
    decreases n,
{
    if n < 10 {
        let mut r = Vec::new();
        r.push(digit(n));
        assert(r@ =~= seq![digit_char(n as int)]);
        r
    } else {
        let mut r = u64_decimal(n / 10);
        r.push(digit(n % 10));
        r
    }
}

/// Writes a `usize` in decimal.
pub fn usize_to_string(n: usize) -> (r: String)
    ensures
        r@ == decimal(n as nat),
{
    let v = u64_decimal(n as u64);
    string_from_chars(v.as_slice())
}

/// `<[char]>::len`. A slice never spans more than `isize::MAX` bytes, so a
/// slice of `char`s holds at most `isize::MAX` elements.
#[verifier::external_body]
pub(crate) fn chars_len(v: &[char]) -> (n: usize)
    ensures
        n == v@.len(),
        n <= isize::MAX,
{
    v.len()
}

/// The number of bytes in the UTF-8 encoding of a string (`str::len`).
pub open spec fn byte_len(s: Seq<char>) -> nat {
    vstd::utf8::encode_utf8(s).len()
}

/// A string has at least as many bytes as characters.
pub proof fn lemma_byte_len_ge(s: Seq<char>)
    ensures
        byte_len(s) >= s.len(),
    decreases s.len(),
{
    if s.len() > 0 {
        lemma_byte_len_ge(s.drop_first());
        assert(vstd::utf8::encode_scalar(s[0] as u32).len() >= 1);
    }
}

/// `<[String]>::len`, with the bound that a slice never spans more than
/// `isize::MAX` bytes.
#[verifier::external_body]
pub(crate) fn strings_len(v: &[String]) -> (n: usize)
    ensures
        n == v@.len(),
        n <= isize::MAX,
{
    v.len()
}

/// A character folded to ASCII lowercase, as a code point.
pub open spec fn ascii_fold(c: char) -> u32 {
    if 'A' <= c && c <= 'Z' {
        (c as u32 + 32) as u32
    } else {
        c as u32
    }
}

/// Equality up to ASCII case (`str::eq_ignore_ascii_case`).
pub open spec fn eq_ascii_ci(a: Seq<char>, b: Seq<char>) -> bool {
    a.len() == b.len() && forall|i: int| 0 <= i < a.len() ==> ascii_fold(a[i]) == ascii_fold(b[i])
}

fn ascii_fold_exec(c: char) -> (r: u32)
    ensures
        r == ascii_fold(c),
{
    if 'A' <= c && c <= 'Z' {
        (c as u32) + 32
    } else {
        c as u32
    }
}

/// Compares two character sequences ignoring ASCII case.
pub fn eq_ascii_ci_chars(a: &[char], b: &[char]) -> (r: bool)
    ensures
        r == eq_ascii_ci(a@, b@),
{
    if a.len() != b.len() {
        return false;
    }
    let mut i: usize = 0;
    while i < a.len()
        invariant
            0 <= i <= a@.len(),
            a@.len() == b@.len(),
            forall|k: int| 0 <= k < i ==> ascii_fold(a@[k]) == ascii_fold(b@[k]),
        decreases a@.len() - i,
    {
        if ascii_fold_exec(a[i]) != ascii_fold_exec(b[i]) {
            return false;
        }
        i = i + 1;
    }
    true
}

/// Whether two character sequences are equal.
pub fn chars_eq(a: &[char], b: &[char]) -> (r: bool)
    ensures
        r == (a@ == b@),
{
    if a.len() != b.len() {
        return false;
    }
    let mut i: usize = 0;
    while i < a.len()
        invariant
            0 <= i <= a@.len(),
            a@.len() == b@.len(),
            forall|k: int| 0 <= k < i ==> a@[k] == b@[k],
        decreases a@.len() - i,
    {
        if a[i] != b[i] {
            return false;
        }
        i = i + 1;
    }
    assert(a@ =~= b@);
    true
}

/// Whether two strings are equal.
pub fn str_eq(a: &str, b: &str) -> (r: bool)
    ensures
        r == (a@ == b@),
{
    let ac = chars_of(a);
    let bc = chars_of(b);
    chars_eq(ac.as_slice(), bc.as_slice())
}

/// The number of UTF-8 bytes of one character.
pub open spec fn char_width(c: char) -> nat {
    vstd::utf8::encode_scalar(c as u32).len()
}

fn char_width_exec(c: char) -> (w: u128)
    ensures
        w == char_width(c),
        1 <= w <= 4,
{
    let x = c as u32;
    proof {
        vstd::utf8::char_is_scalar(c);
    }
    if x <= 0x7f {
        1
    } else if x <= 0x7ff {
        2
    } else if x <= 0xffff {
        3
    } else {
        4
    }
}

/// The UTF-8 length of a character sequence (`str::len` of the string).
pub fn byte_len_chars(s: &[char]) -> (n: u128)
    ensures
        n == byte_len(s@),
{
    let len = chars_len(s);
    let mut i: usize = len;
    let mut acc: u128 = 0;
    assert(s@.skip(len as int) =~= seq![]);
    while i > 0
        invariant
            0 <= i <= len,
            len == s@.len(),
            len <= isize::MAX,
            acc == byte_len(s@.skip(i as int)),
            acc <= 4 * (len - i),
        decreases i,
    {
        let w = char_width_exec(s[i - 1]);
        assert(s@.skip(i - 1).drop_first() =~= s@.skip(i as int));
        assert(s@.skip(i - 1)[0] == s@[i - 1]);
        acc = acc + w;
        i = i - 1;
    }
    assert(s@.skip(0) =~= s@);
    acc
}

/// The characters of a slice between two positions.
pub fn sub_chars(s: &[char], lo: usize, hi: usize) -> (r: Vec<char>)
    requires
        lo <= hi <= s@.len(),
    ensures
        r@ == s@.subrange(lo as int, hi as int),
{
    let mut r: Vec<char> = Vec::new();
    let mut k: usize = lo;
    while k < hi
        invariant
            lo <= k <= hi,
            hi <= s@.len(),
            r@ == s@.subrange(lo as int, k as int),
        decreases hi - k,
    {
        r.push(s[k]);
        assert(s@.subrange(lo as int, k + 1) =~= s@.subrange(lo as int, k as int).push(s@[k as int]));
        k = k + 1;
    }
    r
}

} // verus!
