//! Sentence templates as regular expressions for the generated shell
//! matchers: literal text with `(a|b)` groups and `[a|b]` optional parts,
//! and `{parameter}` captures.
use vstd::prelude::*;
use crate::compile::spec_list_pos;
use crate::config::NamedListSpec;
use crate::regex_ops::{escaped, regex_escape};
use crate::text::{copy_string, chars_of, push_all, push_str, string_from_chars, sub_chars, str_to_string};
use crate::pattern::{find_pos, pos_of};
use crate::compile::{entity_resolver, find_list_spec, make_entity_resolver};
use crate::config::{extract_param_names, param_names, NamedScript, VoiceConfig};
use crate::compile::{build_substitutions, pair_views, voice_pairs};
use crate::expand::{sentence_variants, sentence_variants_of};
use crate::text::{decimal, replace_char, replace_char_str, usize_to_string, views};

verus! {

// ---------------------------------------------------------------------------
// Groups and alternatives
// ---------------------------------------------------------------------------

/// Where the group opened before position `i` closes: the position of the
/// closing bracket that brings the nesting depth to zero, or the end.
pub open spec fn group_end(s: Seq<char>, i: int, open: char, close: char, depth: int) -> int
    decreases s.len() - i,
{
    if i < 0 || i >= s.len() {
        s.len() as int
    } else if s[i] == open {
        group_end(s, i + 1, open, close, depth + 1)
    } else if s[i] == close {
        if depth - 1 == 0 {
            i
        } else {
            group_end(s, i + 1, open, close, depth - 1)
        }
    } else {
        group_end(s, i + 1, open, close, depth)
    }
}

proof fn lemma_group_end_range(s: Seq<char>, i: int, open: char, close: char, depth: int)
    requires
        0 <= i <= s.len(),
    ensures
        i <= group_end(s, i, open, close, depth) <= s.len(),
    decreases s.len() - i,
{
    if i < s.len() {
        if s[i] == open {
            lemma_group_end_range(s, i + 1, open, close, depth + 1);
        } else if s[i] == close {
            if depth - 1 != 0 {
                lemma_group_end_range(s, i + 1, open, close, depth - 1);
            }
        } else {
            lemma_group_end_range(s, i + 1, open, close, depth);
        }
    }
}

/// The alternatives read so far from the first `n` characters: the
/// finished ones, the current one, and the bracket depth.
pub open spec fn split_state(s: Seq<char>, n: int) -> (Seq<Seq<char>>, Seq<char>, int)
    decreases n,
{
    if n <= 0 {
        (seq![], seq![], 0)
    } else {
        let (alts, cur, depth) = split_state(s, n - 1);
        let c = s[n - 1];
        if c == '(' || c == '[' {
            (alts, cur.push(c), depth + 1)
        } else if c == ')' || c == ']' {
            (alts, cur.push(c), depth - 1)
        } else if c == '|' && depth == 0 {
            (alts.push(cur), seq![], depth)
        } else {
            (alts, cur.push(c), depth)
        }
    }
}

/// The `|`-separated alternatives of a group's inside, `|` inside nested
/// brackets not counting; a trailing empty alternative is dropped.
pub open spec fn split_alts(s: Seq<char>) -> Seq<Seq<char>> {
    let (alts, cur, _) = split_state(s, s.len() as int);
    if cur.len() > 0 {
        alts.push(cur)
    } else {
        alts
    }
}

/// The total length of some strings.
pub open spec fn total_len(v: Seq<Seq<char>>) -> int
    decreases v.len(),
{
    if v.len() == 0 {
        0
    } else {
        total_len(v.drop_last()) + v.last().len()
    }
}

proof fn lemma_split_state_len(s: Seq<char>, n: int)
    requires
        0 <= n <= s.len(),
    ensures
        total_len(split_state(s, n).0) + split_state(s, n).1.len() <= n,
        forall|k: int| 0 <= k < split_state(s, n).0.len() ==> #[trigger] split_state(s, n).0[k].len()
            <= total_len(split_state(s, n).0),
    decreases n,
{
    if n > 0 {
        lemma_split_state_len(s, n - 1);
        let (alts, cur, depth) = split_state(s, n - 1);
        let c = s[n - 1];
        if c == '|' && depth == 0 && !(c == '(' || c == '[') && !(c == ')' || c == ']') {
            let na = alts.push(cur);
            assert(na.drop_last() =~= alts);
            assert forall|k: int| 0 <= k < na.len() implies #[trigger] na[k].len() <= total_len(na) by {
                if k < alts.len() {
                    assert(na[k] == alts[k]);
                }
            }
        }
    }
}

/// Every alternative is shorter than the text it came from, when that is
/// not empty.
proof fn lemma_split_alts_short(s: Seq<char>)
    ensures
        forall|k: int| 0 <= k < split_alts(s).len() ==> #[trigger] split_alts(s)[k].len() <= s.len(),
{
    lemma_split_state_len(s, s.len() as int);
    let (alts, cur, _) = split_state(s, s.len() as int);
    if cur.len() > 0 {
        let na = alts.push(cur);
        assert(na.drop_last() =~= alts);
        assert forall|k: int| 0 <= k < na.len() implies #[trigger] na[k].len() <= s.len() by {
            if k < alts.len() {
                assert(na[k] == alts[k]);
            }
        }
    }
}

// ---------------------------------------------------------------------------
// Template text to regular expression
// ---------------------------------------------------------------------------

/// The first position from `i` on that opens a group or an optional part,
/// or the end.
pub open spec fn next_open(s: Seq<char>, i: int) -> int
    decreases s.len() - i,
{
    if i < 0 || i >= s.len() {
        s.len() as int
    } else if s[i] == '(' || s[i] == '[' {
        i
    } else {
        next_open(s, i + 1)
    }
}

proof fn lemma_next_open_range(s: Seq<char>, i: int)
    requires
        0 <= i <= s.len(),
    ensures
        i <= next_open(s, i) <= s.len(),
    decreases s.len() - i,
{
    if i < s.len() && !(s[i] == '(' || s[i] == '[') {
        lemma_next_open_range(s, i + 1);
    }
}

/// The regular expression of template text from position `i` on: a
/// `(...)` group becomes a non-capturing group of its alternatives, a
/// `[...]` part the same made optional, other text is escaped.
pub open spec fn p2r_at(s: Seq<char>, i: int) -> Seq<char>
    decreases s.len(), 1int, s.len() - i,
{
    if i < 0 || i >= s.len() {
        seq![]
    } else if s[i] == '(' || s[i] == '[' {
        let open = s[i];
        let close = if open == '(' {
            ')'
        } else {
            ']'
        };
        let e = group_end(s, i + 1, open, close, 1);
        if i + 1 <= e <= s.len() {
            let alts = split_alts(s.subrange(i + 1, e));
            let next = if e < s.len() {
                e + 1
            } else {
                s.len() as int
            };
            "(?:"@ + alts_regex(alts, alts.len() as int, s.len() as int) + (if open == '(' {
                ")"@
            } else {
                ")?"@
            }) + p2r_at(s, next)
        } else {
            seq![]
        }
    } else {
        let j = next_open(s, i + 1);
        if i + 1 <= j <= s.len() {
            escaped(s.subrange(i, j)) + p2r_at(s, j)
        } else {
            seq![]
        }
    }
}

/// The regular expressions of the first `n` alternatives, joined by `|`.
pub open spec fn alts_regex(alts: Seq<Seq<char>>, n: int, bound: int) -> Seq<char>
    decreases bound, 0int, n,
{
    if n <= 0 || n > alts.len() {
        seq![]
    } else {
        let prev = alts_regex(alts, n - 1, bound);
        let this = if alts[n - 1].len() < bound {
            p2r_at(alts[n - 1], 0)
        } else {
            seq![]
        };
        if n == 1 {
            this
        } else {
            prev + "|"@ + this
        }
    }
}

/// The regular expression of template text.
pub open spec fn pattern_regex(s: Seq<char>) -> Seq<char> {
    p2r_at(s, 0)
}

/// Writes template text as a regular expression.
fn pattern_to_regex(s: &Vec<char>) -> (r: Vec<char>)
    ensures
        r@ == pattern_regex(s@),
    decreases s@.len(),
{
    let n = crate::text::chars_len(s.as_slice());
    let mut out: Vec<char> = Vec::new();
    let mut i: usize = 0;
    while i < n
        invariant
            0 <= i <= n,
            n == s@.len(),
            n <= isize::MAX,
            out@ + p2r_at(s@, i as int) == p2r_at(s@, 0),
        decreases n - i,
    {
        let c = s[i];
        if c == '(' || c == '[' {
            let close = if c == '(' {
                ')'
            } else {
                ']'
            };
            let mut depth: i64 = 1;
            let mut j: usize = i + 1;
            proof {
                lemma_group_end_range(s@, i + 1, c, close, 1);
            }
            while j < n
                invariant
                    i + 1 <= j <= n,
                    n == s@.len(),
                    n <= isize::MAX,
                    1 <= depth <= j - i,
                    group_end(s@, i + 1, c, close, 1) == group_end(s@, j as int, c, close, depth as int),
                ensures
                    i + 1 <= j <= n,
                    group_end(s@, i + 1, c, close, 1) == j as int,
                decreases n - j,
            {
                if s[j] == c {
                    depth = depth + 1;
                } else if s[j] == close {
                    if depth - 1 == 0 {
                        break;
                    }
                    depth = depth - 1;
                }
                j = j + 1;
            }
            let inner = sub_chars(s.as_slice(), i + 1, j);
            let alts = split_alternatives(&inner);
            proof {
                lemma_split_alts_short(inner@);
            }
            let ghost av = alts@.map_values(|a: Vec<char>| a@);
            let ghost start = out@;
            push_str(&mut out, "(?:");
            let mut k: usize = 0;
            while k < alts.len()
                invariant
                    0 <= k <= alts@.len(),
                    av == alts@.map_values(|a: Vec<char>| a@),
                    av == split_alts(inner@),
                    inner@.len() < s@.len(),
                    forall|q: int| 0 <= q < av.len() ==> #[trigger] av[q].len() <= inner@.len(),
                    out@ == start + "(?:"@ + alts_regex(av, k as int, s@.len() as int),
                decreases alts@.len() - k,
            {
                assert(av[k as int] == alts@[k as int]@);
                let piece = pattern_to_regex(&alts[k]);
                if k > 0 {
                    push_str(&mut out, "|");
                }
                push_all(&mut out, piece.as_slice());
                proof {
                    if k == 0 {
                        assert(alts_regex(av, 1, s@.len() as int) == p2r_at(av[0], 0));
                    }
                }
                k = k + 1;
            }
            if c == '(' {
                push_str(&mut out, ")");
            } else {
                push_str(&mut out, ")?");
            }
            let next = if j < n {
                j + 1
            } else {
                n
            };
            assert(out@ + p2r_at(s@, next as int) =~= start + p2r_at(s@, i as int));
            i = next;
        } else {
            let mut j: usize = i + 1;
            proof {
                lemma_next_open_range(s@, i + 1);
            }
            while j < n && s[j] != '(' && s[j] != '['
                invariant
                    i + 1 <= j <= n,
                    n == s@.len(),
                    next_open(s@, i + 1) == next_open(s@, j as int),
                decreases n - j,
            {
                j = j + 1;
            }
            let lit = sub_chars(s.as_slice(), i, j);
            let ls = string_from_chars(lit.as_slice());
            let esc = regex_escape(ls.as_str());
            let ghost start = out@;
            push_str(&mut out, esc.as_str());
            assert(out@ + p2r_at(s@, j as int) =~= start + p2r_at(s@, i as int));
            i = j;
        }
    }
    assert(out@ + p2r_at(s@, n as int) =~= out@);
    out
}

/// Splits a group's inside into its alternatives.
fn split_alternatives(s: &Vec<char>) -> (r: Vec<Vec<char>>)
    ensures
        r@.map_values(|a: Vec<char>| a@) == split_alts(s@),
{
    let mut alts: Vec<Vec<char>> = Vec::new();
    let mut cur: Vec<char> = Vec::new();
    let mut depth: i64 = 0;
    let n = crate::text::chars_len(s.as_slice());
    let mut i: usize = 0;
    while i < n
        invariant
            0 <= i <= s@.len(),
            n == s@.len(),
            n <= isize::MAX,
            -(i as int) <= depth <= i,
            (alts@.map_values(|a: Vec<char>| a@), cur@, depth as int) == split_state(s@, i as int),
        decreases n - i,
    {
        let c = s[i];
        let ghost av = alts@.map_values(|a: Vec<char>| a@);
        if c == '(' || c == '[' {
            depth = depth + 1;
            cur.push(c);
        } else if c == ')' || c == ']' {
            depth = depth - 1;
            cur.push(c);
        } else if c == '|' && depth == 0 {
            let done = cur;
            cur = Vec::new();
            let ghost dv = done@;
            alts.push(done);
            assert(alts@.map_values(|a: Vec<char>| a@) =~= av.push(dv));
        } else {
            cur.push(c);
        }
        i = i + 1;
    }
    if cur.len() > 0 {
        let ghost av = alts@.map_values(|a: Vec<char>| a@);
        let ghost cv = cur@;
        alts.push(cur);
        assert(alts@.map_values(|a: Vec<char>| a@) =~= av.push(cv));
    }
    alts
}

// ---------------------------------------------------------------------------
// Tokens of a sentence
// ---------------------------------------------------------------------------

/// The end of the line that starts at `k`: the first newline at or after
/// it, or the end.
pub open spec fn line_end(r: Seq<char>, k: int) -> int
    decreases r.len() - k,
{
    if k < 0 || k >= r.len() {
        r.len() as int
    } else if r[k] == '\n' {
        k
    } else {
        line_end(r, k + 1)
    }
}

proof fn lemma_line_end_range(r: Seq<char>, k: int)
    requires
        0 <= k <= r.len(),
    ensures
        k <= line_end(r, k) <= r.len(),
    decreases r.len() - k,
{
    if k < r.len() && r[k] != '\n' {
        lemma_line_end_range(r, k + 1);
    }
}

/// One step of reading a sentence: the literal text before the first `{`,
/// the `{...}` parameter that follows when a `}` closes it, and the rest
/// of the line after them (the sentence is read as the pattern
/// `([^{]*)(\{[^}]*\})?(.*)` matches it).
pub open spec fn token_step(r: Seq<char>) -> (Seq<char>, Option<Seq<char>>, Seq<char>) {
    let p = pos_of(r, '{');
    let a = if p < 0 {
        r.len() as int
    } else {
        p
    };
    let b = if a < r.len() {
        pos_of(r.skip(a), '}')
    } else {
        -1
    };
    let param = if a < r.len() && b >= 0 {
        Some(r.subrange(a, a + b + 1))
    } else {
        None
    };
    let rs = if a < r.len() && b >= 0 {
        a + b + 1
    } else {
        a
    };
    (r.take(a), param, r.subrange(rs, line_end(r, rs)))
}

/// Reading the sentence comes to an end: every step leaves less to read
/// (a `{` without a `}` after it on the last line makes the compiler
/// loop).
pub open spec fn tokens_finish(r: Seq<char>) -> bool
    decreases r.len(),
{
    if r.len() == 0 {
        true
    } else {
        let rest = token_step(r).2;
        rest.len() < r.len() && tokens_finish(rest)
    }
}

/// Whether a parameter's list accepts any text.
pub open spec fn list_wildcard(lists: Option<Seq<NamedListSpec>>, name: Seq<char>) -> bool {
    match lists {
        Some(ls) => match spec_list_pos(ls, name) {
            Some(j) => ls[j].list.wildcard == Some(true),
            None => false,
        },
        None => false,
    }
}

/// The capture group of a parameter of a shell matcher.
pub open spec fn param_group(lists: Option<Seq<NamedListSpec>>, name: Seq<char>) -> Seq<char> {
    if list_wildcard(lists, name) {
        "(.*)"@
    } else {
        "\\b([^ ]+)\\b"@
    }
}

/// The regular expression of the rest of a sentence.
pub open spec fn regex_parts(lists: Option<Seq<NamedListSpec>>, r: Seq<char>) -> Seq<char>
    decreases r.len(),
{
    if r.len() == 0 {
        seq![]
    } else {
        let (lit, param, rest) = token_step(r);
        if rest.len() < r.len() {
            (if lit.len() > 0 {
                pattern_regex(lit)
            } else {
                seq![]
            }) + (match param {
                Some(p) => param_group(lists, p.subrange(1, p.len() - 1)),
                None => seq![],
            }) + regex_parts(lists, rest)
        } else {
            seq![]
        }
    }
}

/// The anchored regular expression of a sentence for a shell matcher.
pub open spec fn template_regex(lists: Option<Seq<NamedListSpec>>, sentence: Seq<char>) -> Seq<char> {
    "^"@ + regex_parts(lists, sentence) + "$"@
}

fn is_wildcard_list(lists: Option<&Vec<NamedListSpec>>, name: &str) -> (b: bool)
    ensures
        b == list_wildcard(
            match lists {
                Some(l) => Some(l@),
                None => None,
            },
            name@,
        ),
{
    match lists {
        Some(ls) => match find_list_spec(ls, name) {
            Some(j) => match ls[j].list.wildcard {
                Some(w) => w,
                None => false,
            },
            None => false,
        },
        None => false,
    }
}

/// The rest of the line after one step of reading a sentence.
fn token_rest(rem: &Vec<char>) -> (r: Vec<char>)
    ensures
        r@ == token_step(rem@).2,
{
    let n = rem.len();
    let a = match find_pos(rem.as_slice(), '{') {
        Some(a) => a,
        None => n,
    };
    let mut rs = a;
    if a < n {
        let tail = sub_chars(rem.as_slice(), a, n);
        assert(tail@ =~= rem@.skip(a as int));
        match find_pos(tail.as_slice(), '}') {
            Some(b) => {
                rs = a + b + 1;
            },
            None => {},
        }
    }
    proof {
        lemma_line_end_range(rem@, rs as int);
    }
    let mut e = rs;
    while e < n && rem[e] != '\n'
        invariant
            rs <= e <= n,
            n == rem@.len(),
            line_end(rem@, rs as int) == line_end(rem@, e as int),
        decreases n - e,
    {
        e = e + 1;
    }
    sub_chars(rem.as_slice(), rs, e)
}

/// Whether reading a sentence comes to an end (see `tokens_finish`).
pub fn sentence_finishes(sentence: &str) -> (b: bool)
    ensures
        b == tokens_finish(sentence@),
{
    let mut rem = chars_of(sentence);
    while rem.len() > 0
        invariant
            tokens_finish(rem@) == tokens_finish(sentence@),
        decreases rem@.len(),
    {
        let rest = token_rest(&rem);
        if rest.len() >= rem.len() {
            return false;
        }
        rem = rest;
    }
    true
}

/// Whether every variant of every sentence of a voice configuration can
/// be compiled (see `voice_compiles`).
pub fn voice_compiles_check(voice: &VoiceConfig) -> (b: bool)
    ensures
        b == voice_compiles(*voice),
{
    let mut j: usize = 0;
    while j < voice.sentences.len()
        invariant
            0 <= j <= voice.sentences@.len(),
            forall|q: int, k: int|
                0 <= q < j && 0 <= k < sentence_variants(voice.sentences@[q]@).len() ==> tokens_finish(
                    #[trigger] sentence_variants(voice.sentences@[q]@)[k],
                ),
        decreases voice.sentences@.len() - j,
    {
        let vs = sentence_variants_of(voice.sentences[j].as_str());
        let mut k: usize = 0;
        while k < vs.len()
            invariant
                0 <= k <= vs@.len(),
                j < voice.sentences@.len(),
                views(vs@) == sentence_variants(voice.sentences@[j as int]@),
                forall|m: int| 0 <= m < k ==> tokens_finish(#[trigger] sentence_variants(voice.sentences@[j as int]@)[m]),
            decreases vs@.len() - k,
        {
            assert(views(vs@)[k as int] == vs@[k as int]@);
            if !sentence_finishes(vs[k].as_str()) {
                return false;
            }
            k = k + 1;
        }
        j = j + 1;
    }
    true
}

/// Compiles a sentence to the anchored regular expression of a shell
/// matcher: groups and optional parts as non-capturing groups, each
/// `{parameter}` a capture of one word, or of anything for a wildcard
/// list.
pub fn expand_to_regex(sentence: &str, lists: Option<&Vec<NamedListSpec>>) -> (r: String)
    requires
        tokens_finish(sentence@),
    ensures
        r@ == template_regex(
            match lists {
                Some(l) => Some(l@),
                None => None,
            },
            sentence@,
        ),
{
    let ghost lv = match lists {
        Some(l) => Some(l@),
        None => None,
    };
    let mut rem = chars_of(sentence);
    let mut body: Vec<char> = Vec::new();
    while rem.len() > 0
        invariant
            tokens_finish(rem@),
            body@ + regex_parts(lv, rem@) == regex_parts(lv, sentence@),
            lv == match lists {
                Some(l) => Some(l@),
                None => None,
            },
        decreases rem@.len(),
    {
        let n = rem.len();
        let a = match find_pos(rem.as_slice(), '{') {
            Some(a) => a,
            None => n,
        };
        let lit = sub_chars(rem.as_slice(), 0, a);
        let ghost before = body@;
        if lit.len() > 0 {
            let piece = pattern_to_regex(&lit);
            push_all(&mut body, piece.as_slice());
        }
        let mut rs = a;
        if a < n {
            let tail = sub_chars(rem.as_slice(), a, n);
            assert(tail@ =~= rem@.skip(a as int));
            match find_pos(tail.as_slice(), '}') {
                Some(b) => {
                    let name = sub_chars(rem.as_slice(), a + 1, a + b);
                    assert(name@ =~= rem@.subrange(a as int, a + b + 1).subrange(1, b as int));
                    let ns = string_from_chars(name.as_slice());
                    if is_wildcard_list(lists, ns.as_str()) {
                        push_str(&mut body, "(.*)");
                    } else {
                        push_str(&mut body, "\\b([^ ]+)\\b");
                    }
                    rs = a + b + 1;
                },
                None => {},
            }
        }
        proof {
            lemma_line_end_range(rem@, rs as int);
        }
        let mut e = rs;
        while e < n && rem[e] != '\n'
            invariant
                rs <= e <= n,
                n == rem@.len(),
                line_end(rem@, rs as int) == line_end(rem@, e as int),
            decreases n - e,
        {
            e = e + 1;
        }
        let rest = sub_chars(rem.as_slice(), rs, e);
        proof {
            let (l, p, r) = token_step(rem@);
            assert(l == lit@);
            assert(r == rest@);
            assert(body@ =~= before + ((if l.len() > 0 {
                pattern_regex(l)
            } else {
                Seq::<char>::empty()
            }) + (match p {
                Some(q) => param_group(lv, q.subrange(1, q.len() - 1)),
                None => Seq::<char>::empty(),
            })));
        }
        rem = rest;
    }
    let mut out: Vec<char> = Vec::new();
    push_str(&mut out, "^");
    push_all(&mut out, body.as_slice());
    push_str(&mut out, "$");
    assert(body@ + regex_parts(lv, rem@) =~= body@);
    string_from_chars(out.as_slice())
}

// ---------------------------------------------------------------------------
// Shell matchers
// ---------------------------------------------------------------------------

/// Text quoted for a single-quoted shell string: each `'` becomes `'\''`.
pub open spec fn sh_escape(s: Seq<char>) -> Seq<char> {
    replace_char(s, '\'', "'\\''"@)
}

/// The substitution table lines of the first `n` pairs.
pub open spec fn sub_table(subs: Seq<(Seq<char>, Seq<char>)>, n: int) -> Seq<char>
    decreases n,
{
    if n <= 0 {
        seq![]
    } else {
        sub_table(subs, n - 1) + "    substitutions['"@ + sh_escape(subs[n - 1].0) + "']='"@ + subs[n - 1].1
            + "'\n"@
    }
}

/// The lines that read the `k`-th parameter (from 0) of a matched variant
/// and apply the substitution table to it.
pub open spec fn param_head(raw: Seq<char>, k: int) -> Seq<char> {
    let safe = replace_char(raw, '-', "_"@);
    "        local param_"@ + safe + "=\"${BASH_REMATCH["@ + decimal((k + 1) as nat) + "]}\"\n"@
        + "        if [[ -v substitutions[\"${param_"@ + safe + "}\"] ]]; then\n"@ + "            param_"@
        + safe + "=\"${substitutions[\"${param_"@ + safe + "}\"]}\"\n"@ + "        fi\n"@
}

/// The `case` that resolves a parameter with a non-wildcard list of
/// values.
pub open spec fn param_case(lists: Option<Vec<NamedListSpec>>, raw: Seq<char>) -> Seq<char> {
    let safe = replace_char(raw, '-', "_"@);
    match lists {
        Some(ls) => match spec_list_pos(ls@, raw) {
            Some(j) => if ls@[j].list.wildcard != Some(true) && ls@[j].list.values is Some {
                "        case \"${param_"@ + safe + "}\" in\n"@ + entity_resolver(Some(ls@), raw)
                    + "        esac\n"@
            } else {
                seq![]
            },
            None => seq![],
        },
        None => seq![],
    }
}

/// The lines that read, resolve and export the `k`-th parameter.
pub open spec fn param_block(lists: Option<Vec<NamedListSpec>>, raw: Seq<char>, k: int) -> Seq<char> {
    param_head(raw, k) + param_case(lists, raw) + "        declare -g _param_"@ + raw + "=\"${param_"@
        + replace_char(raw, '-', "_"@) + "}\"\n"@
}

/// The parameter blocks of the first `n` names.
pub open spec fn param_blocks(lists: Option<Vec<NamedListSpec>>, names: Seq<Seq<char>>, n: int) -> Seq<char>
    decreases n,
{
    if n <= 0 {
        seq![]
    } else {
        param_blocks(lists, names, n - 1) + param_block(lists, names[n - 1], n - 1)
    }
}

/// The command argument lines of the first `n` names.
pub open spec fn cmd_arg_lines(names: Seq<Seq<char>>, n: int) -> Seq<char>
    decreases n,
{
    if n <= 0 {
        seq![]
    } else {
        cmd_arg_lines(names, n - 1) + "        cmd_args+=(--"@ + names[n - 1] + " \"${param_"@ + replace_char(
            names[n - 1],
            '-',
            "_"@,
        ) + "}\")\n"@
    }
}

/// The test of one sentence variant in a shell matcher.
pub open spec fn variant_block(voice: VoiceConfig, v: Seq<char>) -> Seq<char> {
    let names = param_names(v);
    let lv = match voice.lists {
        Some(l) => Some(l@),
        None => None,
    };
    "    local regex='"@ + sh_escape(template_regex(lv, v)) + "'\n"@ + "    if [[ \"$input\" =~ $regex ]]; then\n"@
        + param_blocks(voice.lists, names, names.len() as int) + "        cmd_args=()\n"@ + cmd_arg_lines(
        names,
        names.len() as int,
    ) + "        return 0\n"@ + "    fi\n"@
}

/// The tests of the first `n` variants.
pub open spec fn variant_blocks(voice: VoiceConfig, vs: Seq<Seq<char>>, n: int) -> Seq<char>
    decreases n,
{
    if n <= 0 {
        seq![]
    } else {
        variant_blocks(voice, vs, n - 1) + variant_block(voice, vs[n - 1])
    }
}

/// The tests of the variants of the first `n` sentences.
pub open spec fn sentence_blocks(voice: VoiceConfig, n: int) -> Seq<char>
    decreases n,
{
    if n <= 0 {
        seq![]
    } else {
        let vs = sentence_variants(voice.sentences@[n - 1]@);
        sentence_blocks(voice, n - 1) + variant_blocks(voice, vs, vs.len() as int)
    }
}

/// The shell function that matches input against a script's sentences.
pub open spec fn matcher_code(name: Seq<char>, voice: VoiceConfig, subs: Seq<(Seq<char>, Seq<char>)>) -> Seq<char> {
    "match_"@ + name + "() {\n"@ + "    local input=\"$(echo \"$1\" | tr '[:upper:]' '[:lower:]')\"\n"@ + (if subs.len()
        > 0 {
        "    declare -A substitutions\n"@ + sub_table(subs, subs.len() as int)
    } else {
        seq![]
    }) + sentence_blocks(voice, voice.sentences@.len() as int) + "    return 1\n"@ + "}\n"@
}

/// Every variant of every sentence can be compiled.
pub open spec fn voice_compiles(voice: VoiceConfig) -> bool {
    forall|j: int, k: int|
        0 <= j < voice.sentences@.len() && 0 <= k < sentence_variants(voice.sentences@[j]@).len() ==> tokens_finish(
            #[trigger] sentence_variants(voice.sentences@[j]@)[k],
        )
}

fn push_param_head(out: &mut Vec<char>, raw: &str, safe: &str, k: usize)
    requires
        k < usize::MAX,
        safe@ == replace_char(raw@, '-', "_"@),
    ensures
        final(out)@ == old(out)@ + param_head(raw@, k as int),
{
    let ghost start = out@;
    let idx = usize_to_string(k + 1);
    push_str(out, "        local param_");
    push_str(out, safe);
    push_str(out, "=\"${BASH_REMATCH[");
    push_str(out, idx.as_str());
    push_str(out, "]}\"\n");
    push_str(out, "        if [[ -v substitutions[\"${param_");
    push_str(out, safe);
    push_str(out, "}\"] ]]; then\n");
    push_str(out, "            param_");
    push_str(out, safe);
    push_str(out, "=\"${substitutions[\"${param_");
    push_str(out, safe);
    push_str(out, "}\"]}\"\n");
    push_str(out, "        fi\n");
    assert(out@ =~= start + param_head(raw@, k as int));
}

fn push_param_case(out: &mut Vec<char>, lists: &Option<Vec<NamedListSpec>>, raw: &str, safe: &str)
    requires
        safe@ == replace_char(raw@, '-', "_"@),
    ensures
        final(out)@ == old(out)@ + param_case(*lists, raw@),
{
    let ghost start = out@;
    match lists {
        Some(ls) => match find_list_spec(ls, raw) {
            Some(j) => {
                let not_wild = match ls[j].list.wildcard {
                    Some(w) => !w,
                    None => true,
                };
                if not_wild && ls[j].list.values.is_some() {
                    let resolver = make_entity_resolver(Some(ls), raw);
                    push_str(out, "        case \"${param_");
                    push_str(out, safe);
                    push_str(out, "}\" in\n");
                    push_str(out, resolver.as_str());
                    push_str(out, "        esac\n");
                }
            },
            None => {},
        },
        None => {},
    }
    assert(out@ =~= start + param_case(*lists, raw@));
}

fn push_param_block(out: &mut Vec<char>, lists: &Option<Vec<NamedListSpec>>, raw: &str, k: usize)
    requires
        k < usize::MAX,
    ensures
        final(out)@ == old(out)@ + param_block(*lists, raw@, k as int),
{
    let ghost start = out@;
    let safe = crate::config::sanitize_bash_var(raw);
    push_param_head(out, raw, safe.as_str(), k);
    push_param_case(out, lists, raw, safe.as_str());
    push_str(out, "        declare -g _param_");
    push_str(out, raw);
    push_str(out, "=\"${param_");
    push_str(out, safe.as_str());
    push_str(out, "}\"\n");
    assert(out@ =~= start + param_block(*lists, raw@, k as int));
}

fn push_variant_block(out: &mut Vec<char>, voice: &VoiceConfig, v: &str)
    requires
        tokens_finish(v@),
    ensures
        final(out)@ == old(out)@ + variant_block(*voice, v@),
{
    let ghost start = out@;
    let lists_ref: Option<&Vec<NamedListSpec>> = match &voice.lists {
        Some(l) => Some(l),
        None => None,
    };
    let regex = expand_to_regex(v, lists_ref);
    let esc = replace_char_str(regex.as_str(), '\'', "'\\''");
    push_str(out, "    local regex='");
    push_str(out, esc.as_str());
    push_str(out, "'\n");
    push_str(out, "    if [[ \"$input\" =~ $regex ]]; then\n");
    let names = extract_param_names(v);
    let ghost nv = views(names@);
    let ghost a = out@;
    let mut i: usize = 0;
    while i < names.len()
        invariant
            0 <= i <= names@.len(),
            nv == views(names@),
            out@ == a + param_blocks(voice.lists, nv, i as int),
        decreases names@.len() - i,
    {
        assert(nv[i as int] == names@[i as int]@);
        push_param_block(out, &voice.lists, names[i].as_str(), i);
        i = i + 1;
    }
    push_str(out, "        cmd_args=()\n");
    let ghost b = out@;
    let mut i: usize = 0;
    while i < names.len()
        invariant
            0 <= i <= names@.len(),
            nv == views(names@),
            out@ == b + cmd_arg_lines(nv, i as int),
        decreases names@.len() - i,
    {
        assert(nv[i as int] == names@[i as int]@);
        let safe = crate::config::sanitize_bash_var(names[i].as_str());
        push_str(out, "        cmd_args+=(--");
        push_str(out, names[i].as_str());
        push_str(out, " \"${param_");
        push_str(out, safe.as_str());
        push_str(out, "}\")\n");
        i = i + 1;
    }
    push_str(out, "        return 0\n");
    push_str(out, "    fi\n");
    assert(out@ =~= start + variant_block(*voice, v@));
}

/// Generates the shell function that matches input against a script's
/// sentences (see `matcher_code`).
pub fn generate_matcher_code(script_name: &str, voice: &VoiceConfig, subs: &[(String, String)]) -> (r: String)
    requires
        voice_compiles(*voice),
    ensures
        r@ == matcher_code(script_name@, *voice, subs@.map_values(|p: (String, String)| (p.0@, p.1@))),
{
    let ghost sv = subs@.map_values(|p: (String, String)| (p.0@, p.1@));
    let mut out: Vec<char> = Vec::new();
    push_str(&mut out, "match_");
    push_str(&mut out, script_name);
    push_str(&mut out, "() {\n");
    push_str(&mut out, "    local input=\"$(echo \"$1\" | tr '[:upper:]' '[:lower:]')\"\n");
    let ghost a = out@;
    if subs.len() > 0 {
        push_str(&mut out, "    declare -A substitutions\n");
        let ghost base = out@;
        let mut i: usize = 0;
        while i < subs.len()
            invariant
                0 <= i <= subs@.len(),
                sv == subs@.map_values(|p: (String, String)| (p.0@, p.1@)),
                out@ == base + sub_table(sv, i as int),
            decreases subs@.len() - i,
        {
            let esc = replace_char_str(subs[i].0.as_str(), '\'', "'\\''");
            push_str(&mut out, "    substitutions['");
            push_str(&mut out, esc.as_str());
            push_str(&mut out, "']='");
            push_str(&mut out, subs[i].1.as_str());
            push_str(&mut out, "'\n");
            i = i + 1;
        }
    }
    let ghost b = out@;
    let mut j: usize = 0;
    while j < voice.sentences.len()
        invariant
            0 <= j <= voice.sentences@.len(),
            voice_compiles(*voice),
            out@ == b + sentence_blocks(*voice, j as int),
        decreases voice.sentences@.len() - j,
    {
        let vs = sentence_variants_of(voice.sentences[j].as_str());
        let ghost vv = views(vs@);
        let ghost c = out@;
        let mut k: usize = 0;
        while k < vs.len()
            invariant
                0 <= k <= vs@.len(),
                j < voice.sentences@.len(),
                vv == views(vs@),
                vv == sentence_variants(voice.sentences@[j as int]@),
                voice_compiles(*voice),
                out@ == c + variant_blocks(*voice, vv, k as int),
            decreases vs@.len() - k,
        {
            assert(vv[k as int] == vs@[k as int]@);
            assert(tokens_finish(sentence_variants(voice.sentences@[j as int]@)[k as int]));
            push_variant_block(&mut out, voice, vs[k].as_str());
            k = k + 1;
        }
        j = j + 1;
    }
    push_str(&mut out, "    return 1\n");
    push_str(&mut out, "}\n");
    proof {
        if subs@.len() > 0 {
            assert(b =~= a + ("    declare -A substitutions\n"@ + sub_table(sv, sv.len() as int)));
        } else {
            assert(b =~= a);
        }
        assert(out@ =~= matcher_code(script_name@, *voice, sv));
    }
    string_from_chars(out.as_slice())
}

/// The shell matchers of the first `n` scripts that have voice commands:
/// each script's name and matcher code, in order.
pub open spec fn matcher_entries(v: Seq<NamedScript>, n: int) -> Seq<(Seq<char>, Seq<char>)>
    decreases n,
{
    if n <= 0 {
        seq![]
    } else {
        let prev = matcher_entries(v, n - 1);
        match v[n - 1].script.voice {
            Some(voice) => prev.push((v[n - 1].name@, matcher_code(v[n - 1].name@, voice, voice_pairs(voice)))),
            None => prev,
        }
    }
}

/// Every script's voice configuration can be compiled.
pub open spec fn scripts_compile(v: Seq<NamedScript>) -> bool {
    forall|i: int| 0 <= i < v.len() ==> (match (#[trigger] v[i]).script.voice {
        Some(voice) => voice_compiles(voice),
        None => true,
    })
}

/// The shell matcher of each script with voice commands: its name and
/// code (see `matcher_entries`).
pub fn matcher_files(scripts: &Vec<NamedScript>) -> (r: Vec<(String, String)>)
    requires
        scripts_compile(scripts@),
    ensures
        pair_views(r@) == matcher_entries(scripts@, scripts@.len() as int),
{
    let mut r: Vec<(String, String)> = Vec::new();
    let mut i: usize = 0;
    while i < scripts.len()
        invariant
            0 <= i <= scripts@.len(),
            scripts_compile(scripts@),
            pair_views(r@) == matcher_entries(scripts@, i as int),
        decreases scripts@.len() - i,
    {
        match &scripts[i].script.voice {
            Some(voice) => {
                let subs = build_substitutions(voice);
                let code = generate_matcher_code(scripts[i].name.as_str(), voice, subs.as_slice());
                assert(subs@.map_values(|p: (String, String)| (p.0@, p.1@)) =~= pair_views(subs@));
                let ghost before = pair_views(r@);
                r.push((copy_string(&scripts[i].name), code));
                assert(pair_views(r@) =~= before.push(pair_views(r@).last()));
            },
            None => {},
        }
        i = i + 1;
    }
    r
}

/// Whether every script's voice configuration can be compiled.
pub fn scripts_compile_check(scripts: &Vec<NamedScript>) -> (b: bool)
    ensures
        b == scripts_compile(scripts@),
{
    let mut i: usize = 0;
    while i < scripts.len()
        invariant
            0 <= i <= scripts@.len(),
            forall|m: int| 0 <= m < i ==> (match (#[trigger] scripts@[m]).script.voice {
                Some(voice) => voice_compiles(voice),
                None => true,
            }),
        decreases scripts@.len() - i,
    {
        match &scripts[i].script.voice {
            Some(voice) => {
                if !voice_compiles_check(voice) {
                    return false;
                }
            },
            None => {},
        }
        i = i + 1;
    }
    true
}

} // verus!
