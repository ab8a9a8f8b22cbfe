//! The self-test runner: generates spoken test phrases from the compiled
//! intents and checks that each is understood, with the expected
//! parameter values.
use vstd::prelude::*;
use crate::exact::{rts_fold, subs_map, substitute_words};
use crate::expand::{lemma_sorted_strict_unique, sorted_strict, cart_idx, expand_runtime, expand_runtime_strings, index_tuples, inner, is_optional, lemma_cart_idx_valid, tuple_view, valid_tuple};
use crate::intent::{first_from, lemma_first_from, find_intent, find_list, intent_pos, list_pos, EntityValue, FuzzyIndexEntry, NamedIntent, Substitution};
use crate::levenshtein::{lev, levenshtein_distance};
use crate::pattern::{braces_ok, find_pos, pos_of, sentences_compile};
use crate::regex_ops::{
    escaped, groups_view, matches_view, named_view, regex_all_captures, regex_captures_all, regex_escape,
    regex_find, regex_first_match, regex_named_captures, regex_named_groups, regex_replace_all, regex_replaced,
};
use crate::resolve::{find_sub_hit, first_sub_hit, opt_view};
use crate::scoring::{similarity, similarity_chars};
use crate::text::{
    chars_of, contains_chars, contains_sub, copy_string, debug_quoted, debug_str, find_char, join, join_chars, lowercase, replace_sub, replace_sub_chars, push_all, push_str, split_at_char, split_chars, str_eq,
    string_from_chars, sub_chars, to_lowercase, trim, trim_chars, views, lex_less, lex_lt, lemma_lex_irreflexive,
    lemma_lex_total, lemma_lex_transitive,
};

verus! {

/// The self-test runner and its settings.
pub struct TestRunner {
    /// The compiled intents, one per script.
    pub intent_data: Vec<NamedIntent>,
    /// The fuzzy index.
    pub fuzzy_index: Vec<FuzzyIndexEntry>,
    pub debug: bool,
    /// Show statistics instead of testing.
    pub stats_mode: bool,
    /// Test this one input instead of the suite.
    pub single_input: Option<String>,
    /// Test this script only.
    pub script_filter: Option<String>,
    /// Stop generating test phrases of a sentence once this many exist.
    pub max_variants: usize,
}

// ---------------------------------------------------------------------------
// Normalizing and substituting
// ---------------------------------------------------------------------------

/// The marks removed from test input: `? ! . , & /`.
pub open spec fn is_test_mark(c: char) -> bool {
    c == '?' || c == '!' || c == '.' || c == ',' || c == '&' || c == '/'
}

/// A string without its test marks.
pub open spec fn strip_marks(s: Seq<char>) -> Seq<char>
    decreases s.len(),
{
    if s.len() == 0 {
        seq![]
    } else {
        strip_marks(s.drop_last()) + if is_test_mark(s.last()) {
            seq![]
        } else {
            seq![s.last()]
        }
    }
}

/// The substitutions of a script among intents (none for an unknown
/// script).
pub open spec fn subs_of(intents: Seq<NamedIntent>, script: Seq<char>) -> Seq<Substitution> {
    match intent_pos(intents, script) {
        Some(i) => intents[i].intent.substitutions@,
        None => seq![],
    }
}

// ---------------------------------------------------------------------------
// List entries and entity resolution
// ---------------------------------------------------------------------------

/// The trimmed pieces that are not empty, in order.
pub open spec fn nonempty_trimmed(v: Seq<Seq<char>>) -> Seq<Seq<char>>
    decreases v.len(),
{
    if v.len() == 0 {
        seq![]
    } else {
        let r = nonempty_trimmed(v.drop_last());
        if trim(v.last()).len() > 0 {
            r.push(trim(v.last()))
        } else {
            r
        }
    }
}

/// The literal spoken forms of a list entry: the alternatives of a
/// `[a|b]` entry or of an `a|b` entry, trimmed and without blanks, or the
/// trimmed entry itself.
pub open spec fn entry_literals(p: Seq<char>) -> Seq<Seq<char>> {
    let t = trim(p);
    if is_optional(t) {
        nonempty_trimmed(split_at_char(inner(t), '|'))
    } else if t.contains('|') {
        nonempty_trimmed(split_at_char(t, '|'))
    } else {
        seq![t]
    }
}

/// The value of the first list entry from `i` on with a literal equal to
/// the spoken value.
pub open spec fn first_literal_hit(values: Seq<EntityValue>, nv: Seq<char>, i: int) -> Option<Seq<char>>
    decreases values.len() - i,
{
    if i < 0 || i >= values.len() {
        None
    } else if entry_literals(values[i].input@).contains(nv) {
        Some(values[i].out@)
    } else {
        first_literal_hit(values, nv, i + 1)
    }
}

/// The value a parameter resolves to in the self-test: the value of the
/// first substitution naming the lowercased value, else the value of the
/// first entry of the parameter's (non-wildcard) list with that literal,
/// else the value as spoken.
pub open spec fn test_resolve_spec(
    intents: Seq<NamedIntent>,
    script: Seq<char>,
    param: Seq<char>,
    value: Seq<char>,
) -> Seq<char> {
    let nv = lowercase(value);
    match intent_pos(intents, script) {
        None => value,
        Some(i) => match first_sub_hit(intents[i].intent.substitutions@, nv, 0) {
            Some(v) => v,
            None => match list_pos(intents[i].intent.lists@, param) {
                Some(l) => if intents[i].intent.lists@[l].list.wildcard {
                    value
                } else {
                    match first_literal_hit(intents[i].intent.lists@[l].list.values@, nv, 0) {
                        Some(o) => o,
                        None => value,
                    }
                },
                None => value,
            },
        },
    }
}

/// The pieces kept, trimmed, in order.
fn keep_nonempty_trimmed(pieces: &Vec<Vec<char>>) -> (r: Vec<String>)
    ensures
        views(r@) == nonempty_trimmed(pieces@.map_values(|w: Vec<char>| w@)),
{
    let ghost pv = pieces@.map_values(|w: Vec<char>| w@);
    let mut r: Vec<String> = Vec::new();
    let mut k: usize = 0;
    while k < pieces.len()
        invariant
            0 <= k <= pieces@.len(),
            pv == pieces@.map_values(|w: Vec<char>| w@),
            views(r@) == nonempty_trimmed(pv.take(k as int)),
        decreases pieces@.len() - k,
    {
        assert(pv.take(k + 1).drop_last() =~= pv.take(k as int));
        assert(pv.take(k + 1).last() == pieces@[k as int]@);
        let t = trim_chars(pieces[k].as_slice());
        if t.len() > 0 {
            let ghost before = views(r@);
            r.push(string_from_chars(t.as_slice()));
            assert(views(r@) =~= before.push(t@));
        }
        k = k + 1;
    }
    assert(pv.take(pieces@.len() as int) =~= pv);
    r
}

/// Whether the string holds the character.
fn holds_char(s: &Vec<char>, c: char) -> (b: bool)
    ensures
        b == s@.contains(c),
{
    match find_char(s.as_slice(), c) {
        Some(i) => {
            assert(s@[i as int] == c);
            true
        },
        None => {
            proof {
                if s@.contains(c) {
                    let j = choose|j: int| 0 <= j < s@.len() && s@[j] == c;
                    assert(exists|i: int| 0 <= i < s@.len() && s@[i] == c);
                }
            }
            false
        },
    }
}

/// The literal spoken forms of a list entry (see `entry_literals`).
pub fn expand_list_entry(pattern: &str) -> (r: Vec<String>)
    ensures
        views(r@) == entry_literals(pattern@),
{
    let cs = chars_of(pattern);
    let t = trim_chars(cs.as_slice());
    let n = t.len();
    if n >= 2 && t[0] == '[' && t[n - 1] == ']' {
        let inn = sub_chars(t.as_slice(), 1, n - 1);
        assert(inn@ == inner(t@));
        let pieces = split_chars(inn.as_slice(), '|');
        keep_nonempty_trimmed(&pieces)
    } else if holds_char(&t, '|') {
        let pieces = split_chars(t.as_slice(), '|');
        keep_nonempty_trimmed(&pieces)
    } else {
        let mut r: Vec<String> = Vec::new();
        r.push(string_from_chars(t.as_slice()));
        assert(views(r@) =~= seq![t@]);
        r
    }
}

/// Whether one of the strings equals the given one.
fn any_equal(v: &Vec<String>, s: &str) -> (b: bool)
    ensures
        b == views(v@).contains(s@),
{
    let mut k: usize = 0;
    while k < v.len()
        invariant
            0 <= k <= v@.len(),
            forall|m: int| 0 <= m < k ==> v@[m]@ != s@,
        decreases v@.len() - k,
    {
        if str_eq(v[k].as_str(), s) {
            assert(views(v@)[k as int] == s@);
            return true;
        }
        k = k + 1;
    }
    proof {
        if views(v@).contains(s@) {
            let j = choose|j: int| 0 <= j < views(v@).len() && views(v@)[j] == s@;
            assert(v@[j]@ == s@);
        }
    }
    false
}

/// The value of the first list entry with a literal equal to the spoken
/// value.
fn find_literal_hit(values: &Vec<EntityValue>, nv: &str) -> (r: Option<String>)
    ensures
        opt_view(r) == first_literal_hit(values@, nv@, 0),
{
    let mut k: usize = 0;
    while k < values.len()
        invariant
            0 <= k <= values@.len(),
            first_literal_hit(values@, nv@, 0) == first_literal_hit(values@, nv@, k as int),
        decreases values@.len() - k,
    {
        let lits = expand_list_entry(values[k].input.as_str());
        if any_equal(&lits, nv) {
            return Some(copy_string(&values[k].out));
        }
        k = k + 1;
    }
    None
}

// ---------------------------------------------------------------------------
// Fuzzy matching
// ---------------------------------------------------------------------------

/// The best score so far and the match it came from, over the first `n`
/// index entries: a score counts from 15 on, and only a strictly better
/// one replaces an earlier match.
pub open spec fn best_fuzzy(entries: Seq<FuzzyIndexEntry>, t: Seq<char>, n: int) -> (int, Option<
    (Seq<char>, int),
>)
    decreases n,
{
    if n <= 0 {
        (0, None)
    } else {
        let prev = best_fuzzy(entries, t, n - 1);
        match similarity(t, lowercase(entries[n - 1].sentence@)) {
            Some(s) => if s >= 15 && s > prev.0 {
                (s, Some((entries[n - 1].script@, s)))
            } else {
                prev
            },
            None => prev,
        }
    }
}

/// The view of a fuzzy answer.
pub open spec fn scored_view(r: Option<(String, i32)>) -> Option<(Seq<char>, int)> {
    match r {
        Some((s, n)) => Some((s@, n as int)),
        None => None,
    }
}

// ---------------------------------------------------------------------------
// Test expressions
// ---------------------------------------------------------------------------

/// Whether a script's list for a parameter accepts any text.
pub open spec fn test_wildcard(intents: Seq<NamedIntent>, script: Seq<char>, param: Seq<char>) -> bool {
    match intent_pos(intents, script) {
        Some(i) => match list_pos(intents[i].intent.lists@, param) {
            Some(l) => intents[i].intent.lists@[l].list.wildcard,
            None => false,
        },
        None => false,
    }
}

/// The named group of a parameter: anything for a wildcard, one word
/// between word boundaries otherwise.
pub open spec fn test_group(intents: Seq<NamedIntent>, script: Seq<char>, param: Seq<char>) -> Seq<char> {
    if test_wildcard(intents, script, param) {
        "(?P<"@ + escaped(param) + ">.*)"@
    } else {
        "(?P<"@ + escaped(param) + ">\\b[^ ]+\\b)"@
    }
}

/// The body of a test expression: the literal text escaped, each
/// `{parameter}` a named group.
pub open spec fn test_body(intents: Seq<NamedIntent>, script: Seq<char>, s: Seq<char>) -> Seq<char>
    decreases s.len(),
{
    let a = pos_of(s, '{');
    let b = pos_of(s, '}');
    if a < 0 || b < 0 || !(0 <= a < b < s.len()) {
        escaped(s)
    } else {
        escaped(s.take(a)) + test_group(intents, script, s.subrange(a + 1, b)) + test_body(
            intents,
            script,
            s.skip(b + 1),
        )
    }
}

/// The anchored test expression of a sentence variant.
pub open spec fn test_regex(intents: Seq<NamedIntent>, script: Seq<char>, s: Seq<char>) -> Seq<char> {
    "^"@ + test_body(intents, script, s) + "$"@
}

/// Whether some variant of some sentence of a script matches the text.
pub open spec fn exact_hit(intents: Seq<NamedIntent>, script: Seq<char>, text: Seq<char>) -> bool {
    match intent_pos(intents, script) {
        Some(i) => exists|j: int, k: int|
            0 <= j < intents[i].intent.sentences@.len() && 0 <= k < expand_runtime(
                intents[i].intent.sentences@[j]@,
            ).len() && (#[trigger] regex_first_match(
                test_regex(intents, script, expand_runtime(intents[i].intent.sentences@[j]@)[k]),
                text,
            )) is Some,
        None => false,
    }
}

impl TestRunner {
    /// A runner with no data, testing up to 1000 phrases per sentence.
    pub fn new(debug: bool) -> (r: TestRunner)
        ensures
            r.intent_data@.len() == 0,
            r.fuzzy_index@.len() == 0,
            r.debug == debug,
            !r.stats_mode,
            r.single_input is None,
            r.script_filter is None,
            r.max_variants == 1000,
    {
        TestRunner {
            intent_data: Vec::new(),
            fuzzy_index: Vec::new(),
            debug,
            stats_mode: false,
            single_input: None,
            script_filter: None,
            max_variants: 1000,
        }
    }

    /// Removes `? ! . , & /` and lowercases.
    pub fn normalize_input(&self, input: &str) -> (r: String)
        ensures
            r@ == lowercase(strip_marks(input@)),
    {
        let cs = chars_of(input);
        let mut kept: Vec<char> = Vec::new();
        let mut i: usize = 0;
        while i < cs.len()
            invariant
                0 <= i <= cs@.len(),
                cs@ == input@,
                kept@ == strip_marks(cs@.take(i as int)),
            decreases cs@.len() - i,
        {
            assert(cs@.take(i + 1).drop_last() =~= cs@.take(i as int));
            let c = cs[i];
            if !(c == '?' || c == '!' || c == '.' || c == ',' || c == '&' || c == '/') {
                kept.push(c);
            }
            proof {
                let t = cs@.take(i + 1);
                assert(t.last() == c);
                if is_test_mark(c) {
                    assert(strip_marks(t) =~= strip_marks(cs@.take(i as int)) + seq![]);
                } else {
                    assert(strip_marks(t) =~= strip_marks(cs@.take(i as int)) + seq![c]);
                }
            }
            i = i + 1;
        }
        assert(cs@.take(cs@.len() as int) =~= cs@);
        let stripped = string_from_chars(kept.as_slice());
        to_lowercase(stripped.as_str())
    }

    /// Applies a script's substitutions to the lowercased text (as the
    /// matcher does); returns the text and the replacements made.
    pub fn apply_real_time_substitutions(&self, script_name: &str, text: &str) -> (r: (String, Vec<Substitution>))
        ensures
            r.0@ == rts_fold(
                subs_of(self.intent_data@, script_name@),
                lowercase(text@),
                subs_of(self.intent_data@, script_name@).len() as int,
            ).0,
            subs_map(r.1@) == rts_fold(
                subs_of(self.intent_data@, script_name@),
                lowercase(text@),
                subs_of(self.intent_data@, script_name@).len() as int,
            ).1,
    {
        match find_intent(&self.intent_data, script_name) {
            Some(i) => substitute_words(&self.intent_data[i].intent.substitutions, text),
            None => {
                let empty: Vec<Substitution> = Vec::new();
                substitute_words(&empty, text)
            },
        }
    }

    /// The value a parameter resolves to (see `test_resolve_spec`).
    pub fn resolve_entity(&self, script_name: &str, param_name: &str, param_value: &str) -> (r: String)
        ensures
            r@ == test_resolve_spec(self.intent_data@, script_name@, param_name@, param_value@),
    {
        let i = match find_intent(&self.intent_data, script_name) {
            Some(i) => i,
            None => return str_to_owned(param_value),
        };
        let nv = to_lowercase(param_value);
        match find_sub_hit(&self.intent_data[i].intent.substitutions, nv.as_str()) {
            Some(v) => return v,
            None => {},
        }
        let lists = &self.intent_data[i].intent.lists;
        match find_list(lists, param_name) {
            Some(l) => {
                if !lists[l].list.wildcard {
                    match find_literal_hit(&lists[l].list.values, nv.as_str()) {
                        Some(o) => return o,
                        None => {},
                    }
                }
            },
            None => {},
        }
        str_to_owned(param_value)
    }

    /// The variants of a sentence template (see `expand::expand_runtime`).
    pub fn expand_optional_words(&self, sentence: &str) -> (r: Vec<String>)
        ensures
            views(r@) == expand_runtime(sentence@),
    {
        expand_runtime_strings(sentence)
    }

    /// The Levenshtein distance between two strings, in characters.
    pub fn levenshtein_distance(&self, a: &str, b: &str) -> (d: usize)
        ensures
            d == lev(a@, b@),
    {
        levenshtein_distance(a, b)
    }

    /// The script of the index sentence most similar to the text, with its
    /// score, if any scores 15 or more (see `best_fuzzy`).
    pub fn find_best_fuzzy_match(&self, text: &str) -> (r: Option<(String, i32)>)
        ensures
            scored_view(r) == best_fuzzy(self.fuzzy_index@, lowercase(text@), self.fuzzy_index@.len() as int).1,
    {
        let t = to_lowercase(text);
        let tc = chars_of(t.as_str());
        let mut best_score: i32 = 0;
        let mut best: Option<(String, i32)> = None;
        let mut k: usize = 0;
        while k < self.fuzzy_index.len()
            invariant
                0 <= k <= self.fuzzy_index@.len(),
                tc@ == lowercase(text@),
                best_score as int == best_fuzzy(self.fuzzy_index@, tc@, k as int).0,
                scored_view(best) == best_fuzzy(self.fuzzy_index@, tc@, k as int).1,
            decreases self.fuzzy_index@.len() - k,
        {
            let s = to_lowercase(self.fuzzy_index[k].sentence.as_str());
            let sc = chars_of(s.as_str());
            match similarity_chars(tc.as_slice(), sc.as_slice()) {
                Some(score) => {
                    if score >= 15 && score > best_score {
                        best_score = score;
                        best = Some((copy_string(&self.fuzzy_index[k].script), score));
                    }
                },
                None => {},
            }
            k = k + 1;
        }
        best
    }

    /// Whether a script's list for a parameter accepts any text.
    fn is_wildcard(&self, script_name: &str, param: &str) -> (b: bool)
        ensures
            b == test_wildcard(self.intent_data@, script_name@, param@),
    {
        match find_intent(&self.intent_data, script_name) {
            Some(i) => match find_list(&self.intent_data[i].intent.lists, param) {
                Some(l) => self.intent_data[i].intent.lists[l].list.wildcard,
                None => false,
            },
            None => false,
        }
    }

    /// The anchored test expression of a sentence variant, with a named
    /// group per `{parameter}` (see `test_regex`).
    pub fn build_test_regex(&self, script_name: &str, sentence: &str) -> (r: String)
        requires
            braces_ok(sentence@),
        ensures
            r@ == test_regex(self.intent_data@, script_name@, sentence@),
    {
        let mut cur: Vec<char> = chars_of(sentence);
        let mut body: Vec<char> = Vec::new();
        loop
            invariant
                braces_ok(cur@),
                body@ + test_body(self.intent_data@, script_name@, cur@) == test_body(
                    self.intent_data@,
                    script_name@,
                    sentence@,
                ),
            ensures
                body@ + test_body(self.intent_data@, script_name@, cur@) == test_body(
                    self.intent_data@,
                    script_name@,
                    sentence@,
                ),
                pos_of(cur@, '{') < 0 || pos_of(cur@, '}') < 0,
            decreases cur@.len(),
        {
            let a = match find_pos(cur.as_slice(), '{') {
                Some(a) => a,
                None => break,
            };
            let b = match find_pos(cur.as_slice(), '}') {
                Some(b) => b,
                None => break,
            };
            assert(a < b && b < cur@.len());
            let before = sub_chars(cur.as_slice(), 0, a);
            let param = sub_chars(cur.as_slice(), a + 1, b);
            let n = cur.len();
            let after = sub_chars(cur.as_slice(), b + 1, n);
            assert(before@ == cur@.take(a as int));
            assert(after@ == cur@.skip(b + 1));
            let ghost body0 = body@;
            let bs = string_from_chars(before.as_slice());
            let esc = regex_escape(bs.as_str());
            push_str(&mut body, esc.as_str());
            let ps = string_from_chars(param.as_slice());
            let pe = regex_escape(ps.as_str());
            push_str(&mut body, "(?P<");
            push_str(&mut body, pe.as_str());
            if self.is_wildcard(script_name, ps.as_str()) {
                push_str(&mut body, ">.*)");
            } else {
                push_str(&mut body, ">\\b[^ ]+\\b)");
            }
            proof {
                assert(body@ =~= body0 + escaped(cur@.take(a as int)) + test_group(
                    self.intent_data@,
                    script_name@,
                    param@,
                ));
                assert(body@ + test_body(self.intent_data@, script_name@, after@) =~= body0 + (escaped(
                    cur@.take(a as int),
                ) + test_group(self.intent_data@, script_name@, param@) + test_body(
                    self.intent_data@,
                    script_name@,
                    after@,
                )));
            }
            cur = after;
        }
        let rest = string_from_chars(cur.as_slice());
        let esc = regex_escape(rest.as_str());
        let ghost body0 = body@;
        push_str(&mut body, esc.as_str());
        assert(body@ =~= body0 + test_body(self.intent_data@, script_name@, cur@));
        let mut src: Vec<char> = Vec::new();
        push_str(&mut src, "^");
        push_all(&mut src, body.as_slice());
        push_str(&mut src, "$");
        string_from_chars(src.as_slice())
    }

    /// Whether some variant of some sentence of the script matches the
    /// lowercased input (see `exact_hit`).
    pub fn test_exact_match(&self, script_name: &str, input: &str) -> (b: bool)
        requires
            sentences_compile(self.intent_data@),
        ensures
            b == exact_hit(self.intent_data@, script_name@, lowercase(input@)),
    {
        let i = match find_intent(&self.intent_data, script_name) {
            Some(i) => i,
            None => return false,
        };
        let text = to_lowercase(input);
        let sentences = &self.intent_data[i].intent.sentences;
        let mut j: usize = 0;
        while j < sentences.len()
            invariant
                0 <= j <= sentences@.len(),
                i < self.intent_data@.len(),
                intent_pos(self.intent_data@, script_name@) == Some(i as int),
                sentences@ == self.intent_data@[i as int].intent.sentences@,
                sentences_compile(self.intent_data@),
                text@ == lowercase(input@),
                forall|q: int, k: int|
                    0 <= q < j && 0 <= k < expand_runtime(sentences@[q]@).len() ==> (
                    #[trigger] regex_first_match(
                        test_regex(self.intent_data@, script_name@, expand_runtime(sentences@[q]@)[k]),
                        text@,
                    )) is None,
            decreases sentences@.len() - j,
        {
            let vs = self.expand_optional_words(sentences[j].as_str());
            let mut k: usize = 0;
            while k < vs.len()
                invariant
                    0 <= k <= vs@.len(),
                    j < sentences@.len(),
                    i < self.intent_data@.len(),
                    sentences@ == self.intent_data@[i as int].intent.sentences@,
                    sentences_compile(self.intent_data@),
                    intent_pos(self.intent_data@, script_name@) == Some(i as int),
                    text@ == lowercase(input@),
                    views(vs@) == expand_runtime(sentences@[j as int]@),
                    forall|m: int|
                        0 <= m < k ==> (#[trigger] regex_first_match(
                            test_regex(self.intent_data@, script_name@, expand_runtime(sentences@[j as int]@)[m]),
                            text@,
                        )) is None,
                decreases vs@.len() - k,
            {
                assert(views(vs@)[k as int] == vs@[k as int]@);
                assert(braces_ok(expand_runtime(self.intent_data@[i as int].intent.sentences@[j as int]@)[k as int]));
                let pattern = self.build_test_regex(script_name, vs[k].as_str());
                if regex_find(pattern.as_str(), text.as_str()).is_some() {
                    assert(regex_first_match(
                        test_regex(
                            self.intent_data@,
                            script_name@,
                            expand_runtime(self.intent_data@[i as int].intent.sentences@[j as int]@)[k as int],
                        ),
                        lowercase(input@),
                    ) is Some);
                    return true;
                }
                k = k + 1;
            }
            j = j + 1;
        }
        false
    }
}

// ---------------------------------------------------------------------------
// Parameter references
// ---------------------------------------------------------------------------

/// The expression that finds `{parameter}` references.
pub open spec fn ref_regex() -> Seq<char> {
    "\\{([^}]+)\\}"@
}

/// The first group of each match that has one, in order.
pub open spec fn group1_values(caps: Seq<Seq<Option<Seq<char>>>>) -> Seq<Seq<char>>
    decreases caps.len(),
{
    if caps.len() == 0 {
        seq![]
    } else {
        let r = group1_values(caps.drop_last());
        let c = caps.last();
        if c.len() > 1 && c[1] is Some {
            r.push(c[1]->0)
        } else {
            r
        }
    }
}

/// The names of the `{parameter}` references of a text, in order.
pub open spec fn ref_names(s: Seq<char>) -> Seq<Seq<char>> {
    match regex_all_captures(ref_regex(), s) {
        Some(caps) => group1_values(caps),
        None => seq![],
    }
}

/// The names of the `{parameter}` references of a text (a match without
/// the name group, which this expression cannot produce, is skipped).
fn param_refs(s: &str) -> (r: Vec<String>)
    ensures
        views(r@) == ref_names(s@),
{
    let mut r: Vec<String> = Vec::new();
    match regex_captures_all("\\{([^}]+)\\}", s) {
        Some(caps) => {
            let ghost cv = matches_view(caps);
            let mut k: usize = 0;
            while k < caps.len()
                invariant
                    0 <= k <= caps@.len(),
                    cv == matches_view(caps),
                    views(r@) == group1_values(cv.take(k as int)),
                decreases caps@.len() - k,
            {
                assert(cv.take(k + 1).drop_last() =~= cv.take(k as int));
                assert(cv.take(k + 1).last() == groups_view(caps@[k as int]));
                let c = &caps[k];
                if c.len() > 1 {
                    match &c[1] {
                        Some(v) => {
                            let ghost before = views(r@);
                            r.push(copy_string(v));
                            assert(views(r@) =~= before.push(v@));
                        },
                        None => {},
                    }
                }
                k = k + 1;
            }
            assert(cv.take(caps@.len() as int) =~= cv);
        },
        None => {
            assert(views(r@) =~= seq![]);
        },
    }
    r
}

/// The text written `{name}`.
pub open spec fn braced(name: Seq<char>) -> Seq<char> {
    seq!['{'] + name + seq!['}']
}

fn braced_chars(name: &str) -> (r: Vec<char>)
    ensures
        r@ == braced(name@),
        r@.len() > 0,
{
    let mut r: Vec<char> = Vec::new();
    r.push('{');
    push_str(&mut r, name);
    r.push('}');
    assert(r@ =~= braced(name@));
    r
}

/// The sample value of a parameter in a resolved sentence: `1` for time
/// parts, `livingroom` for rooms and devices, `test` otherwise.
pub open spec fn sample_for(name: Seq<char>) -> Seq<char> {
    let l = lowercase(name);
    if contains_sub(l, "hour"@) || contains_sub(l, "minute"@) || contains_sub(l, "second"@) {
        "1"@
    } else if contains_sub(l, "room"@) || contains_sub(l, "device"@) {
        "livingroom"@
    } else {
        "test"@
    }
}

/// The text with the first `n` references replaced by their samples.
pub open spec fn fill_samples(s: Seq<char>, names: Seq<Seq<char>>, n: int) -> Seq<char>
    decreases n,
{
    if n <= 0 {
        s
    } else {
        replace_sub(fill_samples(s, names, n - 1), braced(names[n - 1]), sample_for(names[n - 1]))
    }
}

/// A sentence with sample values, the first alternative of each group, and
/// its optional words kept: references filled in, `(a|b)` groups reduced to
/// their first alternative, `[a]` brackets dropped, ` | ` and doubled spaces
/// narrowed, and the ends trimmed.
pub open spec fn resolved_sentence(s: Seq<char>) -> Seq<char> {
    let names = ref_names(s);
    let f = fill_samples(s, names, names.len() as int);
    let r1 = regex_replaced("\\(([^|)]+)(\\|[^)]+)?\\)"@, f, "$1"@);
    let r2 = regex_replaced("\\[([^]]+)\\]"@, r1, " $1 "@);
    trim(replace_sub(replace_sub(r2, " | "@, " "@), "  "@, " "@))
}

/// Whether a text contains a literal.
fn has_word(s: &Vec<char>, w: &str) -> (b: bool)
    ensures
        b == contains_sub(s@, w@),
{
    let wc = chars_of(w);
    contains_chars(s.as_slice(), wc.as_slice())
}

/// The sample value of a parameter (see `sample_for`).
fn sample_value(name: &str) -> (r: String)
    ensures
        r@ == sample_for(name@),
{
    let l = to_lowercase(name);
    let lc = chars_of(l.as_str());
    if has_word(&lc, "hour") || has_word(&lc, "minute") || has_word(&lc, "second") {
        str_to_owned("1")
    } else if has_word(&lc, "room") || has_word(&lc, "device") {
        str_to_owned("livingroom")
    } else {
        str_to_owned("test")
    }
}

// ---------------------------------------------------------------------------
// Parameter maps as lists of pairs
// ---------------------------------------------------------------------------

/// The views of name-value pairs.
pub open spec fn pair_views(v: Seq<(String, String)>) -> Seq<(Seq<char>, Seq<char>)> {
    v.map_values(|p: (String, String)| (p.0@, p.1@))
}

/// The first position of a name among pairs, or -1.
pub open spec fn key_pos(v: Seq<(Seq<char>, Seq<char>)>, k: Seq<char>) -> int
    decreases v.len(),
{
    if v.len() == 0 {
        -1
    } else if v[0].0 == k {
        0
    } else {
        let r = key_pos(v.drop_first(), k);
        if r < 0 {
            -1
        } else {
            r + 1
        }
    }
}

/// `key_pos` is the first position holding the name.
pub proof fn lemma_key_pos(v: Seq<(Seq<char>, Seq<char>)>, k: Seq<char>, i: int)
    requires
        0 <= i <= v.len(),
        forall|m: int| 0 <= m < i ==> (#[trigger] v[m]).0 != k,
    ensures
        i < v.len() && v[i].0 == k ==> key_pos(v, k) == i,
        i == v.len() ==> key_pos(v, k) == -1,
    decreases i,
{
    if i > 0 {
        let t = v.drop_first();
        assert forall|m: int| 0 <= m < i - 1 implies (#[trigger] t[m]).0 != k by {
            assert(t[m] == v[m + 1]);
        }
        lemma_key_pos(t, k, i - 1);
    }
}

/// `key_pos` is -1 when no pair has the name, else a position holding it.
pub proof fn lemma_key_pos_shape(v: Seq<(Seq<char>, Seq<char>)>, k: Seq<char>)
    ensures
        key_pos(v, k) == -1 || (0 <= key_pos(v, k) < v.len() && v[key_pos(v, k)].0 == k),
        key_pos(v, k) == -1 ==> forall|m: int| 0 <= m < v.len() ==> (#[trigger] v[m]).0 != k,
    decreases v.len(),
{
    if v.len() > 0 {
        let t = v.drop_first();
        lemma_key_pos_shape(t, k);
        if v[0].0 != k && key_pos(t, k) == -1 {
            assert forall|m: int| 0 <= m < v.len() implies (#[trigger] v[m]).0 != k by {
                if m > 0 {
                    assert(v[m] == t[m - 1]);
                }
            }
        }
    }
}

/// The value of a name among pairs (its first entry), if any.
pub open spec fn lookup_pair(v: Seq<(Seq<char>, Seq<char>)>, k: Seq<char>) -> Option<Seq<char>> {
    let i = key_pos(v, k);
    if 0 <= i < v.len() {
        Some(v[i].1)
    } else {
        None
    }
}

/// Sets a name's value: in place when the name is there, else appended.
pub open spec fn pairs_insert(v: Seq<(Seq<char>, Seq<char>)>, k: Seq<char>, val: Seq<char>) -> Seq<
    (Seq<char>, Seq<char>),
> {
    let i = key_pos(v, k);
    if 0 <= i < v.len() {
        v.update(i, (k, val))
    } else {
        v.push((k, val))
    }
}

/// Two lists of pairs hold the same names with the same values.
pub open spec fn same_params(a: Seq<(Seq<char>, Seq<char>)>, b: Seq<(Seq<char>, Seq<char>)>) -> bool {
    forall|k: Seq<char>| #[trigger] lookup_pair(a, k) == lookup_pair(b, k)
}

/// Finds a name among pairs.
fn find_key(v: &Vec<(String, String)>, k: &str) -> (r: Option<usize>)
    ensures
        match r {
            Some(i) => i < v@.len() && key_pos(pair_views(v@), k@) == i as int,
            None => key_pos(pair_views(v@), k@) == -1,
        },
{
    let ghost pv = pair_views(v@);
    let mut i: usize = 0;
    while i < v.len()
        invariant
            0 <= i <= v@.len(),
            pv == pair_views(v@),
            forall|m: int| 0 <= m < i ==> (#[trigger] pv[m]).0 != k@,
        decreases v@.len() - i,
    {
        if str_eq(v[i].0.as_str(), k) {
            proof {
                lemma_key_pos(pv, k@, i as int);
            }
            return Some(i);
        }
        i = i + 1;
    }
    proof {
        lemma_key_pos(pv, k@, i as int);
    }
    None
}

/// The value of a name among pairs.
fn pair_lookup(v: &Vec<(String, String)>, k: &str) -> (r: Option<String>)
    ensures
        opt_view(r) == lookup_pair(pair_views(v@), k@),
{
    match find_key(v, k) {
        Some(i) => Some(copy_string(&v[i].1)),
        None => None,
    }
}

/// Sets a name's value among pairs.
fn insert_pair(v: &mut Vec<(String, String)>, k: String, val: String)
    ensures
        pair_views(final(v)@) == pairs_insert(pair_views(old(v)@), k@, val@),
{
    match find_key(v, k.as_str()) {
        Some(i) => {
            let ghost before = pair_views(v@);
            v.set(i, (k, val));
            assert(pair_views(v@) =~= before.update(i as int, (k@, val@)));
        },
        None => {
            let ghost before = pair_views(v@);
            v.push((k, val));
            assert(pair_views(v@) =~= before.push((k@, val@)));
        },
    }
}

/// Whether two lists of pairs hold the same names with the same values.
pub fn same_pairs(a: &Vec<(String, String)>, b: &Vec<(String, String)>) -> (r: bool)
    ensures
        r == same_params(pair_views(a@), pair_views(b@)),
{
    let ghost av = pair_views(a@);
    let ghost bv = pair_views(b@);
    let mut i: usize = 0;
    while i < a.len()
        invariant
            0 <= i <= a@.len(),
            av == pair_views(a@),
            bv == pair_views(b@),
            forall|m: int| 0 <= m < i ==> lookup_pair(bv, (#[trigger] av[m]).0) == lookup_pair(av, av[m].0),
        decreases a@.len() - i,
    {
        let x = pair_lookup(a, a[i].0.as_str());
        let y = pair_lookup(b, a[i].0.as_str());
        assert(av[i as int].0 == a@[i as int].0@);
        let eq = match (&x, &y) {
            (Some(p), Some(q)) => str_eq(p.as_str(), q.as_str()),
            (None, None) => true,
            _ => false,
        };
        if !eq {
            assert(lookup_pair(av, av[i as int].0) != lookup_pair(bv, av[i as int].0));
            return false;
        }
        i = i + 1;
    }
    let mut j: usize = 0;
    while j < b.len()
        invariant
            0 <= j <= b@.len(),
            av == pair_views(a@),
            bv == pair_views(b@),
            forall|m: int| 0 <= m < a@.len() ==> lookup_pair(bv, (#[trigger] av[m]).0) == lookup_pair(av, av[m].0),
            forall|m: int| 0 <= m < j ==> lookup_pair(av, (#[trigger] bv[m]).0) == lookup_pair(bv, bv[m].0),
        decreases b@.len() - j,
    {
        let x = pair_lookup(a, b[j].0.as_str());
        let y = pair_lookup(b, b[j].0.as_str());
        assert(bv[j as int].0 == b@[j as int].0@);
        let eq = match (&x, &y) {
            (Some(p), Some(q)) => str_eq(p.as_str(), q.as_str()),
            (None, None) => true,
            _ => false,
        };
        if !eq {
            assert(lookup_pair(av, bv[j as int].0) != lookup_pair(bv, bv[j as int].0));
            return false;
        }
        j = j + 1;
    }
    assert forall|k: Seq<char>| #[trigger] lookup_pair(av, k) == lookup_pair(bv, k) by {
        let ia = key_pos(av, k);
        let ib = key_pos(bv, k);
        lemma_key_pos_shape(av, k);
        lemma_key_pos_shape(bv, k);
        if 0 <= ia < av.len() {
            assert(lookup_pair(bv, av[ia].0) == lookup_pair(av, av[ia].0));
        } else if 0 <= ib < bv.len() {
            assert(lookup_pair(av, bv[ib].0) == lookup_pair(bv, bv[ib].0));
        }
    }
    true
}

// ---------------------------------------------------------------------------
// Generated test phrases
// ---------------------------------------------------------------------------

/// A test phrase and its expected parameter values, as plain values.
pub type CaseView = (Seq<char>, Seq<(Seq<char>, Seq<char>)>);

/// The view of a test phrase and its expected values.
pub open spec fn case_view(c: (String, Vec<(String, String)>)) -> CaseView {
    (c.0@, pair_views(c.1@))
}

/// The views of test phrases.
pub open spec fn cases_view(v: Seq<(String, Vec<(String, String)>)>) -> Seq<CaseView> {
    v.map_values(|c: (String, Vec<(String, String)>)| case_view(c))
}

/// A spoken form that is also its value.
pub open spec fn dup(x: Seq<char>) -> (Seq<char>, Seq<char>) {
    (x, x)
}

/// The sample values tried for a wildcard parameter.
pub open spec fn wildcard_samples() -> Seq<(Seq<char>, Seq<char>)> {
    seq![dup("test"@), dup("star wars"@), dup("123"@)]
}

/// Every literal of every list entry, with the entry's value.
pub open spec fn value_options(values: Seq<EntityValue>) -> Seq<(Seq<char>, Seq<char>)>
    decreases values.len(),
{
    if values.len() == 0 {
        seq![]
    } else {
        value_options(values.drop_last()) + entry_literals(values.last().input@).map_values(
            |l: Seq<char>| (l, values.last().out@),
        )
    }
}

/// The text written `<name>`.
pub open spec fn angled(name: Seq<char>) -> Seq<char> {
    seq!['<'] + name + seq!['>']
}

/// The spoken forms and values tried for a parameter: the wildcard
/// samples, or the literals of its list, or `<name>` when there are none.
pub open spec fn param_options(intents: Seq<NamedIntent>, script: Seq<char>, p: Seq<char>) -> Seq<
    (Seq<char>, Seq<char>),
> {
    let dflt = seq![dup(angled(p))];
    match intent_pos(intents, script) {
        Some(i) => match list_pos(intents[i].intent.lists@, p) {
            Some(l) => {
                let lc = intents[i].intent.lists@[l].list;
                let o = if lc.wildcard {
                    wildcard_samples()
                } else {
                    value_options(lc.values@)
                };
                if o.len() == 0 {
                    dflt
                } else {
                    o
                }
            },
            None => dflt,
        },
        None => dflt,
    }
}

/// The options of each parameter.
pub open spec fn options_of(intents: Seq<NamedIntent>, script: Seq<char>, names: Seq<Seq<char>>) -> Seq<
    Seq<(Seq<char>, Seq<char>)>,
> {
    names.map_values(|p: Seq<char>| param_options(intents, script, p))
}

/// The number of options of each parameter.
pub open spec fn option_lens(opts: Seq<Seq<(Seq<char>, Seq<char>)>>) -> Seq<nat> {
    opts.map_values(|o: Seq<(Seq<char>, Seq<char>)>| o.len())
}

/// The phrase for a choice of options: each of the first `n` references
/// replaced by its chosen spoken form.
pub open spec fn case_input(
    tpl: Seq<char>,
    names: Seq<Seq<char>>,
    opts: Seq<Seq<(Seq<char>, Seq<char>)>>,
    t: Seq<int>,
    n: int,
) -> Seq<char>
    decreases n,
{
    if n <= 0 {
        tpl
    } else {
        replace_sub(case_input(tpl, names, opts, t, n - 1), braced(names[n - 1]), opts[n - 1][t[n - 1]].0)
    }
}

/// The expected values for a choice of options, over the first `n`
/// references.
pub open spec fn case_expected(
    names: Seq<Seq<char>>,
    opts: Seq<Seq<(Seq<char>, Seq<char>)>>,
    t: Seq<int>,
    n: int,
) -> Seq<(Seq<char>, Seq<char>)>
    decreases n,
{
    if n <= 0 {
        seq![]
    } else {
        pairs_insert(case_expected(names, opts, t, n - 1), names[n - 1], opts[n - 1][t[n - 1]].1)
    }
}

/// The test phrases of one sentence variant: the variant itself when it
/// has no references, else one phrase per combination of options, the
/// first reference varying slowest.
pub open spec fn template_cases(intents: Seq<NamedIntent>, script: Seq<char>, tpl: Seq<char>) -> Seq<CaseView> {
    let names = ref_names(tpl);
    if names.len() == 0 {
        seq![(tpl, seq![])]
    } else {
        let opts = options_of(intents, script, names);
        cart_idx(option_lens(opts)).map_values(
            |t: Seq<int>|
                (
                    case_input(tpl, names, opts, t, names.len() as int),
                    case_expected(names, opts, t, names.len() as int),
                ),
        )
    }
}

/// The phrases of the variants from `i` on, appended to `acc`, stopping
/// before a variant once `max` phrases exist.
pub open spec fn gen_cases(
    intents: Seq<NamedIntent>,
    script: Seq<char>,
    tpls: Seq<Seq<char>>,
    i: int,
    acc: Seq<CaseView>,
    max: int,
) -> Seq<CaseView>
    decreases tpls.len() - i,
{
    if i < 0 || i >= tpls.len() || acc.len() >= max {
        acc
    } else {
        gen_cases(intents, script, tpls, i + 1, acc + template_cases(intents, script, tpls[i]), max)
    }
}

/// Whether no earlier phrase has the same text.
#[verifier::opaque]
pub open spec fn first_of(g: Seq<CaseView>, q: int) -> bool {
    forall|p: int| 0 <= p < q ==> (#[trigger] g[p]).0 != g[q].0
}

/// The phrases are in strictly increasing order of text.
#[verifier::opaque]
pub open spec fn cases_sorted(r: Seq<CaseView>) -> bool {
    forall|i: int, j: int| 0 <= i < j < r.len() ==> lex_lt((#[trigger] r[i]).0, (#[trigger] r[j]).0)
}

/// Some phrase of `g` equals `c` and is the first with its text.
pub open spec fn has_first(g: Seq<CaseView>, c: CaseView) -> bool {
    exists|q: int| 0 <= q < g.len() && #[trigger] g[q] == c && first_of(g, q)
}

/// Each phrase of `r` is the first occurrence of its text in `g`.
#[verifier::opaque]
pub open spec fn cases_first(r: Seq<CaseView>, g: Seq<CaseView>) -> bool {
    forall|i: int| 0 <= i < r.len() ==> has_first(g, #[trigger] r[i])
}

/// Some phrase of `r` has the text.
pub open spec fn has_text(r: Seq<CaseView>, t: Seq<char>) -> bool {
    exists|i: int| 0 <= i < r.len() && (#[trigger] r[i]).0 == t
}

/// Each text of `g` is the text of a phrase of `r`.
#[verifier::opaque]
pub open spec fn cases_cover(r: Seq<CaseView>, g: Seq<CaseView>) -> bool {
    forall|q: int| 0 <= q < g.len() ==> has_text(r, (#[trigger] g[q]).0)
}

/// `r` holds the phrases of `g` sorted by text, each text once, with the
/// expected values of its first occurrence.
pub open spec fn sorted_unique_cases(r: Seq<CaseView>, g: Seq<CaseView>) -> bool {
    &&& cases_sorted(r)
    &&& cases_first(r, g)
    &&& cases_cover(r, g)
}

/// The texts of phrases, in order.
pub open spec fn texts(r: Seq<CaseView>) -> Seq<Seq<char>> {
    r.map_values(|c: CaseView| c.0)
}

/// The phrases for a generated list are determined by it: two lists that
/// both hold its phrases sorted by text, once each with their first
/// expected values, are the same list.
pub proof fn lemma_sorted_cases_unique(r1: Seq<CaseView>, r2: Seq<CaseView>, g: Seq<CaseView>)
    requires
        sorted_unique_cases(r1, g),
        sorted_unique_cases(r2, g),
    ensures
        r1 == r2,
{
    reveal(cases_sorted);
    reveal(cases_first);
    reveal(cases_cover);
    let t1 = texts(r1);
    let t2 = texts(r2);
    assert(sorted_strict(t1)) by {
        assert forall|i: int, j: int| 0 <= i < j < t1.len() implies lex_lt(#[trigger] t1[i], #[trigger] t1[j]) by {
            assert(lex_lt(r1[i].0, r1[j].0));
        }
    }
    assert(sorted_strict(t2)) by {
        assert forall|i: int, j: int| 0 <= i < j < t2.len() implies lex_lt(#[trigger] t2[i], #[trigger] t2[j]) by {
            assert(lex_lt(r2[i].0, r2[j].0));
        }
    }
    assert forall|t: Seq<char>| t1.to_set().contains(t) implies t2.to_set().contains(t) by {
        let i = choose|i: int| 0 <= i < t1.len() && t1[i] == t;
        assert(has_first(g, r1[i]));
        let q = choose|q: int| 0 <= q < g.len() && #[trigger] g[q] == r1[i] && first_of(g, q);
        assert(has_text(r2, g[q].0));
        let k = choose|k: int| 0 <= k < r2.len() && (#[trigger] r2[k]).0 == g[q].0;
        assert(t2[k] == t);
    }
    assert forall|t: Seq<char>| t2.to_set().contains(t) implies t1.to_set().contains(t) by {
        let i = choose|i: int| 0 <= i < t2.len() && t2[i] == t;
        assert(has_first(g, r2[i]));
        let q = choose|q: int| 0 <= q < g.len() && #[trigger] g[q] == r2[i] && first_of(g, q);
        assert(has_text(r1, g[q].0));
        let k = choose|k: int| 0 <= k < r1.len() && (#[trigger] r1[k]).0 == g[q].0;
        assert(t1[k] == t);
    }
    assert(t1.to_set() =~= t2.to_set());
    lemma_sorted_strict_unique(t1, t2);
    assert(r1.len() == t1.len() && r2.len() == t2.len());
    assert(r1.len() == r2.len());
    assert forall|i: int| 0 <= i < r1.len() implies r1[i] == r2[i] by {
        assert(t1[i] == t2[i]);
        assert(has_first(g, r1[i]));
        assert(has_first(g, r2[i]));
        let q1 = choose|q: int| 0 <= q < g.len() && #[trigger] g[q] == r1[i] && first_of(g, q);
        let q2 = choose|q: int| 0 <= q < g.len() && #[trigger] g[q] == r2[i] && first_of(g, q);
        reveal(first_of);
        if q1 < q2 {
            assert(g[q1].0 != g[q2].0);
        } else if q2 < q1 {
            assert(g[q2].0 != g[q1].0);
        }
    }
    assert(r1 =~= r2);
}

/// The test phrases of a sentence: the generated phrases sorted by text,
/// each text once with its first expected values.
pub open spec fn test_cases_spec(intents: Seq<NamedIntent>, script: Seq<char>, sentence: Seq<char>, max: int) -> Seq<
    CaseView,
> {
    choose|r: Seq<CaseView>| sorted_unique_cases(r, gen_cases(intents, script, expand_runtime(sentence), 0, seq![], max))
}

/// Whether one text sorts before another.
fn text_less(a: &String, b: &String) -> (r: bool)
    ensures
        r == lex_lt(a@, b@),
{
    let ac = chars_of(a.as_str());
    let bc = chars_of(b.as_str());
    lex_less(ac.as_slice(), bc.as_slice())
}

/// A copy of a list of pairs.
fn copy_pairs(v: &Vec<(String, String)>) -> (r: Vec<(String, String)>)
    ensures
        pair_views(r@) == pair_views(v@),
{
    let mut r: Vec<(String, String)> = Vec::new();
    let mut k: usize = 0;
    while k < v.len()
        invariant
            0 <= k <= v@.len(),
            pair_views(r@) == pair_views(v@).take(k as int),
        decreases v@.len() - k,
    {
        let ghost before = pair_views(r@);
        r.push((copy_string(&v[k].0), copy_string(&v[k].1)));
        assert(pair_views(r@) =~= before.push(pair_views(v@)[k as int]));
        assert(pair_views(v@).take(k + 1) =~= pair_views(v@).take(k as int).push(pair_views(v@)[k as int]));
        k = k + 1;
    }
    assert(pair_views(v@).take(v@.len() as int) =~= pair_views(v@));
    r
}

/// A first occurrence stays one when a phrase is appended.
proof fn lemma_first_of_push(g: Seq<CaseView>, cv: CaseView, q: int)
    requires
        0 <= q < g.len(),
        first_of(g, q),
    ensures
        first_of(g.push(cv), q),
{
    reveal(first_of);
    assert forall|pp: int| 0 <= pp < q implies (#[trigger] g.push(cv)[pp]).0 != g.push(cv)[q].0 by {
        assert(g.push(cv)[pp] == g[pp]);
    }
}

/// Appending a phrase keeps every listed phrase a first occurrence.
proof fn lemma_first_push(r: Seq<CaseView>, g: Seq<CaseView>, cv: CaseView)
    requires
        cases_first(r, g),
    ensures
        cases_first(r, g.push(cv)),
{
    reveal(cases_first);
    assert forall|i: int| 0 <= i < r.len() implies has_first(g.push(cv), #[trigger] r[i]) by {
        assert(has_first(g, r[i]));
        let q = choose|q: int| 0 <= q < g.len() && #[trigger] g[q] == r[i] && first_of(g, q);
        assert(g.push(cv)[q] == g[q]);
        lemma_first_of_push(g, cv, q);
    }
}

/// Appending a phrase whose text is listed keeps every text covered.
proof fn lemma_cover_push(r: Seq<CaseView>, g: Seq<CaseView>, cv: CaseView, p: int)
    requires
        cases_cover(r, g),
        0 <= p < r.len(),
        r[p].0 == cv.0,
    ensures
        cases_cover(r, g.push(cv)),
{
    reveal(cases_cover);
    assert forall|q: int| 0 <= q < g.push(cv).len() implies has_text(r, (#[trigger] g.push(cv)[q]).0) by {
        if q < g.len() {
            assert(g.push(cv)[q] == g[q]);
            assert(has_text(r, g[q].0));
        } else {
            assert(r[p].0 == g.push(cv)[q].0);
        }
    }
}

/// A phrase whose text is already listed leaves the list as it is.
proof fn lemma_case_known(old_v: Seq<CaseView>, g: Seq<CaseView>, cv: CaseView, p: int)
    requires
        sorted_unique_cases(old_v, g),
        0 <= p < old_v.len(),
        old_v[p].0 == cv.0,
    ensures
        sorted_unique_cases(old_v, g.push(cv)),
{
    lemma_first_push(old_v, g, cv);
    lemma_cover_push(old_v, g, cv, p);
}

/// A text not listed does not occur.
proof fn lemma_not_listed(r: Seq<CaseView>, g: Seq<CaseView>, t: Seq<char>)
    requires
        cases_cover(r, g),
        forall|k: int| 0 <= k < r.len() ==> (#[trigger] r[k]).0 != t,
    ensures
        forall|q: int| 0 <= q < g.len() ==> (#[trigger] g[q]).0 != t,
{
    reveal(cases_cover);
    assert forall|q: int| 0 <= q < g.len() implies (#[trigger] g[q]).0 != t by {
        assert(has_text(r, g[q].0));
    }
}

/// Inserting a phrase with a new text keeps every listed phrase a first
/// occurrence, the new one included.
proof fn lemma_first_insert(old_v: Seq<CaseView>, g: Seq<CaseView>, cv: CaseView, p: int)
    requires
        cases_first(old_v, g),
        0 <= p <= old_v.len(),
        forall|q: int| 0 <= q < g.len() ==> (#[trigger] g[q]).0 != cv.0,
    ensures
        cases_first(old_v.insert(p, cv), g.push(cv)),
{
    assert(first_of(g.push(cv), g.len() as int)) by {
        reveal(first_of);
        assert forall|pp: int| 0 <= pp < g.len() implies (#[trigger] g.push(cv)[pp]).0 != g.push(cv)[g.len() as int].0 by {
            assert(g.push(cv)[pp] == g[pp]);
        }
    }
    reveal(cases_first);
    assert forall|i: int| 0 <= i < old_v.insert(p, cv).len() implies has_first(g.push(cv), #[trigger] old_v.insert(p, cv)[i]) by {
        if i == p {
            assert(g.push(cv)[g.len() as int] == old_v.insert(p, cv)[i]);
        } else {
            let k = if i < p {
                i
            } else {
                i - 1
            };
            assert(old_v.insert(p, cv)[i] == old_v[k]);
            assert(has_first(g, old_v[k]));
            let q = choose|q: int| 0 <= q < g.len() && #[trigger] g[q] == old_v[k] && first_of(g, q);
            assert(g.push(cv)[q] == g[q]);
            lemma_first_of_push(g, cv, q);
        }
    }
}

/// Inserting a phrase keeps every text covered, the new one included.
proof fn lemma_cover_insert(old_v: Seq<CaseView>, g: Seq<CaseView>, cv: CaseView, p: int)
    requires
        cases_cover(old_v, g),
        0 <= p <= old_v.len(),
    ensures
        cases_cover(old_v.insert(p, cv), g.push(cv)),
{
    reveal(cases_cover);
    assert forall|q: int| 0 <= q < g.push(cv).len() implies has_text(old_v.insert(p, cv), (#[trigger] g.push(cv)[q]).0) by {
        if q == g.len() {
            assert(old_v.insert(p, cv)[p].0 == g.push(cv)[q].0);
        } else {
            assert(g.push(cv)[q] == g[q]);
            assert(has_text(old_v, g[q].0));
            let i = choose|i: int| 0 <= i < old_v.len() && (#[trigger] old_v[i]).0 == g[q].0;
            if i < p {
                assert(old_v.insert(p, cv)[i] == old_v[i]);
            } else {
                assert(old_v.insert(p, cv)[i + 1] == old_v[i]);
            }
        }
    }
}

/// Inserting before the first text not below the new one keeps the list
/// sorted.
proof fn lemma_case_sorted(old_v: Seq<CaseView>, cv: CaseView, p: int)
    requires
        cases_sorted(old_v),
        0 <= p <= old_v.len(),
        forall|k: int| 0 <= k < p ==> lex_lt((#[trigger] old_v[k]).0, cv.0),
        p < old_v.len() ==> lex_lt(cv.0, old_v[p].0),
    ensures
        cases_sorted(old_v.insert(p, cv)),
{
    reveal(cases_sorted);
    assert forall|i: int, j: int| 0 <= i < j < old_v.insert(p, cv).len() implies lex_lt((#[trigger] old_v.insert(p, cv)[i]).0, (#[trigger] old_v.insert(p, cv)[j]).0) by {
        if j < p {
            assert(old_v.insert(p, cv)[i] == old_v[i] && old_v.insert(p, cv)[j] == old_v[j]);
        } else if j == p {
            assert(old_v.insert(p, cv)[i] == old_v[i]);
        } else if i < p {
            assert(old_v.insert(p, cv)[i] == old_v[i] && old_v.insert(p, cv)[j] == old_v[j - 1]);
            if j - 1 == p {
                lemma_lex_transitive(old_v[i].0, cv.0, old_v[j - 1].0);
            } else {
                lemma_lex_transitive(old_v[i].0, cv.0, old_v[p].0);
                lemma_lex_transitive(old_v[i].0, old_v[p].0, old_v[j - 1].0);
            }
        } else if i == p {
            assert(old_v.insert(p, cv)[j] == old_v[j - 1]);
            if j - 1 > p {
                lemma_lex_transitive(cv.0, old_v[p].0, old_v[j - 1].0);
            }
        } else {
            assert(old_v.insert(p, cv)[i] == old_v[i - 1] && old_v.insert(p, cv)[j] == old_v[j - 1]);
        }
    }
}

/// A phrase with a new text, inserted in order, is its text's first
/// occurrence.
proof fn lemma_case_new(old_v: Seq<CaseView>, g: Seq<CaseView>, cv: CaseView, p: int)
    requires
        sorted_unique_cases(old_v, g),
        0 <= p <= old_v.len(),
        forall|k: int| 0 <= k < old_v.len() ==> (#[trigger] old_v[k]).0 != cv.0,
        forall|k: int| 0 <= k < p ==> lex_lt((#[trigger] old_v[k]).0, cv.0),
        p < old_v.len() ==> lex_lt(cv.0, old_v[p].0),
    ensures
        sorted_unique_cases(old_v.insert(p, cv), g.push(cv)),
{
    lemma_case_sorted(old_v, cv, p);
    lemma_not_listed(old_v, g, cv.0);
    lemma_first_insert(old_v, g, cv, p);
    lemma_cover_insert(old_v, g, cv, p);
}

/// Adds a phrase to a list sorted by text unless its text is there.
fn insert_case(r: &mut Vec<(String, Vec<(String, String)>)>, c: (String, Vec<(String, String)>), Ghost(g): Ghost<Seq<CaseView>>)
    requires
        sorted_unique_cases(cases_view(old(r)@), g),
    ensures
        sorted_unique_cases(cases_view(final(r)@), g.push(case_view(c))),
{
    let ghost old_v = cases_view(r@);
    let ghost cv = case_view(c);
    let mut p: usize = 0;
    while p < r.len() && text_less(&r[p].0, &c.0)
        invariant
            0 <= p <= r@.len(),
            cases_view(r@) == old_v,
            cv == case_view(c),
            forall|k: int| 0 <= k < p ==> lex_lt((#[trigger] old_v[k]).0, cv.0),
        decreases r@.len() - p,
    {
        assert(old_v[p as int].0 == r@[p as int].0@);
        p = p + 1;
    }
    if p < r.len() && str_eq(r[p].0.as_str(), c.0.as_str()) {
        proof {
            assert(old_v[p as int].0 == cv.0);
            lemma_case_known(old_v, g, cv, p as int);
        }
        return;
    }
    proof {
        if p < old_v.len() {
            assert(old_v[p as int].0 == r@[p as int].0@);
            assert(!lex_lt(old_v[p as int].0, cv.0));
            lemma_lex_total(old_v[p as int].0, cv.0);
        }
        assert forall|k: int| 0 <= k < old_v.len() implies (#[trigger] old_v[k]).0 != cv.0 by {
            lemma_lex_irreflexive(cv.0);
            if k > p {
                reveal(cases_sorted);
                assert(lex_lt(old_v[p as int].0, old_v[k].0));
                lemma_lex_transitive(cv.0, old_v[p as int].0, old_v[k].0);
            }
        }
        lemma_case_new(old_v, g, cv, p as int);
    }
    r.insert(p, c);
    assert(cases_view(r@) =~= old_v.insert(p as int, cv));
}

/// The phrases sorted by text, each text once with its first expected
/// values.
fn sort_unique_cases(raw: &Vec<(String, Vec<(String, String)>)>) -> (r: Vec<(String, Vec<(String, String)>)>)
    ensures
        sorted_unique_cases(cases_view(r@), cases_view(raw@)),
{
    let ghost gv = cases_view(raw@);
    let mut r: Vec<(String, Vec<(String, String)>)> = Vec::new();
    assert(gv.take(0) =~= seq![]);
    assert(cases_view(r@) =~= seq![]);
    assert(sorted_unique_cases(cases_view(r@), gv.take(0))) by {
        reveal(cases_sorted);
        reveal(cases_first);
        reveal(cases_cover);
    }
    let mut q: usize = 0;
    while q < raw.len()
        invariant
            0 <= q <= raw@.len(),
            gv == cases_view(raw@),
            sorted_unique_cases(cases_view(r@), gv.take(q as int)),
        decreases raw@.len() - q,
    {
        let c = (copy_string(&raw[q].0), copy_pairs(&raw[q].1));
        assert(case_view(c) == gv[q as int]);
        insert_case(&mut r, c, Ghost(gv.take(q as int)));
        assert(gv.take(q as int).push(gv[q as int]) =~= gv.take(q + 1));
        q = q + 1;
    }
    assert(gv.take(raw@.len() as int) =~= gv);
    r
}

/// The views of the options of several parameters.
pub open spec fn opts_view(v: Seq<Vec<(String, String)>>) -> Seq<Seq<(Seq<char>, Seq<char>)>> {
    v.map_values(|o: Vec<(String, String)>| pair_views(o@))
}

/// Every literal of every list entry, with the entry's value.
fn value_options_of(values: &Vec<EntityValue>) -> (r: Vec<(String, String)>)
    ensures
        pair_views(r@) == value_options(values@),
{
    let mut r: Vec<(String, String)> = Vec::new();
    let mut k: usize = 0;
    assert(values@.take(0) =~= seq![]);
    while k < values.len()
        invariant
            0 <= k <= values@.len(),
            pair_views(r@) == value_options(values@.take(k as int)),
        decreases values@.len() - k,
    {
        let lits = expand_list_entry(values[k].input.as_str());
        let ghost base = pair_views(r@);
        let ghost out = values@[k as int].out@;
        let ghost lv = entry_literals(values@[k as int].input@).map_values(|l: Seq<char>| (l, out));
        let mut m: usize = 0;
        while m < lits.len()
            invariant
                0 <= m <= lits@.len(),
                k < values@.len(),
                out == values@[k as int].out@,
                views(lits@) == entry_literals(values@[k as int].input@),
                lv == entry_literals(values@[k as int].input@).map_values(|l: Seq<char>| (l, out)),
                pair_views(r@) == base + lv.take(m as int),
            decreases lits@.len() - m,
        {
            let ghost before = pair_views(r@);
            r.push((copy_string(&lits[m]), copy_string(&values[k].out)));
            assert(views(lits@)[m as int] == lits@[m as int]@);
            assert(pair_views(r@) =~= before.push(lv[m as int]));
            assert(lv.take(m + 1) =~= lv.take(m as int).push(lv[m as int]));
            m = m + 1;
        }
        assert(lv.take(lits@.len() as int) =~= lv);
        let ghost t1 = values@.take(k + 1);
        assert(t1.drop_last() =~= values@.take(k as int));
        assert(t1.last() == values@[k as int]);
        k = k + 1;
    }
    assert(values@.take(values@.len() as int) =~= values@);
    r
}

/// A spoken form that is also its value.
fn dup_pair(s: &str) -> (r: (String, String))
    ensures
        r.0@ == s@,
        r.1@ == s@,
{
    (str_to_owned(s), str_to_owned(s))
}

/// The text written `<name>`.
fn angled_string(name: &str) -> (r: String)
    ensures
        r@ == angled(name@),
{
    let mut v: Vec<char> = Vec::new();
    v.push('<');
    push_str(&mut v, name);
    v.push('>');
    assert(v@ =~= angled(name@));
    string_from_chars(v.as_slice())
}

/// A phrase for one choice of options.
fn build_case(
    tpl: &str,
    names: &Vec<String>,
    opts: &Vec<Vec<(String, String)>>,
    t: &Vec<usize>,
) -> (r: (String, Vec<(String, String)>))
    requires
        opts@.len() == names@.len(),
        t@.len() == names@.len(),
        forall|k: int| 0 <= k < t@.len() ==> (#[trigger] t@[k]) < opts@[k]@.len(),
    ensures
        case_view(r) == (
            case_input(tpl@, views(names@), opts_view(opts@), tuple_view(*t), names@.len() as int),
            case_expected(views(names@), opts_view(opts@), tuple_view(*t), names@.len() as int),
        ),
{
    let ghost nv = views(names@);
    let ghost ov = opts_view(opts@);
    let ghost tv = tuple_view(*t);
    let mut cur: Vec<char> = chars_of(tpl);
    let mut exp: Vec<(String, String)> = Vec::new();
    let mut k: usize = 0;
    while k < names.len()
        invariant
            0 <= k <= names@.len(),
            opts@.len() == names@.len(),
            t@.len() == names@.len(),
            forall|m: int| 0 <= m < t@.len() ==> (#[trigger] t@[m]) < opts@[m]@.len(),
            nv == views(names@),
            ov == opts_view(opts@),
            tv == tuple_view(*t),
            cur@ == case_input(tpl@, nv, ov, tv, k as int),
            pair_views(exp@) == case_expected(nv, ov, tv, k as int),
        decreases names@.len() - k,
    {
        let ti = t[k];
        assert(ti < opts@[k as int]@.len());
        let f = braced_chars(names[k].as_str());
        let lit = chars_of(opts[k][ti].0.as_str());
        assert(nv[k as int] == names@[k as int]@);
        assert(ov[k as int] == pair_views(opts@[k as int]@));
        assert(tv[k as int] == ti as int);
        assert(ov[k as int][ti as int].0 == lit@);
        cur = replace_sub_chars(cur.as_slice(), f.as_slice(), lit.as_slice());
        insert_pair(&mut exp, copy_string(&names[k]), copy_string(&opts[k][ti].1));
        k = k + 1;
    }
    (string_from_chars(cur.as_slice()), exp)
}

impl TestRunner {
    /// The spoken forms and values tried for a parameter (see
    /// `param_options`).
    fn options_for(&self, script_name: &str, p: &str) -> (r: Vec<(String, String)>)
        ensures
            pair_views(r@) == param_options(self.intent_data@, script_name@, p@),
    {
        let mut o: Vec<(String, String)> = Vec::new();
        match find_intent(&self.intent_data, script_name) {
            Some(i) => match find_list(&self.intent_data[i].intent.lists, p) {
                Some(l) => {
                    let lc = &self.intent_data[i].intent.lists[l].list;
                    if lc.wildcard {
                        o.push(dup_pair("test"));
                        o.push(dup_pair("star wars"));
                        o.push(dup_pair("123"));
                        assert(pair_views(o@) =~= wildcard_samples());
                    } else {
                        o = value_options_of(&lc.values);
                    }
                },
                None => {},
            },
            None => {},
        }
        if o.len() == 0 {
            let a = angled_string(p);
            let a2 = angled_string(p);
            o.push((a, a2));
            assert(pair_views(o@) =~= seq![dup(angled(p@))]);
        }
        o
    }

    /// The test phrases of one sentence variant (see `template_cases`).
    fn template_cases_of(&self, script_name: &str, tpl: &str) -> (r: Vec<(String, Vec<(String, String)>)>)
        ensures
            cases_view(r@) == template_cases(self.intent_data@, script_name@, tpl@),
    {
        let names = param_refs(tpl);
        let mut out: Vec<(String, Vec<(String, String)>)> = Vec::new();
        if names.len() == 0 {
            let none: Vec<(String, String)> = Vec::new();
            assert(pair_views(none@) =~= seq![]);
            out.push((str_to_owned(tpl), none));
            assert(cases_view(out@) =~= seq![(tpl@, seq![])]);
            return out;
        }
        let ghost nv = views(names@);
        let mut opts: Vec<Vec<(String, String)>> = Vec::new();
        let mut lens: Vec<usize> = Vec::new();
        let mut k: usize = 0;
        while k < names.len()
            invariant
                0 <= k <= names@.len(),
                nv == views(names@),
                opts_view(opts@) == options_of(self.intent_data@, script_name@, nv).take(k as int),
                lens@.len() == k,
                opts@.len() == k,
                forall|m: int| 0 <= m < k ==> (#[trigger] lens@[m]) == opts@[m]@.len(),
            decreases names@.len() - k,
        {
            let o = self.options_for(script_name, names[k].as_str());
            let ghost before = opts_view(opts@);
            lens.push(o.len());
            opts.push(o);
            assert(nv[k as int] == names@[k as int]@);
            assert(opts_view(opts@) =~= before.push(pair_views(o@)));
            assert(options_of(self.intent_data@, script_name@, nv).take(k + 1) =~= options_of(
                self.intent_data@,
                script_name@,
                nv,
            ).take(k as int).push(param_options(self.intent_data@, script_name@, nv[k as int])));
            k = k + 1;
        }
        let ghost ov = options_of(self.intent_data@, script_name@, nv);
        assert(ov.take(names@.len() as int) =~= ov);
        let ghost ln = lens@.map_values(|n: usize| n as nat);
        assert(ln =~= option_lens(ov));
        let tuples = index_tuples(&lens);
        proof {
            lemma_cart_idx_valid(ln);
        }
        let ghost cl = cart_idx(ln);
        let ghost want = cl.map_values(
            |t: Seq<int>|
                (
                    case_input(tpl@, nv, ov, t, nv.len() as int),
                    case_expected(nv, ov, t, nv.len() as int),
                ),
        );
        let mut q: usize = 0;
        while q < tuples.len()
            invariant
                0 <= q <= tuples@.len(),
                tuples@.map_values(|t: Vec<usize>| tuple_view(t)) == cl,
                forall|m: int| 0 <= m < cl.len() ==> valid_tuple(#[trigger] cl[m], ln),
                ln == lens@.map_values(|n: usize| n as nat),
                lens@.len() == names@.len(),
                opts@.len() == names@.len(),
                forall|m: int| 0 <= m < names@.len() ==> (#[trigger] lens@[m]) == opts@[m]@.len(),
                nv == views(names@),
                opts_view(opts@) == ov,
                want == cl.map_values(
                    |t: Seq<int>|
                        (
                            case_input(tpl@, nv, ov, t, nv.len() as int),
                            case_expected(nv, ov, t, nv.len() as int),
                        ),
                ),
                cases_view(out@) == want.take(q as int),
            decreases tuples@.len() - q,
        {
            let t = &tuples[q];
            assert(tuple_view(*t) == cl[q as int]);
            assert(valid_tuple(cl[q as int], ln));
            assert forall|m: int| 0 <= m < t@.len() implies (#[trigger] t@[m]) < opts@[m]@.len() by {
                assert(tuple_view(*t)[m] == t@[m] as int);
                assert(ln[m] == lens@[m] as nat);
            }
            let c = build_case(tpl, &names, &opts, t);
            let ghost before = cases_view(out@);
            out.push(c);
            assert(cases_view(out@) =~= before.push(case_view(c)));
            assert(want.take(q + 1) =~= want.take(q as int).push(want[q as int]));
            q = q + 1;
        }
        assert(want.take(tuples@.len() as int) =~= want);
        out
    }

    /// The test phrases of a sentence: those of each variant in turn,
    /// stopping before a variant once `max_variants` exist; then sorted by
    /// text, each text once with the expected values of its first
    /// occurrence (see `sorted_unique_cases`).
    pub fn generate_param_test_cases(&self, script_name: &str, sentence: &str) -> (r: Vec<(String, Vec<(String, String)>)>)
        ensures
            cases_view(r@) == test_cases_spec(self.intent_data@, script_name@, sentence@, self.max_variants as int),
            sorted_unique_cases(
                cases_view(r@),
                gen_cases(
                    self.intent_data@,
                    script_name@,
                    expand_runtime(sentence@),
                    0,
                    seq![],
                    self.max_variants as int,
                ),
            ),
    {
        let tpls = self.expand_optional_words(sentence);
        let ghost tv = views(tpls@);
        let mut raw: Vec<(String, Vec<(String, String)>)> = Vec::new();
        let mut i: usize = 0;
        assert(cases_view(raw@) =~= seq![]);
        while i < tpls.len() && raw.len() < self.max_variants
            invariant
                0 <= i <= tpls@.len(),
                tv == views(tpls@),
                tv == expand_runtime(sentence@),
                gen_cases(self.intent_data@, script_name@, tv, 0, seq![], self.max_variants as int)
                    == gen_cases(self.intent_data@, script_name@, tv, i as int, cases_view(raw@), self.max_variants as int),
            decreases tpls@.len() - i,
        {
            let mut tc = self.template_cases_of(script_name, tpls[i].as_str());
            let ghost before = cases_view(raw@);
            let ghost added = cases_view(tc@);
            raw.append(&mut tc);
            assert(tv[i as int] == tpls@[i as int]@);
            assert(cases_view(raw@) =~= before + added);
            i = i + 1;
        }
        let r = sort_unique_cases(&raw);
        proof {
            let g = gen_cases(self.intent_data@, script_name@, tv, 0, seq![], self.max_variants as int);
            let c = test_cases_spec(self.intent_data@, script_name@, sentence@, self.max_variants as int);
            assert(sorted_unique_cases(cases_view(r@), g));
            assert(sorted_unique_cases(c, g));
            lemma_sorted_cases_unique(cases_view(r@), c, g);
        }
        r
    }
}

// ---------------------------------------------------------------------------
// Parameter extraction
// ---------------------------------------------------------------------------

/// The named groups that took part in a match, as pairs set in group
/// order.
pub open spec fn named_pairs(groups: Seq<(Option<Seq<char>>, Option<Seq<char>>)>) -> Seq<(Seq<char>, Seq<char>)>
    decreases groups.len(),
{
    if groups.len() == 0 {
        seq![]
    } else {
        let r = named_pairs(groups.drop_last());
        let gl = groups.last();
        if gl.0 is Some && gl.1 is Some {
            pairs_insert(r, gl.0->0, gl.1->0)
        } else {
            r
        }
    }
}

/// The named parameters a pattern captures from a text, if it matches.
pub open spec fn regex_params(pattern: Seq<char>, text: Seq<char>) -> Option<Seq<(Seq<char>, Seq<char>)>> {
    match regex_named_groups(pattern, text) {
        Some(g) => Some(named_pairs(g)),
        None => None,
    }
}

/// Each captured value resolved (see `test_resolve_spec`).
pub open spec fn resolve_pairs(
    intents: Seq<NamedIntent>,
    script: Seq<char>,
    v: Seq<(Seq<char>, Seq<char>)>,
) -> Seq<(Seq<char>, Seq<char>)> {
    v.map_values(|p: (Seq<char>, Seq<char>)| (p.0, test_resolve_spec(intents, script, p.0, p.1)))
}

/// The text parameters are extracted from: the input normalized, then
/// with the script's substitutions applied.
pub open spec fn extraction_text(intents: Seq<NamedIntent>, script: Seq<char>, input: Seq<char>) -> Seq<char> {
    let subs = subs_of(intents, script);
    rts_fold(subs, lowercase(lowercase(strip_marks(input))), subs.len() as int).0
}

/// Whether a variant's test expression matches the text and gives the
/// expected values once resolved.
pub open spec fn variant_extracts(
    intents: Seq<NamedIntent>,
    script: Seq<char>,
    v: Seq<char>,
    text: Seq<char>,
    expected: Seq<(Seq<char>, Seq<char>)>,
) -> bool {
    match regex_params(test_regex(intents, script, v), text) {
        Some(a) => same_params(resolve_pairs(intents, script, a), expected),
        None => false,
    }
}

/// Whether some variant of some sentence of the script extracts the
/// expected values from the input.
pub open spec fn extraction_ok(
    intents: Seq<NamedIntent>,
    script: Seq<char>,
    input: Seq<char>,
    expected: Seq<(Seq<char>, Seq<char>)>,
) -> bool {
    match intent_pos(intents, script) {
        Some(i) => exists|j: int, k: int|
            0 <= j < intents[i].intent.sentences@.len() && 0 <= k < expand_runtime(
                intents[i].intent.sentences@[j]@,
            ).len() && #[trigger] variant_extracts(
                intents,
                script,
                expand_runtime(intents[i].intent.sentences@[j]@)[k],
                extraction_text(intents, script, input),
                expected,
            ),
        None => false,
    }
}

impl TestRunner {
    /// The named parameters a pattern captures from the input: each named
    /// group that took part, with its text; nothing when the pattern does
    /// not compile or does not match.
    pub fn extract_params_from_regex(pattern: &str, input: &str) -> (r: Option<Vec<(String, String)>>)
        ensures
            match r {
                Some(v) => regex_params(pattern@, input@) == Some(pair_views(v@)),
                None => regex_params(pattern@, input@) is None,
            },
    {
        let groups = match regex_named_captures(pattern, input) {
            Some(g) => g,
            None => return None,
        };
        let ghost gv = named_view(groups);
        let mut map: Vec<(String, String)> = Vec::new();
        let mut k: usize = 0;
        assert(gv.take(0) =~= seq![]);
        assert(pair_views(map@) =~= seq![]);
        while k < groups.len()
            invariant
                0 <= k <= groups@.len(),
                gv == named_view(groups),
                pair_views(map@) == named_pairs(gv.take(k as int)),
            decreases groups@.len() - k,
        {
            let ghost t1 = gv.take(k + 1);
            assert(t1.drop_last() =~= gv.take(k as int));
            assert(t1.last() == gv[k as int]);
            match (&groups[k].0, &groups[k].1) {
                (Some(n), Some(m)) => {
                    insert_pair(&mut map, copy_string(n), copy_string(m));
                },
                _ => {},
            }
            k = k + 1;
        }
        assert(gv.take(groups@.len() as int) =~= gv);
        Some(map)
    }

    /// Each captured value resolved.
    fn resolve_all(&self, script_name: &str, v: &Vec<(String, String)>) -> (r: Vec<(String, String)>)
        ensures
            pair_views(r@) == resolve_pairs(self.intent_data@, script_name@, pair_views(v@)),
    {
        let ghost want = resolve_pairs(self.intent_data@, script_name@, pair_views(v@));
        let mut r: Vec<(String, String)> = Vec::new();
        let mut k: usize = 0;
        while k < v.len()
            invariant
                0 <= k <= v@.len(),
                want == resolve_pairs(self.intent_data@, script_name@, pair_views(v@)),
                pair_views(r@) == want.take(k as int),
            decreases v@.len() - k,
        {
            let val = self.resolve_entity(script_name, v[k].0.as_str(), v[k].1.as_str());
            let ghost before = pair_views(r@);
            r.push((copy_string(&v[k].0), val));
            assert(pair_views(r@) =~= before.push(want[k as int]));
            assert(want.take(k + 1) =~= want.take(k as int).push(want[k as int]));
            k = k + 1;
        }
        assert(want.take(v@.len() as int) =~= want);
        r
    }

    /// Whether some variant of some sentence of the script extracts the
    /// expected parameter values from the input (see `extraction_ok`).
    pub fn test_param_extraction(&self, script_name: &str, input: &str, expected: &Vec<(String, String)>) -> (b: bool)
        requires
            sentences_compile(self.intent_data@),
        ensures
            b == extraction_ok(self.intent_data@, script_name@, input@, pair_views(expected@)),
    {
        let normalized = self.normalize_input(input);
        let (resolved, _subs) = self.apply_real_time_substitutions(script_name, normalized.as_str());
        let i = match find_intent(&self.intent_data, script_name) {
            Some(i) => i,
            None => return false,
        };
        assert(resolved@ == extraction_text(self.intent_data@, script_name@, input@));
        let ghost ev = pair_views(expected@);
        let sentences = &self.intent_data[i].intent.sentences;
        let mut j: usize = 0;
        while j < sentences.len()
            invariant
                0 <= j <= sentences@.len(),
                i < self.intent_data@.len(),
                intent_pos(self.intent_data@, script_name@) == Some(i as int),
                sentences@ == self.intent_data@[i as int].intent.sentences@,
                sentences_compile(self.intent_data@),
                resolved@ == extraction_text(self.intent_data@, script_name@, input@),
                ev == pair_views(expected@),
                forall|q: int, k: int|
                    0 <= q < j && 0 <= k < expand_runtime(sentences@[q]@).len() ==> !#[trigger] variant_extracts(
                        self.intent_data@,
                        script_name@,
                        expand_runtime(sentences@[q]@)[k],
                        resolved@,
                        ev,
                    ),
            decreases sentences@.len() - j,
        {
            let vs = self.expand_optional_words(sentences[j].as_str());
            let mut k: usize = 0;
            while k < vs.len()
                invariant
                    0 <= k <= vs@.len(),
                    j < sentences@.len(),
                    i < self.intent_data@.len(),
                    intent_pos(self.intent_data@, script_name@) == Some(i as int),
                    sentences@ == self.intent_data@[i as int].intent.sentences@,
                    sentences_compile(self.intent_data@),
                    resolved@ == extraction_text(self.intent_data@, script_name@, input@),
                    ev == pair_views(expected@),
                    views(vs@) == expand_runtime(sentences@[j as int]@),
                    forall|m: int|
                        0 <= m < k ==> !#[trigger] variant_extracts(
                            self.intent_data@,
                            script_name@,
                            expand_runtime(sentences@[j as int]@)[m],
                            resolved@,
                            ev,
                        ),
                decreases vs@.len() - k,
            {
                assert(views(vs@)[k as int] == vs@[k as int]@);
                assert(braces_ok(expand_runtime(self.intent_data@[i as int].intent.sentences@[j as int]@)[k as int]));
                let pattern = self.build_test_regex(script_name, vs[k].as_str());
                match Self::extract_params_from_regex(pattern.as_str(), resolved.as_str()) {
                    Some(actual) => {
                        let res = self.resolve_all(script_name, &actual);
                        if same_pairs(&res, expected) {
                            assert(variant_extracts(
                                self.intent_data@,
                                script_name@,
                                expand_runtime(self.intent_data@[i as int].intent.sentences@[j as int]@)[k as int],
                                extraction_text(self.intent_data@, script_name@, input@),
                                pair_views(expected@),
                            ));
                            return true;
                        }
                    },
                    None => {},
                }
                k = k + 1;
            }
            j = j + 1;
        }
        false
    }
}

impl TestRunner {
    /// A sentence with sample values in place of its references, the
    /// first alternative of each group, and its optional words kept (see
    /// `resolved_sentence`).
    pub fn resolve_sentence(&self, script_name: &str, sentence: &str) -> (r: String)
        ensures
            r@ == resolved_sentence(sentence@),
    {
        let names = param_refs(sentence);
        let ghost nv = views(names@);
        let mut cur: Vec<char> = chars_of(sentence);
        let mut k: usize = 0;
        while k < names.len()
            invariant
                0 <= k <= names@.len(),
                nv == views(names@),
                cur@ == fill_samples(sentence@, nv, k as int),
            decreases names@.len() - k,
        {
            let f = braced_chars(names[k].as_str());
            let sample = sample_value(names[k].as_str());
            let sc = chars_of(sample.as_str());
            assert(nv[k as int] == names@[k as int]@);
            cur = replace_sub_chars(cur.as_slice(), f.as_slice(), sc.as_slice());
            k = k + 1;
        }
        let filled = string_from_chars(cur.as_slice());
        let r1 = regex_replace_all("\\(([^|)]+)(\\|[^)]+)?\\)", filled.as_str(), "$1");
        let r2 = regex_replace_all("\\[([^]]+)\\]", r1.as_str(), " $1 ");
        let r2c = chars_of(r2.as_str());
        let bar = chars_of(" | ");
        let sp = chars_of(" ");
        let dsp = chars_of("  ");
        proof {
            reveal_strlit(" | ");
            reveal_strlit("  ");
        }
        let r3 = replace_sub_chars(r2c.as_slice(), bar.as_slice(), sp.as_slice());
        let r4 = replace_sub_chars(r3.as_slice(), dsp.as_slice(), sp.as_slice());
        let t = trim_chars(r4.as_slice());
        string_from_chars(t.as_slice())
    }
}

// ---------------------------------------------------------------------------
// The test suite
// ---------------------------------------------------------------------------

/// What a line of the test log reports.
#[derive(Clone, Copy, PartialEq, Eq, Structural)]
pub enum LogKind {
    /// Testing of a script's sentences begins.
    ScriptStart,
    /// A generated phrase was checked.
    Positive,
    /// A phrase no script should understand was checked.
    Negative,
    /// A degenerate input was checked.
    Boundary,
}

/// A line of the test log.
pub struct SuiteEvent {
    pub kind: LogKind,
    /// The script tested (for a generated phrase or a script start), or the
    /// script that wrongly understood the input (empty when none did).
    pub script: String,
    /// The input checked (empty for a script start).
    pub input: String,
    pub passed: bool,
}

/// A log line as plain values.
pub type EventView = (LogKind, Seq<char>, Seq<char>, bool);

/// The view of a log line.
pub open spec fn event_view(e: SuiteEvent) -> EventView {
    (e.kind, e.script@, e.input@, e.passed)
}

/// The views of log lines.
pub open spec fn events_view(v: Seq<SuiteEvent>) -> Seq<EventView> {
    v.map_values(|e: SuiteEvent| event_view(e))
}

/// The number of lines of a kind, and of those that passed.
pub open spec fn count_kind(v: Seq<EventView>, kind: LogKind, passed_only: bool) -> nat
    decreases v.len(),
{
    if v.len() == 0 {
        0
    } else {
        count_kind(v.drop_last(), kind, passed_only) + if v.last().0 == kind && (!passed_only || v.last().3) {
            1nat
        } else {
            0nat
        }
    }
}

/// The outcome of a test run.
pub struct TestResult {
    pub passed_positive: usize,
    pub total_positive: usize,
    pub passed_negative: usize,
    pub total_negative: usize,
    pub passed_boundary: usize,
    pub total_boundary: usize,
    /// One line per failed case.
    pub failures: Vec<String>,
    /// The log, in order.
    pub events: Vec<SuiteEvent>,
}

impl TestResult {
    /// The counts fit the log: no more cases than lines, no more passes
    /// than cases.
    pub open spec fn wf(self) -> bool {
        &&& self.total_positive + self.total_negative + self.total_boundary <= self.events@.len()
        &&& self.passed_positive <= self.total_positive
        &&& self.passed_negative <= self.total_negative
        &&& self.passed_boundary <= self.total_boundary
    }

    /// An empty result.
    pub fn new() -> (r: TestResult)
        ensures
            r.wf(),
            r.passed_positive == 0 && r.total_positive == 0,
            r.passed_negative == 0 && r.total_negative == 0,
            r.passed_boundary == 0 && r.total_boundary == 0,
            r.failures@.len() == 0,
            r.events@.len() == 0,
    {
        TestResult {
            passed_positive: 0,
            total_positive: 0,
            passed_negative: 0,
            total_negative: 0,
            passed_boundary: 0,
            total_boundary: 0,
            failures: Vec::new(),
            events: Vec::new(),
        }
    }
}

/// The result after a phase appended log lines and failures: counts grown
/// by the cases of the phase's kind.
pub open spec fn after_phase(old: TestResult, new: TestResult, added: Seq<EventView>, fails: Seq<Seq<char>>) -> bool {
    &&& events_view(new.events@) == events_view(old.events@) + added
    &&& views(new.failures@) == views(old.failures@) + fails
    &&& new.total_positive == old.total_positive + count_kind(added, LogKind::Positive, false)
    &&& new.passed_positive == old.passed_positive + count_kind(added, LogKind::Positive, true)
    &&& new.total_negative == old.total_negative + count_kind(added, LogKind::Negative, false)
    &&& new.passed_negative == old.passed_negative + count_kind(added, LogKind::Negative, true)
    &&& new.total_boundary == old.total_boundary + count_kind(added, LogKind::Boundary, false)
    &&& new.passed_boundary == old.passed_boundary + count_kind(added, LogKind::Boundary, true)
}

/// Whether a script is tested under a filter.
pub open spec fn selected(name: Seq<char>, filter: Option<Seq<char>>) -> bool {
    match filter {
        Some(f) => name == f,
        None => true,
    }
}

/// The view of an optional string slice.
pub open spec fn opt_str_view(f: Option<&str>) -> Option<Seq<char>> {
    match f {
        Some(s) => Some(s@),
        None => None,
    }
}

/// A name and value as printed in a map: both quoted, joined by `: `.
pub open spec fn pair_debug(p: (Seq<char>, Seq<char>)) -> Seq<char> {
    debug_quoted(p.0) + ": "@ + debug_quoted(p.1)
}

/// Name-value pairs as printed in a map: `{"a": "1", "b": "2"}`.
pub open spec fn pairs_debug(v: Seq<(Seq<char>, Seq<char>)>) -> Seq<char> {
    "{"@ + join(v.map_values(|p: (Seq<char>, Seq<char>)| pair_debug(p)), ", "@) + "}"@
}

/// The failure line of a generated phrase.
pub open spec fn positive_failure(script: Seq<char>, c: CaseView) -> Seq<char> {
    "POSITIVE: "@ + script + " | input='"@ + c.0 + "' expected="@ + pairs_debug(c.1)
}

/// The log lines of the phrases of the first `m` sentences of a script.
pub open spec fn sentence_events(
    intents: Seq<NamedIntent>,
    script: Seq<char>,
    sentences: Seq<String>,
    max: int,
    m: int,
) -> Seq<EventView>
    decreases m,
{
    if m <= 0 {
        seq![]
    } else {
        sentence_events(intents, script, sentences, max, m - 1) + case_events(
            intents,
            script,
            test_cases_spec(intents, script, sentences[m - 1]@, max),
        )
    }
}

/// The log lines of checked phrases, in order.
pub open spec fn case_events(intents: Seq<NamedIntent>, script: Seq<char>, cs: Seq<CaseView>) -> Seq<EventView>
    decreases cs.len(),
{
    if cs.len() == 0 {
        seq![]
    } else {
        case_events(intents, script, cs.drop_last()).push(
            (LogKind::Positive, script, cs.last().0, extraction_ok(intents, script, cs.last().0, cs.last().1)),
        )
    }
}

/// The failure lines of the phrases, in order.
pub open spec fn case_failures(intents: Seq<NamedIntent>, script: Seq<char>, cs: Seq<CaseView>) -> Seq<Seq<char>>
    decreases cs.len(),
{
    if cs.len() == 0 {
        seq![]
    } else {
        case_failures(intents, script, cs.drop_last()) + if extraction_ok(
            intents,
            script,
            cs.last().0,
            cs.last().1,
        ) {
            seq![]
        } else {
            seq![positive_failure(script, cs.last())]
        }
    }
}

/// The failure lines of the phrases of the first `m` sentences.
pub open spec fn sentence_failures(
    intents: Seq<NamedIntent>,
    script: Seq<char>,
    sentences: Seq<String>,
    max: int,
    m: int,
) -> Seq<Seq<char>>
    decreases m,
{
    if m <= 0 {
        seq![]
    } else {
        sentence_failures(intents, script, sentences, max, m - 1) + case_failures(
            intents,
            script,
            test_cases_spec(intents, script, sentences[m - 1]@, max),
        )
    }
}

/// The log of the positive phase over the first `n` scripts.
pub open spec fn positive_events(intents: Seq<NamedIntent>, filter: Option<Seq<char>>, max: int, n: int) -> Seq<
    EventView,
>
    decreases n,
{
    if n <= 0 {
        seq![]
    } else {
        let it = intents[n - 1];
        positive_events(intents, filter, max, n - 1) + if selected(it.name@, filter) {
            seq![(LogKind::ScriptStart, it.name@, seq![], false)] + sentence_events(
                intents,
                it.name@,
                it.intent.sentences@,
                max,
                it.intent.sentences@.len() as int,
            )
        } else {
            seq![]
        }
    }
}

/// The failure lines of the positive phase over the first `n` scripts.
pub open spec fn positive_failures(intents: Seq<NamedIntent>, filter: Option<Seq<char>>, max: int, n: int) -> Seq<
    Seq<char>,
>
    decreases n,
{
    if n <= 0 {
        seq![]
    } else {
        let it = intents[n - 1];
        positive_failures(intents, filter, max, n - 1) + if selected(it.name@, filter) {
            sentence_failures(intents, it.name@, it.intent.sentences@, max, it.intent.sentences@.len() as int)
        } else {
            seq![]
        }
    }
}

/// The first tested script that understands the text, if any.
pub open spec fn false_match(intents: Seq<NamedIntent>, filter: Option<Seq<char>>, text: Seq<char>) -> Option<int> {
    first_from(
        intents.len() as int,
        |k: int| selected(intents[k].name@, filter) && exact_hit(intents, intents[k].name@, lowercase(text)),
        0,
    )
}

/// The failure line of an input a script wrongly understood.
pub open spec fn rejection_failure(kind: LogKind, script: Seq<char>, input: Seq<char>) -> Seq<char> {
    if kind == LogKind::Negative {
        "NEGATIVE: "@ + script + " | "@ + input
    } else {
        "BOUNDARY: "@ + script + " | '"@ + input + "'"@
    }
}

/// The log line of an input no script should understand.
pub open spec fn rejection_event(intents: Seq<NamedIntent>, filter: Option<Seq<char>>, kind: LogKind, c: Seq<char>) -> EventView {
    match false_match(intents, filter, c) {
        Some(k) => (kind, intents[k].name@, c, false),
        None => (kind, seq![], c, true),
    }
}

/// The log lines of inputs no script should understand.
pub open spec fn rejection_events(
    intents: Seq<NamedIntent>,
    filter: Option<Seq<char>>,
    kind: LogKind,
    inputs: Seq<Seq<char>>,
) -> Seq<EventView>
    decreases inputs.len(),
{
    if inputs.len() == 0 {
        seq![]
    } else {
        rejection_events(intents, filter, kind, inputs.drop_last()).push(
            rejection_event(intents, filter, kind, inputs.last()),
        )
    }
}

/// The failure lines of the inputs that some script understood.
pub open spec fn rejection_failures(
    intents: Seq<NamedIntent>,
    filter: Option<Seq<char>>,
    kind: LogKind,
    inputs: Seq<Seq<char>>,
) -> Seq<Seq<char>>
    decreases inputs.len(),
{
    if inputs.len() == 0 {
        seq![]
    } else {
        rejection_failures(intents, filter, kind, inputs.drop_last()) + match false_match(
            intents,
            filter,
            inputs.last(),
        ) {
            Some(k) => seq![rejection_failure(kind, intents[k].name@, inputs.last())],
            None => seq![],
        }
    }
}

/// Phrases no script should understand.
pub open spec fn negative_inputs() -> Seq<Seq<char>> {
    seq![
        "make me a sandwich"@,
        "launch the nuclear torpedos!"@,
        "gör mig en macka"@,
        "avfyra kärnvapnen!"@,
        "ducks sure are the best dont you agree"@,
    ]
}

/// Degenerate inputs no script should understand.
pub open spec fn boundary_inputs() -> Seq<Seq<char>> {
    seq![""@, "   "@, "."@, "!@#$%^&*()"@]
}

/// Name-value pairs as printed in a map.
fn pairs_debug_string(v: &Vec<(String, String)>) -> (r: Vec<char>)
    ensures
        r@ == pairs_debug(pair_views(v@)),
{
    let mut items: Vec<Vec<char>> = Vec::new();
    let ghost pv = pair_views(v@);
    let mut k: usize = 0;
    while k < v.len()
        invariant
            0 <= k <= v@.len(),
            pv == pair_views(v@),
            items@.map_values(|w: Vec<char>| w@) == pv.map_values(|p: (Seq<char>, Seq<char>)| pair_debug(p)).take(
                k as int,
            ),
        decreases v@.len() - k,
    {
        let mut it: Vec<char> = Vec::new();
        let a = debug_str(v[k].0.as_str());
        let b = debug_str(v[k].1.as_str());
        push_str(&mut it, a.as_str());
        push_str(&mut it, ": ");
        push_str(&mut it, b.as_str());
        let ghost before = items@.map_values(|w: Vec<char>| w@);
        items.push(it);
        let ghost all = pv.map_values(|p: (Seq<char>, Seq<char>)| pair_debug(p));
        assert(all[k as int] == pair_debug(pv[k as int]));
        assert(items@.map_values(|w: Vec<char>| w@) =~= before.push(all[k as int]));
        assert(all.take(k + 1) =~= all.take(k as int).push(all[k as int]));
        k = k + 1;
    }
    let ghost all = pv.map_values(|p: (Seq<char>, Seq<char>)| pair_debug(p));
    assert(all.take(v@.len() as int) =~= all);
    let sep = chars_of(", ");
    let body = join_chars(&items, sep.as_slice());
    let mut r: Vec<char> = Vec::new();
    push_str(&mut r, "{");
    push_all(&mut r, body.as_slice());
    push_str(&mut r, "}");
    r
}

/// The failure line of a generated phrase.
fn positive_failure_line(script: &str, input: &String, expected: &Vec<(String, String)>) -> (r: String)
    ensures
        r@ == positive_failure(script@, (input@, pair_views(expected@))),
{
    let mut v: Vec<char> = Vec::new();
    push_str(&mut v, "POSITIVE: ");
    push_str(&mut v, script);
    push_str(&mut v, " | input='");
    push_str(&mut v, input.as_str());
    push_str(&mut v, "' expected=");
    let d = pairs_debug_string(expected);
    push_all(&mut v, d.as_slice());
    string_from_chars(v.as_slice())
}

/// The failure line of an input a script wrongly understood.
fn rejection_failure_line(kind: LogKind, script: &String, input: &String) -> (r: String)
    ensures
        r@ == rejection_failure(kind, script@, input@),
{
    let mut v: Vec<char> = Vec::new();
    match kind {
        LogKind::Negative => {
            push_str(&mut v, "NEGATIVE: ");
            push_str(&mut v, script.as_str());
            push_str(&mut v, " | ");
            push_str(&mut v, input.as_str());
        },
        _ => {
            push_str(&mut v, "BOUNDARY: ");
            push_str(&mut v, script.as_str());
            push_str(&mut v, " | '");
            push_str(&mut v, input.as_str());
            push_str(&mut v, "'");
        },
    }
    string_from_chars(v.as_slice())
}

/// Appends a log line, counting it.
fn log_event(result: &mut TestResult, e: SuiteEvent, Ghost(old_r): Ghost<TestResult>, Ghost(added): Ghost<Seq<EventView>>, Ghost(fails): Ghost<Seq<Seq<char>>>)
    requires
        old_r.wf(),
        old(result).wf(),
        after_phase(old_r, *old(result), added, fails),
    ensures
        final(result).wf(),
        after_phase(old_r, *final(result), added.push(event_view(e)), fails),
{
    let ghost ev = event_view(e);
    let kind = e.kind;
    let passed = e.passed;
    result.events.push(e);
    let n = result.events.len();
    assert(old(result).events@.len() + 1 == n);
    proof {
        assert(events_view(result.events@) =~= events_view(old(result).events@).push(ev));
        let a2 = added.push(ev);
        assert(a2.drop_last() =~= added);
    }
    match kind {
        LogKind::Positive => {
            result.total_positive = result.total_positive + 1;
            if passed {
                result.passed_positive = result.passed_positive + 1;
            }
        },
        LogKind::Negative => {
            result.total_negative = result.total_negative + 1;
            if passed {
                result.passed_negative = result.passed_negative + 1;
            }
        },
        LogKind::Boundary => {
            result.total_boundary = result.total_boundary + 1;
            if passed {
                result.passed_boundary = result.passed_boundary + 1;
            }
        },
        LogKind::ScriptStart => {},
    }
}

/// Appends a failure line.
fn log_failure(result: &mut TestResult, line: String, Ghost(old_r): Ghost<TestResult>, Ghost(added): Ghost<Seq<EventView>>, Ghost(fails): Ghost<Seq<Seq<char>>>)
    requires
        old(result).wf(),
        after_phase(old_r, *old(result), added, fails),
    ensures
        final(result).wf(),
        after_phase(old_r, *final(result), added, fails.push(line@)),
{
    let ghost lv = line@;
    result.failures.push(line);
    assert(views(result.failures@) =~= views(old(result).failures@).push(lv));
}

impl TestRunner {
    /// Whether a script is tested under a filter.
    fn is_selected(name: &String, filter: Option<&str>) -> (b: bool)
        ensures
            b == selected(name@, opt_str_view(filter)),
    {
        match filter {
            Some(f) => str_eq(name.as_str(), f),
            None => true,
        }
    }

    /// The first tested script that understands the text.
    fn first_false_match(&self, filter: Option<&str>, text: &str) -> (r: Option<usize>)
        requires
            sentences_compile(self.intent_data@),
        ensures
            match r {
                Some(k) => false_match(self.intent_data@, opt_str_view(filter), text@) == Some(k as int) && k
                    < self.intent_data@.len(),
                None => false_match(self.intent_data@, opt_str_view(filter), text@) is None,
            },
    {
        let ghost f = opt_str_view(filter);
        let ghost p = |k: int|
            selected(self.intent_data@[k].name@, f) && exact_hit(
                self.intent_data@,
                self.intent_data@[k].name@,
                lowercase(text@),
            );
        let mut k: usize = 0;
        while k < self.intent_data.len()
            invariant
                0 <= k <= self.intent_data@.len(),
                sentences_compile(self.intent_data@),
                f == opt_str_view(filter),
                p == (|k: int|
                    selected(self.intent_data@[k].name@, f) && exact_hit(
                        self.intent_data@,
                        self.intent_data@[k].name@,
                        lowercase(text@),
                    )),
                false_match(self.intent_data@, f, text@) == first_from(self.intent_data@.len() as int, p, k as int),
            decreases self.intent_data@.len() - k,
        {
            if Self::is_selected(&self.intent_data[k].name, filter) && self.test_exact_match(
                self.intent_data[k].name.as_str(),
                text,
            ) {
                return Some(k);
            }
            k = k + 1;
        }
        None
    }

    /// Checks inputs that no tested script should understand, logging each
    /// and a failure line for each understood one.
    fn check_rejections(&self, result: &mut TestResult, filter: Option<&str>, inputs: &Vec<String>, kind: LogKind)
        requires
            old(result).wf(),
            sentences_compile(self.intent_data@),
        ensures
            final(result).wf(),
            after_phase(
                *old(result),
                *final(result),
                rejection_events(self.intent_data@, opt_str_view(filter), kind, views(inputs@)),
                rejection_failures(self.intent_data@, opt_str_view(filter), kind, views(inputs@)),
            ),
    {
        let ghost old_r = *result;
        let ghost f = opt_str_view(filter);
        let ghost iv = views(inputs@);
        let mut k: usize = 0;
        proof {
            assert(iv.take(0) =~= seq![]);
            assert(events_view(result.events@) =~= events_view(old_r.events@) + seq![]);
            assert(views(result.failures@) =~= views(old_r.failures@) + seq![]);
        }
        while k < inputs.len()
            invariant
                0 <= k <= inputs@.len(),
                iv == views(inputs@),
                f == opt_str_view(filter),
                old_r.wf(),
                result.wf(),
                sentences_compile(self.intent_data@),
                after_phase(
                    old_r,
                    *result,
                    rejection_events(self.intent_data@, f, kind, iv.take(k as int)),
                    rejection_failures(self.intent_data@, f, kind, iv.take(k as int)),
                ),
            decreases inputs@.len() - k,
        {
            let ghost t1 = iv.take(k + 1);
            assert(t1.drop_last() =~= iv.take(k as int));
            assert(t1.last() == inputs@[k as int]@);
            let ghost added = rejection_events(self.intent_data@, f, kind, iv.take(k as int));
            let ghost fails = rejection_failures(self.intent_data@, f, kind, iv.take(k as int));
            match self.first_false_match(filter, inputs[k].as_str()) {
                Some(m) => {
                    let e = SuiteEvent {
                        kind,
                        script: copy_string(&self.intent_data[m].name),
                        input: copy_string(&inputs[k]),
                        passed: false,
                    };
                    log_event(result, e, Ghost(old_r), Ghost(added), Ghost(fails));
                    let line = rejection_failure_line(kind, &self.intent_data[m].name, &inputs[k]);
                    log_failure(result, line, Ghost(old_r), Ghost(added.push(event_view(e))), Ghost(fails));
                    assert(rejection_events(self.intent_data@, f, kind, t1) == added.push(event_view(e)));
                    assert(rejection_failures(self.intent_data@, f, kind, t1) == fails.push(line@));
                },
                None => {
                    proof {
                        reveal_strlit("");
                    }
                    let e = SuiteEvent { kind, script: str_to_owned(""), input: copy_string(&inputs[k]), passed: true };
                    assert(e.script@ =~= seq![]);
                    log_event(result, e, Ghost(old_r), Ghost(added), Ghost(fails));
                    assert(rejection_events(self.intent_data@, f, kind, t1) == added.push(event_view(e)));
                    assert(rejection_failures(self.intent_data@, f, kind, t1) =~= fails);
                },
            }
            k = k + 1;
        }
        assert(iv.take(inputs@.len() as int) =~= iv);
    }

    /// Checks phrases that no tested script should understand.
    pub fn test_negative_cases(&self, result: &mut TestResult, filter: Option<&str>)
        requires
            old(result).wf(),
            sentences_compile(self.intent_data@),
        ensures
            final(result).wf(),
            after_phase(
                *old(result),
                *final(result),
                rejection_events(self.intent_data@, opt_str_view(filter), LogKind::Negative, negative_inputs()),
                rejection_failures(self.intent_data@, opt_str_view(filter), LogKind::Negative, negative_inputs()),
            ),
    {
        let mut inputs: Vec<String> = Vec::new();
        inputs.push(str_to_owned("make me a sandwich"));
        inputs.push(str_to_owned("launch the nuclear torpedos!"));
        inputs.push(str_to_owned("gör mig en macka"));
        inputs.push(str_to_owned("avfyra kärnvapnen!"));
        inputs.push(str_to_owned("ducks sure are the best dont you agree"));
        assert(views(inputs@) =~= negative_inputs());
        self.check_rejections(result, filter, &inputs, LogKind::Negative);
    }

    /// Checks degenerate inputs that no tested script should understand.
    pub fn test_boundary_cases(&self, result: &mut TestResult, filter: Option<&str>)
        requires
            old(result).wf(),
            sentences_compile(self.intent_data@),
        ensures
            final(result).wf(),
            after_phase(
                *old(result),
                *final(result),
                rejection_events(self.intent_data@, opt_str_view(filter), LogKind::Boundary, boundary_inputs()),
                rejection_failures(self.intent_data@, opt_str_view(filter), LogKind::Boundary, boundary_inputs()),
            ),
    {
        let mut inputs: Vec<String> = Vec::new();
        inputs.push(str_to_owned(""));
        inputs.push(str_to_owned("   "));
        inputs.push(str_to_owned("."));
        inputs.push(str_to_owned("!@#$%^&*()"));
        assert(views(inputs@) =~= boundary_inputs());
        self.check_rejections(result, filter, &inputs, LogKind::Boundary);
    }
}

impl TestRunner {
    /// Checks generated phrases of a script, logging each and a failure
    /// line for each not understood with its expected values.
    fn check_cases(
        &self,
        result: &mut TestResult,
        script: &String,
        cases: &Vec<(String, Vec<(String, String)>)>,
        Ghost(old_r): Ghost<TestResult>,
        Ghost(base_ev): Ghost<Seq<EventView>>,
        Ghost(base_fl): Ghost<Seq<Seq<char>>>,
    )
        requires
            old_r.wf(),
            old(result).wf(),
            sentences_compile(self.intent_data@),
            after_phase(old_r, *old(result), base_ev, base_fl),
        ensures
            final(result).wf(),
            after_phase(
                old_r,
                *final(result),
                base_ev + case_events(self.intent_data@, script@, cases_view(cases@)),
                base_fl + case_failures(self.intent_data@, script@, cases_view(cases@)),
            ),
    {
        let ghost cv = cases_view(cases@);
        let mut m: usize = 0;
        proof {
            assert(cv.take(0) =~= seq![]);
            assert(base_ev + case_events(self.intent_data@, script@, cv.take(0)) =~= base_ev);
            assert(base_fl + case_failures(self.intent_data@, script@, cv.take(0)) =~= base_fl);
        }
        while m < cases.len()
            invariant
                0 <= m <= cases@.len(),
                cv == cases_view(cases@),
                old_r.wf(),
                result.wf(),
                sentences_compile(self.intent_data@),
                after_phase(
                    old_r,
                    *result,
                    base_ev + case_events(self.intent_data@, script@, cv.take(m as int)),
                    base_fl + case_failures(self.intent_data@, script@, cv.take(m as int)),
                ),
            decreases cases@.len() - m,
        {
            let ghost t1 = cv.take(m + 1);
            assert(t1.drop_last() =~= cv.take(m as int));
            assert(t1.last() == case_view(cases@[m as int]));
            let ghost ev = base_ev + case_events(self.intent_data@, script@, cv.take(m as int));
            let ghost fl = base_fl + case_failures(self.intent_data@, script@, cv.take(m as int));
            let passed = self.test_param_extraction(script.as_str(), cases[m].0.as_str(), &cases[m].1);
            let e = SuiteEvent {
                kind: LogKind::Positive,
                script: copy_string(script),
                input: copy_string(&cases[m].0),
                passed,
            };
            log_event(result, e, Ghost(old_r), Ghost(ev), Ghost(fl));
            assert(base_ev + case_events(self.intent_data@, script@, t1) =~= ev.push(event_view(e)));
            if !passed {
                let line = positive_failure_line(script.as_str(), &cases[m].0, &cases[m].1);
                log_failure(result, line, Ghost(old_r), Ghost(ev.push(event_view(e))), Ghost(fl));
                assert(base_fl + case_failures(self.intent_data@, script@, t1) =~= fl.push(line@));
            } else {
                assert(base_fl + case_failures(self.intent_data@, script@, t1) =~= fl);
            }
            m = m + 1;
        }
        assert(cv.take(cases@.len() as int) =~= cv);
    }

    /// Checks the generated phrases of every sentence of a script.
    fn check_script_sentences(
        &self,
        result: &mut TestResult,
        i: usize,
        Ghost(old_r): Ghost<TestResult>,
        Ghost(base_ev): Ghost<Seq<EventView>>,
        Ghost(base_fl): Ghost<Seq<Seq<char>>>,
    )
        requires
            i < self.intent_data@.len(),
            old_r.wf(),
            old(result).wf(),
            sentences_compile(self.intent_data@),
            after_phase(old_r, *old(result), base_ev, base_fl),
        ensures
            final(result).wf(),
            after_phase(
                old_r,
                *final(result),
                base_ev + sentence_events(
                    self.intent_data@,
                    self.intent_data@[i as int].name@,
                    self.intent_data@[i as int].intent.sentences@,
                    self.max_variants as int,
                    self.intent_data@[i as int].intent.sentences@.len() as int,
                ),
                base_fl + sentence_failures(
                    self.intent_data@,
                    self.intent_data@[i as int].name@,
                    self.intent_data@[i as int].intent.sentences@,
                    self.max_variants as int,
                    self.intent_data@[i as int].intent.sentences@.len() as int,
                ),
            ),
    {
        let name = &self.intent_data[i].name;
        let sentences = &self.intent_data[i].intent.sentences;
        let ghost max = self.max_variants as int;
        let mut j: usize = 0;
        proof {
            assert(base_ev + sentence_events(self.intent_data@, name@, sentences@, max, 0) =~= base_ev);
            assert(base_fl + sentence_failures(self.intent_data@, name@, sentences@, max, 0) =~= base_fl);
        }
        while j < sentences.len()
            invariant
                0 <= j <= sentences@.len(),
                i < self.intent_data@.len(),
                name@ == self.intent_data@[i as int].name@,
                sentences@ == self.intent_data@[i as int].intent.sentences@,
                max == self.max_variants as int,
                old_r.wf(),
                result.wf(),
                sentences_compile(self.intent_data@),
                after_phase(
                    old_r,
                    *result,
                    base_ev + sentence_events(self.intent_data@, name@, sentences@, max, j as int),
                    base_fl + sentence_failures(self.intent_data@, name@, sentences@, max, j as int),
                ),
            decreases sentences@.len() - j,
        {
            let cases = self.generate_param_test_cases(name.as_str(), sentences[j].as_str());
            let ghost ev = base_ev + sentence_events(self.intent_data@, name@, sentences@, max, j as int);
            let ghost fl = base_fl + sentence_failures(self.intent_data@, name@, sentences@, max, j as int);
            self.check_cases(result, name, &cases, Ghost(old_r), Ghost(ev), Ghost(fl));
            assert(base_ev + sentence_events(self.intent_data@, name@, sentences@, max, j + 1) =~= ev + case_events(
                self.intent_data@,
                name@,
                cases_view(cases@),
            ));
            assert(base_fl + sentence_failures(self.intent_data@, name@, sentences@, max, j + 1) =~= fl
                + case_failures(self.intent_data@, name@, cases_view(cases@)));
            j = j + 1;
        }
    }

    /// Checks the generated phrases of every tested script: each script's
    /// start is logged, then each phrase (see `positive_events`).
    pub fn test_positive_cases(&self, result: &mut TestResult, filter: Option<&str>)
        requires
            old(result).wf(),
            sentences_compile(self.intent_data@),
        ensures
            final(result).wf(),
            after_phase(
                *old(result),
                *final(result),
                positive_events(
                    self.intent_data@,
                    opt_str_view(filter),
                    self.max_variants as int,
                    self.intent_data@.len() as int,
                ),
                positive_failures(
                    self.intent_data@,
                    opt_str_view(filter),
                    self.max_variants as int,
                    self.intent_data@.len() as int,
                ),
            ),
    {
        let ghost old_r = *result;
        let ghost f = opt_str_view(filter);
        let ghost max = self.max_variants as int;
        let mut i: usize = 0;
        proof {
            assert(events_view(result.events@) =~= events_view(old_r.events@) + seq![]);
            assert(views(result.failures@) =~= views(old_r.failures@) + seq![]);
        }
        while i < self.intent_data.len()
            invariant
                0 <= i <= self.intent_data@.len(),
                f == opt_str_view(filter),
                max == self.max_variants as int,
                old_r.wf(),
                result.wf(),
                sentences_compile(self.intent_data@),
                after_phase(
                    old_r,
                    *result,
                    positive_events(self.intent_data@, f, max, i as int),
                    positive_failures(self.intent_data@, f, max, i as int),
                ),
            decreases self.intent_data@.len() - i,
        {
            let ghost ev = positive_events(self.intent_data@, f, max, i as int);
            let ghost fl = positive_failures(self.intent_data@, f, max, i as int);
            if Self::is_selected(&self.intent_data[i].name, filter) {
                proof {
                    reveal_strlit("");
                }
                let e = SuiteEvent {
                    kind: LogKind::ScriptStart,
                    script: copy_string(&self.intent_data[i].name),
                    input: str_to_owned(""),
                    passed: false,
                };
                assert(e.input@ =~= seq![]);
                log_event(result, e, Ghost(old_r), Ghost(ev), Ghost(fl));
                assert(fl =~= fl + seq![]);
                self.check_script_sentences(result, i, Ghost(old_r), Ghost(ev.push(event_view(e))), Ghost(fl + seq![]));
                let ghost it = self.intent_data@[i as int];
                assert(positive_events(self.intent_data@, f, max, i + 1) =~= ev.push(event_view(e)) + sentence_events(
                    self.intent_data@,
                    it.name@,
                    it.intent.sentences@,
                    max,
                    it.intent.sentences@.len() as int,
                ));
                assert(positive_failures(self.intent_data@, f, max, i + 1) =~= (fl + seq![]) + sentence_failures(
                    self.intent_data@,
                    it.name@,
                    it.intent.sentences@,
                    max,
                    it.intent.sentences@.len() as int,
                ));
            } else {
                assert(positive_events(self.intent_data@, f, max, i + 1) =~= ev);
                assert(positive_failures(self.intent_data@, f, max, i + 1) =~= fl);
            }
            i = i + 1;
        }
    }
}

/// Counting lines over two logs adds up.
pub proof fn lemma_count_concat(a: Seq<EventView>, b: Seq<EventView>, kind: LogKind, passed_only: bool)
    ensures
        count_kind(a + b, kind, passed_only) == count_kind(a, kind, passed_only) + count_kind(b, kind, passed_only),
    decreases b.len(),
{
    if b.len() == 0 {
        assert(a + b =~= a);
    } else {
        lemma_count_concat(a, b.drop_last(), kind, passed_only);
        assert((a + b).drop_last() =~= a + b.drop_last());
        assert((a + b).last() == b.last());
    }
}

/// The whole log of a run: the positive phase, then the phrases no script
/// should understand, then the degenerate inputs.
pub open spec fn suite_events(intents: Seq<NamedIntent>, filter: Option<Seq<char>>, max: int) -> Seq<EventView> {
    positive_events(intents, filter, max, intents.len() as int) + rejection_events(
        intents,
        filter,
        LogKind::Negative,
        negative_inputs(),
    ) + rejection_events(intents, filter, LogKind::Boundary, boundary_inputs())
}

/// The failure lines of a run, in the same order.
pub open spec fn suite_failures(intents: Seq<NamedIntent>, filter: Option<Seq<char>>, max: int) -> Seq<Seq<char>> {
    positive_failures(intents, filter, max, intents.len() as int) + rejection_failures(
        intents,
        filter,
        LogKind::Negative,
        negative_inputs(),
    ) + rejection_failures(intents, filter, LogKind::Boundary, boundary_inputs())
}

/// What testing a single input finds.
pub enum SingleOutcome {
    /// A script understands it exactly.
    Match(String),
    /// The most similar index sentence belongs to this script, with this
    /// score.
    Fuzzy(String, i32),
    NoMatch,
}

/// How a script's sentences are rated by the statistics.
#[derive(Clone, Copy, PartialEq, Eq, Structural)]
pub enum StatsStatus {
    /// No sentences.
    Empty,
    /// No phrases, or fewer than one phrase per two sentences.
    NeedsPhrases,
    /// More than fifty phrases per sentence.
    HighRatio,
    Fine,
}

/// A script's sentence statistics.
pub struct ScriptStats {
    pub name: String,
    /// The number of sentences.
    pub patterns: usize,
    /// The number of sentence variants.
    pub phrases: usize,
    pub status: StatsStatus,
}

/// The statistics of a script as plain values.
pub type StatsView = (Seq<char>, nat, nat, StatsStatus);

/// The view of a script's statistics.
pub open spec fn stats_view(s: ScriptStats) -> StatsView {
    (s.name@, s.patterns as nat, s.phrases as nat, s.status)
}

/// The views of statistics.
pub open spec fn stats_views(v: Seq<ScriptStats>) -> Seq<StatsView> {
    v.map_values(|s: ScriptStats| stats_view(s))
}

/// The number of variants of the first `n` sentences.
pub open spec fn phrase_count(sentences: Seq<String>, n: int) -> nat
    decreases n,
{
    if n <= 0 {
        0
    } else {
        phrase_count(sentences, n - 1) + expand_runtime(sentences[n - 1]@).len()
    }
}

/// The rating of a script with the given numbers of sentences and
/// variants; the ratio of variants to sentences is compared exactly.
pub open spec fn stats_status(patterns: nat, phrases: nat) -> StatsStatus {
    if patterns == 0 {
        StatsStatus::Empty
    } else if phrases == 0 || 2 * phrases < patterns {
        StatsStatus::NeedsPhrases
    } else if phrases > 50 * patterns {
        StatsStatus::HighRatio
    } else {
        StatsStatus::Fine
    }
}

/// The statistics of an intent.
pub open spec fn intent_stats(it: NamedIntent) -> StatsView {
    let p = it.intent.sentences@.len();
    let f = phrase_count(it.intent.sentences@, p as int);
    (it.name@, p, f, stats_status(p, f))
}

/// The statistics of the first `n` intents, in order.
pub open spec fn all_stats(intents: Seq<NamedIntent>, n: int) -> Seq<StatsView>
    decreases n,
{
    if n <= 0 {
        seq![]
    } else {
        all_stats(intents, n - 1).push(intent_stats(intents[n - 1]))
    }
}

/// The variants-per-sentence ratio as a fraction (0 without sentences).
pub open spec fn ratio_num(s: StatsView) -> int {
    if s.1 == 0 {
        0
    } else {
        s.2 as int
    }
}

/// The denominator of the ratio (1 without sentences).
pub open spec fn ratio_den(s: StatsView) -> int {
    if s.1 == 0 {
        1
    } else {
        s.1 as int
    }
}

/// The ratio of `a` is at least that of `b`.
pub open spec fn ratio_ge(a: StatsView, b: StatsView) -> bool {
    ratio_num(a) * ratio_den(b) >= ratio_num(b) * ratio_den(a)
}

/// Statistics in non-increasing order of ratio.
pub open spec fn stats_sorted(v: Seq<StatsView>) -> bool {
    forall|i: int, j: int| 0 <= i < j < v.len() ==> ratio_ge(#[trigger] v[i], #[trigger] v[j])
}

/// The ratio order is transitive.
pub proof fn lemma_ratio_ge_transitive(a: StatsView, b: StatsView, c: StatsView)
    requires
        ratio_ge(a, b),
        ratio_ge(b, c),
    ensures
        ratio_ge(a, c),
{
    let (an, ad, bn, bd, cn, cd) = (ratio_num(a), ratio_den(a), ratio_num(b), ratio_den(b), ratio_num(c), ratio_den(c));
    assert(an * cd >= cn * ad) by (nonlinear_arith)
        requires
            an * bd >= bn * ad,
            bn * cd >= cn * bd,
            ad > 0,
            bd > 0,
            cd > 0,
            an >= 0,
            bn >= 0,
            cn >= 0,
    {
        assert(an * bd * cd >= bn * ad * cd);
        assert(bn * cd * ad >= cn * bd * ad);
        assert(an * cd * bd >= cn * ad * bd);
    }
}

/// The ratio order is total.
pub proof fn lemma_ratio_ge_total(a: StatsView, b: StatsView)
    ensures
        ratio_ge(a, b) || ratio_ge(b, a),
{
}

/// The share of passed cases in whole percent (rounded down), 0 without
/// cases.
pub open spec fn percent_of(passed: nat, total: nat) -> nat {
    if total > 0 {
        (passed * 100 / total) as nat
    } else {
        0
    }
}

/// How a run is rated.
#[derive(Clone, Copy, PartialEq, Eq, Structural)]
pub enum ReportGrade {
    /// 80% or more passed.
    Good,
    /// 60% or more passed.
    Fair,
    Poor,
}

/// The rating of a percentage.
pub open spec fn grade_of(percent: nat) -> ReportGrade {
    if percent >= 80 {
        ReportGrade::Good
    } else if percent >= 60 {
        ReportGrade::Fair
    } else {
        ReportGrade::Poor
    }
}

/// The summary of a run.
pub struct FinalReport {
    pub passed: usize,
    pub total: usize,
    pub percent: usize,
    pub grade: ReportGrade,
    /// The failure lines are to be shown.
    pub show_failures: bool,
}

/// The rating of a percentage.
pub fn report_grade(percent: usize) -> (r: ReportGrade)
    ensures
        r == grade_of(percent as nat),
{
    if percent >= 80 {
        ReportGrade::Good
    } else if percent >= 60 {
        ReportGrade::Fair
    } else {
        ReportGrade::Poor
    }
}

/// The share of passed cases in whole percent.
pub fn report_percent(passed: usize, total: usize) -> (r: usize)
    requires
        passed <= total,
    ensures
        r as nat == percent_of(passed as nat, total as nat),
        r <= 100,
{
    if total > 0 {
        let p: u128 = passed as u128;
        let t: u128 = total as u128;
        assert(p * 100 <= t * 100) by (nonlinear_arith)
            requires
                p <= t,
        ;
        let pp = p * 100;
        let q = pp / t;
        assert(q <= 100) by (nonlinear_arith)
            requires
                q == pp / t,
                pp <= t * 100,
                t > 0,
        ;
        q as usize
    } else {
        0
    }
}

/// The summary of a run: passed and total cases, the percentage and its
/// rating, and whether failure lines are to be shown (some case failed
/// and there are lines).
pub fn final_report(result: &TestResult) -> (r: FinalReport)
    requires
        result.wf(),
    ensures
        r.total == result.total_positive + result.total_negative + result.total_boundary,
        r.passed == result.passed_positive + result.passed_negative + result.passed_boundary,
        r.percent as nat == percent_of(r.passed as nat, r.total as nat),
        r.grade == grade_of(r.percent as nat),
        r.show_failures == (r.passed != r.total && result.failures@.len() > 0),
{
    let _n = result.events.len();
    let total = result.total_positive + result.total_negative + result.total_boundary;
    let passed = result.passed_positive + result.passed_negative + result.passed_boundary;
    let percent = report_percent(passed, total);
    FinalReport {
        passed,
        total,
        percent,
        grade: report_grade(percent),
        show_failures: passed != total && result.failures.len() > 0,
    }
}

/// Inserts statistics after every entry with a ratio at least as high.
fn insert_stats(v: &mut Vec<ScriptStats>, x: ScriptStats)
    requires
        stats_sorted(stats_views(old(v)@)),
    ensures
        stats_sorted(stats_views(final(v)@)),
        stats_views(final(v)@).to_multiset() == stats_views(old(v)@).to_multiset().insert(stats_view(x)),
{
    let ghost old_v = stats_views(v@);
    let ghost xv = stats_view(x);
    let mut p: usize = 0;
    while p < v.len() && ratio_at_least(&v[p], &x)
        invariant
            0 <= p <= v@.len(),
            stats_views(v@) == old_v,
            xv == stats_view(x),
            forall|k: int| 0 <= k < p ==> ratio_ge(#[trigger] old_v[k], xv),
        decreases v@.len() - p,
    {
        assert(old_v[p as int] == stats_view(v@[p as int]));
        p = p + 1;
    }
    proof {
        if p < old_v.len() {
            assert(old_v[p as int] == stats_view(v@[p as int]));
            assert(!ratio_ge(old_v[p as int], xv));
        }
    }
    v.insert(p, x);
    proof {
        let nv = stats_views(v@);
        assert(nv =~= old_v.insert(p as int, xv));
        vstd::seq_lib::to_multiset_insert(old_v, p as int, xv);
        assert forall|i: int, j: int| 0 <= i < j < nv.len() implies ratio_ge(#[trigger] nv[i], #[trigger] nv[j]) by {
            if j < p {
                assert(nv[i] == old_v[i] && nv[j] == old_v[j]);
            } else if j == p {
                assert(nv[i] == old_v[i]);
            } else if i < p {
                assert(nv[i] == old_v[i] && nv[j] == old_v[j - 1]);
                lemma_ratio_ge_total(xv, old_v[j - 1]);
                if j - 1 > p {
                    assert(ratio_ge(old_v[p as int], old_v[j - 1]));
                }
                lemma_ratio_ge_total(old_v[i], old_v[j - 1]);
                if !ratio_ge(old_v[i], old_v[j - 1]) {
                    assert(ratio_ge(old_v[j - 1], old_v[i]));
                    lemma_ratio_ge_transitive(xv, old_v[j - 1], old_v[i]);
                }
            } else if i == p {
                assert(nv[j] == old_v[j - 1]);
                lemma_ratio_ge_total(xv, old_v[p as int]);
                if j - 1 > p {
                    lemma_ratio_ge_transitive(xv, old_v[p as int], old_v[j - 1]);
                }
            } else {
                assert(nv[i] == old_v[i - 1] && nv[j] == old_v[j - 1]);
            }
        }
    }
}

/// Whether the ratio of `a` is at least that of `b`.
fn ratio_at_least(a: &ScriptStats, b: &ScriptStats) -> (r: bool)
    ensures
        r == ratio_ge(stats_view(*a), stats_view(*b)),
{
    let an: u128 = if a.patterns == 0 { 0 } else { a.phrases as u128 };
    let ad: u128 = if a.patterns == 0 { 1 } else { a.patterns as u128 };
    let bn: u128 = if b.patterns == 0 { 0 } else { b.phrases as u128 };
    let bd: u128 = if b.patterns == 0 { 1 } else { b.patterns as u128 };
    assert(an * bd <= 0xffff_ffff_ffff_ffff * 0xffff_ffff_ffff_ffff) by (nonlinear_arith)
        requires
            an <= 0xffff_ffff_ffff_ffff,
            bd <= 0xffff_ffff_ffff_ffff,
    ;
    assert(bn * ad <= 0xffff_ffff_ffff_ffff * 0xffff_ffff_ffff_ffff) by (nonlinear_arith)
        requires
            bn <= 0xffff_ffff_ffff_ffff,
            ad <= 0xffff_ffff_ffff_ffff,
    ;
    an * bd >= bn * ad
}

impl TestRunner {
    /// Runs the three phases over the scripts the filter selects (see
    /// `suite_events` and `suite_failures`).
    pub fn run_test_suite(&self) -> (r: TestResult)
        requires
            sentences_compile(self.intent_data@),
        ensures
            r.wf(),
            events_view(r.events@) == suite_events(self.intent_data@, opt_view(self.script_filter), self.max_variants as int),
            views(r.failures@) == suite_failures(self.intent_data@, opt_view(self.script_filter), self.max_variants as int),
            r.total_positive == count_kind(events_view(r.events@), LogKind::Positive, false),
            r.passed_positive == count_kind(events_view(r.events@), LogKind::Positive, true),
            r.total_negative == count_kind(events_view(r.events@), LogKind::Negative, false),
            r.passed_negative == count_kind(events_view(r.events@), LogKind::Negative, true),
            r.total_boundary == count_kind(events_view(r.events@), LogKind::Boundary, false),
            r.passed_boundary == count_kind(events_view(r.events@), LogKind::Boundary, true),
    {
        let filter: Option<&str> = match &self.script_filter {
            Some(f) => Some(f.as_str()),
            None => None,
        };
        assert(opt_str_view(filter) == opt_view(self.script_filter));
        let mut result = TestResult::new();
        let ghost r0 = result;
        self.test_positive_cases(&mut result, filter);
        let ghost r1 = result;
        self.test_negative_cases(&mut result, filter);
        let ghost r2 = result;
        self.test_boundary_cases(&mut result, filter);
        proof {
            let f = opt_str_view(filter);
            let max = self.max_variants as int;
            let a = positive_events(self.intent_data@, f, max, self.intent_data@.len() as int);
            let b = rejection_events(self.intent_data@, f, LogKind::Negative, negative_inputs());
            let c = rejection_events(self.intent_data@, f, LogKind::Boundary, boundary_inputs());
            assert(events_view(r0.events@) =~= seq![]);
            assert(views(r0.failures@) =~= seq![]);
            assert(events_view(result.events@) =~= a + b + c);
            let all = a + b + c;
            assert(views(result.failures@) =~= suite_failures(self.intent_data@, f, max));
            lemma_count_concat(a + b, c, LogKind::Positive, false);
            lemma_count_concat(a, b, LogKind::Positive, false);
            lemma_count_concat(a + b, c, LogKind::Positive, true);
            lemma_count_concat(a, b, LogKind::Positive, true);
            lemma_count_concat(a + b, c, LogKind::Negative, false);
            lemma_count_concat(a, b, LogKind::Negative, false);
            lemma_count_concat(a + b, c, LogKind::Negative, true);
            lemma_count_concat(a, b, LogKind::Negative, true);
            lemma_count_concat(a + b, c, LogKind::Boundary, false);
            lemma_count_concat(a, b, LogKind::Boundary, false);
            lemma_count_concat(a + b, c, LogKind::Boundary, true);
            lemma_count_concat(a, b, LogKind::Boundary, true);
        }
        result
    }

    /// Tests one input: the first script that understands it exactly, else
    /// the best fuzzy match, else nothing.
    pub fn test_single_input(&self, input: &str) -> (r: SingleOutcome)
        requires
            sentences_compile(self.intent_data@),
        ensures
            match r {
                SingleOutcome::Match(s) => false_match(self.intent_data@, None, input@) matches Some(k)
                    && s@ == self.intent_data@[k].name@,
                SingleOutcome::Fuzzy(s, n) => false_match(self.intent_data@, None, input@) is None && best_fuzzy(
                    self.fuzzy_index@,
                    lowercase(input@),
                    self.fuzzy_index@.len() as int,
                ).1 == Some((s@, n as int)),
                SingleOutcome::NoMatch => false_match(self.intent_data@, None, input@) is None && best_fuzzy(
                    self.fuzzy_index@,
                    lowercase(input@),
                    self.fuzzy_index@.len() as int,
                ).1 is None,
            },
    {
        match self.first_false_match(None, input) {
            Some(k) => SingleOutcome::Match(copy_string(&self.intent_data[k].name)),
            None => match self.find_best_fuzzy_match(input) {
                Some((s, n)) => SingleOutcome::Fuzzy(s, n),
                None => SingleOutcome::NoMatch,
            },
        }
    }

    /// Whether every script's variant count fits a `usize`.
    pub fn phrase_counts_fit(&self) -> (b: bool)
        ensures
            b == forall|i: int|
                0 <= i < self.intent_data@.len() ==> phrase_count(
                    #[trigger] self.intent_data@[i].intent.sentences@,
                    self.intent_data@[i].intent.sentences@.len() as int,
                ) <= usize::MAX,
    {
        let mut i: usize = 0;
        while i < self.intent_data.len()
            invariant
                0 <= i <= self.intent_data@.len(),
                forall|m: int|
                    0 <= m < i ==> phrase_count(
                        #[trigger] self.intent_data@[m].intent.sentences@,
                        self.intent_data@[m].intent.sentences@.len() as int,
                    ) <= usize::MAX,
            decreases self.intent_data@.len() - i,
        {
            let sentences = &self.intent_data[i].intent.sentences;
            let mut total: u128 = 0;
            let mut j: usize = 0;
            while j < sentences.len()
                invariant
                    0 <= j <= sentences@.len(),
                    i < self.intent_data@.len(),
                    sentences@ == self.intent_data@[i as int].intent.sentences@,
                    total == phrase_count(sentences@, j as int),
                    total <= usize::MAX,
                decreases sentences@.len() - j,
            {
                let n = self.expand_optional_words(sentences[j].as_str()).len();
                total = total + n as u128;
                if total > usize::MAX as u128 {
                    proof {
                        lemma_phrase_count_mono(sentences@, j + 1, sentences@.len() as int);
                        assert(phrase_count(
                            self.intent_data@[i as int].intent.sentences@,
                            self.intent_data@[i as int].intent.sentences@.len() as int,
                        ) > usize::MAX);
                    }
                    return false;
                }
                j = j + 1;
            }
            i = i + 1;
        }
        true
    }

    /// The sentence statistics of every script, in non-increasing order of
    /// variants per sentence (ties in no particular order).
    pub fn script_stats(&self) -> (r: Vec<ScriptStats>)
        requires
            forall|i: int|
                0 <= i < self.intent_data@.len() ==> phrase_count(
                    #[trigger] self.intent_data@[i].intent.sentences@,
                    self.intent_data@[i].intent.sentences@.len() as int,
                ) <= usize::MAX,
        ensures
            stats_sorted(stats_views(r@)),
            stats_views(r@).to_multiset() == all_stats(self.intent_data@, self.intent_data@.len() as int).to_multiset(),
    {
        let mut r: Vec<ScriptStats> = Vec::new();
        let mut i: usize = 0;
        assert(stats_views(r@) =~= seq![]);
        assert(all_stats(self.intent_data@, 0) =~= seq![]);
        while i < self.intent_data.len()
            invariant
                0 <= i <= self.intent_data@.len(),
                forall|m: int|
                    0 <= m < self.intent_data@.len() ==> phrase_count(
                        #[trigger] self.intent_data@[m].intent.sentences@,
                        self.intent_data@[m].intent.sentences@.len() as int,
                    ) <= usize::MAX,
                stats_sorted(stats_views(r@)),
                stats_views(r@).to_multiset() == all_stats(self.intent_data@, i as int).to_multiset(),
            decreases self.intent_data@.len() - i,
        {
            let sentences = &self.intent_data[i].intent.sentences;
            assert(phrase_count(sentences@, sentences@.len() as int) <= usize::MAX);
            let mut phrases: usize = 0;
            let mut j: usize = 0;
            while j < sentences.len()
                invariant
                    0 <= j <= sentences@.len(),
                    phrases == phrase_count(sentences@, j as int),
                    phrase_count(sentences@, sentences@.len() as int) <= usize::MAX,
                decreases sentences@.len() - j,
            {
                let n = self.expand_optional_words(sentences[j].as_str()).len();
                proof {
                    lemma_phrase_count_mono(sentences@, j + 1, sentences@.len() as int);
                }
                phrases = phrases + n;
                j = j + 1;
            }
            let patterns = sentences.len();
            let status = if patterns == 0 {
                StatsStatus::Empty
            } else if phrases == 0 || (phrases as u128) * 2 < patterns as u128 {
                StatsStatus::NeedsPhrases
            } else if phrases as u128 > (patterns as u128) * 50 {
                StatsStatus::HighRatio
            } else {
                StatsStatus::Fine
            };
            let st = ScriptStats { name: copy_string(&self.intent_data[i].name), patterns, phrases, status };
            assert(stats_view(st) == intent_stats(self.intent_data@[i as int]));
            insert_stats(&mut r, st);
            proof {
                let a = all_stats(self.intent_data@, i as int);
                assert(all_stats(self.intent_data@, i + 1) == a.push(stats_view(st)));
                vstd::seq_lib::to_multiset_build(a, stats_view(st));
            }
            i = i + 1;
        }
        r
    }
}

/// Variant counts only grow with more sentences.
pub proof fn lemma_phrase_count_mono(sentences: Seq<String>, a: int, b: int)
    requires
        0 <= a <= b,
    ensures
        phrase_count(sentences, a) <= phrase_count(sentences, b),
    decreases b - a,
{
    if a < b {
        lemma_phrase_count_mono(sentences, a, b - 1);
    }
}

/// A `String` holding the given text.
fn str_to_owned(s: &str) -> (r: String)
    ensures
        r@ == s@,
{
    crate::text::str_to_string(s)
}

} // verus!
