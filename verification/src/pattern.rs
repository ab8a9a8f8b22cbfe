//! Compiling sentence variants to anchored regular expressions with one
//! capture group per `{parameter}`.
use vstd::prelude::*;
use crate::expand::{expand_runtime, expand_runtime_strings};
use crate::intent::{CompiledPattern, NamedIntent, ScriptPatterns};
use crate::matcher::{wildcard_spec, YoDo};
use crate::regex_ops::{escaped, regex_compiles, regex_escape, regex_valid};
use crate::text::{chars_of, copy_string, find_char, push_all, push_str, string_from_chars, sub_chars, views};

verus! {

/// The position of the first occurrence of a character, or -1.
pub open spec fn pos_of(s: Seq<char>, c: char) -> int
    decreases s.len(),
{
    if s.len() == 0 {
        -1
    } else if s[0] == c {
        0
    } else {
        let r = pos_of(s.drop_first(), c);
        if r < 0 {
            -1
        } else {
            r + 1
        }
    }
}

/// A position before which the character does not occur.
pub proof fn lemma_pos_of(s: Seq<char>, c: char, i: int)
    requires
        0 <= i <= s.len(),
        forall|k: int| 0 <= k < i ==> s[k] != c,
    ensures
        i < s.len() && s[i] == c ==> pos_of(s, c) == i,
        i == s.len() ==> pos_of(s, c) == -1,
    decreases i,
{
    if i > 0 {
        let t = s.drop_first();
        assert forall|k: int| 0 <= k < i - 1 implies t[k] != c by {
            assert(t[k] == s[k + 1]);
        }
        lemma_pos_of(t, c, i - 1);
    }
}

/// Finds the first occurrence of a character.
pub fn find_pos(s: &[char], c: char) -> (r: Option<usize>)
    ensures
        match r {
            Some(i) => i < s@.len() && pos_of(s@, c) == i as int && s@[i as int] == c && forall|k: int|
                0 <= k < i ==> s@[k] != c,
            None => pos_of(s@, c) == -1,
        },
{
    let r = find_char(s, c);
    proof {
        match r {
            Some(i) => lemma_pos_of(s@, c, i as int),
            None => lemma_pos_of(s@, c, s@.len() as int),
        }
    }
    r
}

/// Every `{` of the sentence, taken in turn, is closed by a `}` after it
/// (a `}` before the next `{` makes the compiler fail).
pub open spec fn braces_ok(s: Seq<char>) -> bool
    decreases s.len(),
{
    let a = pos_of(s, '{');
    let b = pos_of(s, '}');
    if a < 0 || b < 0 {
        true
    } else {
        0 <= a < b < s.len() && braces_ok(s.skip(b + 1))
    }
}

/// Whether every `{` of a sentence, taken in turn, is closed by a `}` after
/// it.
pub fn braces_in_order(sentence: &str) -> (b: bool)
    ensures
        b == braces_ok(sentence@),
{
    let mut cur: Vec<char> = chars_of(sentence);
    loop
        invariant
            braces_ok(cur@) == braces_ok(sentence@),
        decreases cur@.len(),
    {
        let a = match find_pos(cur.as_slice(), '{') {
            Some(a) => a,
            None => return true,
        };
        let b = match find_pos(cur.as_slice(), '}') {
            Some(b) => b,
            None => return true,
        };
        if b <= a {
            return false;
        }
        let n = cur.len();
        cur = sub_chars(cur.as_slice(), b + 1, n);
    }
}

/// Whether every variant of every sentence of the intents has its braces in
/// order.
pub fn intents_compile(intents: &Vec<NamedIntent>) -> (b: bool)
    ensures
        b == sentences_compile(intents@),
{
    let mut i: usize = 0;
    while i < intents.len()
        invariant
            0 <= i <= intents@.len(),
            forall|p: int, j: int, k: int|
                0 <= p < i && 0 <= j < intents@[p].intent.sentences@.len() && 0 <= k
                    < expand_runtime(intents@[p].intent.sentences@[j]@).len() ==> braces_ok(
                    #[trigger] expand_runtime(intents@[p].intent.sentences@[j]@)[k],
                ),
        decreases intents@.len() - i,
    {
        let sentences = &intents[i].intent.sentences;
        let mut j: usize = 0;
        while j < sentences.len()
            invariant
                0 <= j <= sentences@.len(),
                i < intents@.len(),
                sentences@ == intents@[i as int].intent.sentences@,
                forall|p: int, q: int, k: int|
                    0 <= p < i && 0 <= q < intents@[p].intent.sentences@.len() && 0 <= k
                        < expand_runtime(intents@[p].intent.sentences@[q]@).len() ==> braces_ok(
                        #[trigger] expand_runtime(intents@[p].intent.sentences@[q]@)[k],
                    ),
                forall|q: int, k: int|
                    0 <= q < j && 0 <= k < expand_runtime(sentences@[q]@).len() ==> braces_ok(
                        #[trigger] expand_runtime(sentences@[q]@)[k],
                    ),
            decreases sentences@.len() - j,
        {
            let vs = expand_runtime_strings(sentences[j].as_str());
            let mut k: usize = 0;
            while k < vs.len()
                invariant
                    0 <= k <= vs@.len(),
                    i < intents@.len(),
                    j < sentences@.len(),
                    sentences@ == intents@[i as int].intent.sentences@,
                    views(vs@) == expand_runtime(sentences@[j as int]@),
                    forall|m: int| 0 <= m < k ==> braces_ok(#[trigger] expand_runtime(sentences@[j as int]@)[m]),
                decreases vs@.len() - k,
            {
                if !braces_in_order(vs[k].as_str()) {
                    assert(views(vs@)[k as int] == vs@[k as int]@);
                    proof {
                        if sentences_compile(intents@) {
                            assert(braces_ok(expand_runtime(intents@[i as int].intent.sentences@[j as int]@)[k as int]));
                        }
                    }
                    return false;
                }
                assert(views(vs@)[k as int] == vs@[k as int]@);
                k = k + 1;
            }
            j = j + 1;
        }
        i = i + 1;
    }
    true
}

/// Some parameter in the rest of the sentence is a wildcard.
pub open spec fn next_wildcard(y: YoDo, script: Seq<char>, s: Seq<char>) -> bool
    decreases s.len(),
{
    let a = pos_of(s, '{');
    let b = pos_of(s, '}');
    if a < 0 || b < 0 || !(0 <= a < b < s.len()) {
        false
    } else {
        wildcard_spec(y, script, s.subrange(a + 1, b)) || next_wildcard(y, script, s.skip(b + 1))
    }
}

/// The capture group of a parameter: anything for a wildcard; one word
/// when a wildcard follows; one word between word boundaries otherwise.
pub open spec fn group_for(y: YoDo, script: Seq<char>, param: Seq<char>, after: Seq<char>) -> Seq<char> {
    if wildcard_spec(y, script, param) {
        "(.*)"@
    } else if next_wildcard(y, script, after) {
        "([^ ]+)"@
    } else {
        "\\b([^ ]+)\\b"@
    }
}

/// The regular expression of a sentence without its anchors: literal text
/// escaped, each `{parameter}` replaced by its group.
pub open spec fn matcher_body(y: YoDo, script: Seq<char>, s: Seq<char>) -> Seq<char>
    decreases s.len(),
{
    let a = pos_of(s, '{');
    let b = pos_of(s, '}');
    if a < 0 || b < 0 {
        escaped(s)
    } else if 0 <= a < b < s.len() {
        escaped(s.take(a)) + group_for(y, script, s.subrange(a + 1, b), s.skip(b + 1))
            + matcher_body(y, script, s.skip(b + 1))
    } else {
        seq![]
    }
}

/// The parameter names of a sentence, in order.
pub open spec fn matcher_params(s: Seq<char>) -> Seq<Seq<char>>
    decreases s.len(),
{
    let a = pos_of(s, '{');
    let b = pos_of(s, '}');
    if a < 0 || b < 0 || !(0 <= a < b < s.len()) {
        seq![]
    } else {
        seq![s.subrange(a + 1, b)] + matcher_params(s.skip(b + 1))
    }
}

/// The anchored regular expression of a sentence.
pub open spec fn matcher_regex(y: YoDo, script: Seq<char>, s: Seq<char>) -> Seq<char> {
    "^"@ + matcher_body(y, script, s) + "$"@
}

impl YoDo {
    /// Whether a parameter after this point of a sentence is a wildcard.
    fn next_is_wildcard(&self, script_name: &str, after: &Vec<char>) -> (b: bool)
        requires
            braces_ok(after@),
        ensures
            b == next_wildcard(*self, script_name@, after@),
    {
        let mut look: Vec<char> = sub_chars(after.as_slice(), 0, after.len());
        assert(after@.subrange(0, after@.len() as int) =~= after@);
        loop
            invariant
                braces_ok(look@),
                next_wildcard(*self, script_name@, after@) == next_wildcard(
                    *self,
                    script_name@,
                    look@,
                ),
            decreases look@.len(),
        {
            let a = match find_pos(look.as_slice(), '{') {
                Some(a) => a,
                None => return false,
            };
            let b = match find_pos(look.as_slice(), '}') {
                Some(b) => b,
                None => return false,
            };
            let param = sub_chars(look.as_slice(), a + 1, b);
            let ps = string_from_chars(param.as_slice());
            if self.is_wildcard_param(script_name, ps.as_str()) {
                return true;
            }
            assert(a < b && b < look@.len());
            let n = look.len();
            look = sub_chars(look.as_slice(), b + 1, n);
        }
    }

    /// Compiles a sentence variant: the anchored regular expression with
    /// one group per parameter, and the parameter names; nothing when the
    /// expression does not compile.
    pub fn build_pattern_matcher(&self, script_name: &str, sentence: &str) -> (r: Option<(String, Vec<String>)>)
        requires
            braces_ok(sentence@),
        ensures
            match r {
                Some((re, params)) => {
                    &&& re@ == matcher_regex(*self, script_name@, sentence@)
                    &&& views(params@) == matcher_params(sentence@)
                    &&& regex_valid(re@)
                },
                None => !regex_valid(matcher_regex(*self, script_name@, sentence@)),
            },
    {
        let mut cur: Vec<char> = chars_of(sentence);
        let mut body: Vec<char> = Vec::new();
        let mut params: Vec<String> = Vec::new();
        loop
            invariant
                braces_ok(cur@),
                body@ + matcher_body(*self, script_name@, cur@) == matcher_body(
                    *self,
                    script_name@,
                    sentence@,
                ),
                views(params@) + matcher_params(cur@) == matcher_params(sentence@),
            ensures
                braces_ok(cur@),
                body@ + matcher_body(*self, script_name@, cur@) == matcher_body(
                    *self,
                    script_name@,
                    sentence@,
                ),
                views(params@) + matcher_params(cur@) == matcher_params(sentence@),
                pos_of(cur@, '{') < 0 || pos_of(cur@, '}') < 0,
            decreases cur@.len(),
        {
            let a = match find_pos(cur.as_slice(), '{') {
                Some(a) => a,
                None => break,
            };
            let b = match find_pos(cur.as_slice(), '}') {
                Some(b) => b,
                None => break,
            };
            assert(a < b && b < cur@.len());
            let before = sub_chars(cur.as_slice(), 0, a);
            let param = sub_chars(cur.as_slice(), a + 1, b);
            let n = cur.len();
            let after = sub_chars(cur.as_slice(), b + 1, n);
            assert(before@ == cur@.take(a as int));
            assert(after@ == cur@.skip(b + 1));
            let bs = string_from_chars(before.as_slice());
            let esc = regex_escape(bs.as_str());
            let ghost body0 = body@;
            push_str(&mut body, esc.as_str());
            let ps = string_from_chars(param.as_slice());
            let ghost p0 = views(params@);
            if self.is_wildcard_param(script_name, ps.as_str()) {
                push_str(&mut body, "(.*)");
            } else if self.next_is_wildcard(script_name, &after) {
                push_str(&mut body, "([^ ]+)");
            } else {
                push_str(&mut body, "\\b([^ ]+)\\b");
            }
            params.push(ps);
            proof {
                assert(views(params@) =~= p0.push(param@));
                assert(views(params@) + matcher_params(after@) =~= p0 + (seq![param@]
                    + matcher_params(after@)));
                assert(body@ =~= body0 + escaped(cur@.take(a as int)) + group_for(
                    *self,
                    script_name@,
                    param@,
                    after@,
                ));
                assert(body@ + matcher_body(*self, script_name@, after@) =~= body0 + (escaped(
                    cur@.take(a as int),
                ) + group_for(*self, script_name@, param@, after@) + matcher_body(
                    *self,
                    script_name@,
                    after@,
                )));
            }
            cur = after;
        }
        let rest = string_from_chars(cur.as_slice());
        let esc = regex_escape(rest.as_str());
        let ghost body0 = body@;
        push_str(&mut body, esc.as_str());
        proof {
            assert(matcher_params(cur@) =~= seq![]);
            assert(views(params@) =~= views(params@) + matcher_params(cur@));
            assert(body@ =~= body0 + matcher_body(*self, script_name@, cur@));
        }
        let mut src: Vec<char> = Vec::new();
        push_str(&mut src, "^");
        push_all(&mut src, body.as_slice());
        push_str(&mut src, "$");
        let re = string_from_chars(src.as_slice());
        if regex_compiles(re.as_str()) {
            Some((re, params))
        } else {
            None
        }
    }
}

/// A compiled pattern as plain values: the expression, the parameter
/// names and the script.
pub type PatternView = (Seq<char>, Seq<Seq<char>>, Seq<char>);

/// The view of a compiled pattern.
pub open spec fn pattern_view(c: CompiledPattern) -> PatternView {
    (c.regex@, views(c.param_names@), c.script_name@)
}

/// The views of compiled patterns.
pub open spec fn pattern_views(v: Seq<CompiledPattern>) -> Seq<PatternView> {
    v.map_values(|c: CompiledPattern| pattern_view(c))
}

/// The views of the pattern groups of scripts.
pub open spec fn group_views(v: Seq<ScriptPatterns>) -> Seq<(Seq<char>, Seq<PatternView>)> {
    v.map_values(|g: ScriptPatterns| (g.script@, pattern_views(g.patterns@)))
}

/// The patterns of some variants that compile, in order.
pub open spec fn variant_patterns(y: YoDo, script: Seq<char>, vs: Seq<Seq<char>>) -> Seq<PatternView>
    decreases vs.len(),
{
    if vs.len() == 0 {
        seq![]
    } else {
        let v = vs.last();
        variant_patterns(y, script, vs.drop_last()) + if regex_valid(matcher_regex(y, script, v)) {
            seq![(matcher_regex(y, script, v), matcher_params(v), script)]
        } else {
            seq![]
        }
    }
}

/// The patterns of the variants of some sentences, in order.
pub open spec fn sentence_patterns(y: YoDo, script: Seq<char>, ss: Seq<Seq<char>>) -> Seq<PatternView>
    decreases ss.len(),
{
    if ss.len() == 0 {
        seq![]
    } else {
        sentence_patterns(y, script, ss.drop_last()) + variant_patterns(
            y,
            script,
            expand_runtime(ss.last()),
        )
    }
}

/// The pattern group of each intent that has at least one pattern, in the
/// order of the intents.
pub open spec fn all_patterns(y: YoDo, intents: Seq<NamedIntent>) -> Seq<(Seq<char>, Seq<PatternView>)>
    decreases intents.len(),
{
    if intents.len() == 0 {
        seq![]
    } else {
        let it = intents.last();
        let ps = sentence_patterns(y, it.name@, views(it.intent.sentences@));
        all_patterns(y, intents.drop_last()) + if ps.len() > 0 {
            seq![(it.name@, ps)]
        } else {
            seq![]
        }
    }
}

/// Every variant of every sentence of the intents has its braces in order.
pub open spec fn sentences_compile(intents: Seq<NamedIntent>) -> bool {
    forall|i: int, j: int, k: int|
        0 <= i < intents.len() && 0 <= j < intents[i].intent.sentences@.len() && 0 <= k
            < expand_runtime(intents[i].intent.sentences@[j]@).len() ==> braces_ok(
            #[trigger] expand_runtime(intents[i].intent.sentences@[j]@)[k],
        )
}

/// Two matchers that differ at most in their compiled patterns.
pub open spec fn same_but_patterns(a: YoDo, b: YoDo) -> bool {
    &&& a.intent_data == b.intent_data
    &&& a.fuzzy_index == b.fuzzy_index
    &&& a.fuzzy_entity_dict == b.fuzzy_entity_dict
    &&& a.processing_order == b.processing_order
    &&& a.fuzzy_threshold == b.fuzzy_threshold
    &&& a.debug == b.debug
    &&& a.memory_data == b.memory_data
    &&& a.split_words == b.split_words
    &&& a.sorry_phrases == b.sorry_phrases
}

impl YoDo {
    /// The compiled patterns of the variants of one sentence.
    fn patterns_of_variants(&self, script_name: &String, vs: &Vec<String>, out: &mut Vec<CompiledPattern>)
        requires
            forall|k: int| 0 <= k < vs@.len() ==> braces_ok(#[trigger] vs@[k]@),
        ensures
            pattern_views(final(out)@) == pattern_views(old(out)@) + variant_patterns(
                *self,
                script_name@,
                views(vs@),
            ),
    {
        let mut k: usize = 0;
        let ghost start = pattern_views(out@);
        while k < vs.len()
            invariant
                0 <= k <= vs@.len(),
                forall|m: int| 0 <= m < vs@.len() ==> braces_ok(#[trigger] vs@[m]@),
                pattern_views(out@) == start + variant_patterns(
                    *self,
                    script_name@,
                    views(vs@).take(k as int),
                ),
            decreases vs@.len() - k,
        {
            let ghost before = pattern_views(out@);
            assert(views(vs@).take(k + 1).drop_last() =~= views(vs@).take(k as int));
            assert(views(vs@).take(k + 1).last() == vs@[k as int]@);
            match self.build_pattern_matcher(script_name.as_str(), vs[k].as_str()) {
                Some((re, params)) => {
                    out.push(CompiledPattern { regex: re, param_names: params, script_name: copy_string(script_name) });
                    assert(pattern_views(out@) =~= before.push(
                        (matcher_regex(*self, script_name@, vs@[k as int]@), matcher_params(vs@[k as int]@), script_name@),
                    ));
                },
                None => {},
            }
            k = k + 1;
        }
        assert(views(vs@).take(vs@.len() as int) =~= views(vs@));
    }

    /// Compiles the variants of every sentence of every intent; an intent
    /// without any pattern that compiles gets no group.
    pub fn precompile_patterns(&mut self)
        requires
            sentences_compile(old(self).intent_data@),
        ensures
            same_but_patterns(*old(self), *final(self)),
            group_views(final(self).compiled_patterns@) == all_patterns(
                *old(self),
                old(self).intent_data@,
            ),
    {
        let mut all: Vec<ScriptPatterns> = Vec::new();
        let mut i: usize = 0;
        while i < self.intent_data.len()
            invariant
                0 <= i <= self.intent_data@.len(),
                sentences_compile(self.intent_data@),
                group_views(all@) == all_patterns(*self, self.intent_data@.take(i as int)),
            decreases self.intent_data@.len() - i,
        {
            let name = &self.intent_data[i].name;
            let sentences = &self.intent_data[i].intent.sentences;
            let mut ps: Vec<CompiledPattern> = Vec::new();
            let mut j: usize = 0;
            while j < sentences.len()
                invariant
                    0 <= j <= sentences@.len(),
                    i < self.intent_data@.len(),
                    sentences@ == self.intent_data@[i as int].intent.sentences@,
                    name@ == self.intent_data@[i as int].name@,
                    sentences_compile(self.intent_data@),
                    pattern_views(ps@) == sentence_patterns(
                        *self,
                        name@,
                        views(sentences@).take(j as int),
                    ),
                decreases sentences@.len() - j,
            {
                let vs = expand_runtime_strings(sentences[j].as_str());
                proof {
                    assert forall|k: int| 0 <= k < vs@.len() implies braces_ok(#[trigger] vs@[k]@) by {
                        assert(vs@[k]@ == views(vs@)[k]);
                        assert(braces_ok(expand_runtime(self.intent_data@[i as int].intent.sentences@[j as int]@)[k]));
                    }
                    assert(views(sentences@).take(j + 1).drop_last() =~= views(sentences@).take(j as int));
                    assert(views(sentences@).take(j + 1).last() == sentences@[j as int]@);
                }
                self.patterns_of_variants(name, &vs, &mut ps);
                j = j + 1;
            }
            assert(views(sentences@).take(sentences@.len() as int) =~= views(sentences@));
            assert(self.intent_data@.take(i + 1).drop_last() =~= self.intent_data@.take(i as int));
            let ghost before = group_views(all@);
            if ps.len() > 0 {
                all.push(ScriptPatterns { script: copy_string(name), patterns: ps });
                assert(group_views(all@) =~= before.push((self.intent_data@[i as int].name@, pattern_views(ps@))));
            }
            i = i + 1;
        }
        assert(self.intent_data@.take(self.intent_data@.len() as int) =~= self.intent_data@);
        self.compiled_patterns = all;
    }
}

} // verus!
