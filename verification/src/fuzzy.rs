//! Fuzzy matching: the most similar sentence of the fuzzy index picks the
//! script, and word alignment with the script's sentences picks the
//! arguments.
use vstd::prelude::*;
use rayon::iter::{IntoParallelRefIterator, ParallelIterator};
use crate::align::{align_words, alignment, is_param_token, is_param_word, lemma_alignment_shape, param_name_of};
use crate::exact::{flag_of, flags_accepted, param_accepts};
use crate::expand::{expand_runtime, expand_runtime_strings};
use crate::intent::{find_intent, intent_pos, FuzzyIndexEntry, MatchResult};
use crate::matcher::{valid_value_spec, YoDo};
use crate::resolve::{range_fn, range_rule, resolve_spec};
use crate::scoring::{similarity, similarity_chars, trigram_check, trigram_pass};
use crate::text::{chars_of, copy_string, lowercase, split_whitespace, str_to_string, to_lowercase, views, words};

verus! {

/// A candidate as plain values: script, sentence, score.
pub type CandidateView = (Seq<char>, Seq<char>, int);

/// The view of an optional candidate.
pub open spec fn cand_view(c: Option<(String, String, i32)>) -> Option<CandidateView> {
    match c {
        Some((s, t, n)) => Some((s@, t@, n as int)),
        None => None,
    }
}

/// An enabled fuzzy index entry whose sentence, lowercased, passes the
/// quick trigram check and is at least as similar to the input as the
/// entry's threshold asks.
pub open spec fn candidate_of(e: FuzzyIndexEntry, input: Seq<char>) -> Option<CandidateView> {
    if !e.fuzzy_enabled {
        None
    } else if !trigram_pass(input, lowercase(e.sentence@)) {
        None
    } else {
        match similarity(input, lowercase(e.sentence@)) {
            Some(score) => if score >= e.threshold_pct {
                Some((e.script@, e.sentence@, score))
            } else {
                None
            },
            None => None,
        }
    }
}

/// The highest-scoring candidate among the first `n`; of equal scores the
/// later one.
pub open spec fn best_candidate(cs: Seq<Option<CandidateView>>, n: int) -> Option<CandidateView>
    decreases n,
{
    if n <= 0 {
        None
    } else {
        let prev = best_candidate(cs, n - 1);
        match cs[n - 1] {
            Some(c) => match prev {
                Some(p) => if p.2 > c.2 {
                    Some(p)
                } else {
                    Some(c)
                },
                None => Some(c),
            },
            None => prev,
        }
    }
}

/// The best of the first `n` candidates is one of them.
proof fn lemma_best_is_candidate(cs: Seq<Option<CandidateView>>, n: int)
    requires
        0 <= n <= cs.len(),
    ensures
        best_candidate(cs, n) matches Some(c) ==> exists|i: int| 0 <= i < n && cs[i] == Some(c),
    decreases n,
{
    if n > 0 {
        lemma_best_is_candidate(cs, n - 1);
        match best_candidate(cs, n) {
            Some(c) => {
                if cs[n - 1] == Some(c) {
                } else {
                    assert(best_candidate(cs, n - 1) == Some(c));
                    let i = choose|i: int| 0 <= i < n - 1 && cs[i] == Some(c);
                    assert(cs[i] == Some(c));
                }
            },
            None => {},
        }
    }
}

/// An index entry is a fuzzy hit for a lowercased input with score `s`:
/// it is enabled, passes the trigram check, and its lowercased sentence is
/// `s`% similar to the input, at least its threshold.
pub open spec fn fuzzy_hit(e: FuzzyIndexEntry, input: Seq<char>, s: int) -> bool {
    &&& e.fuzzy_enabled
    &&& trigram_pass(input, lowercase(e.sentence@))
    &&& similarity(input, lowercase(e.sentence@)) == Some(s)
    &&& s >= e.threshold_pct
}

proof fn lemma_best_dominates(cs: Seq<Option<CandidateView>>, n: int)
    requires
        0 <= n <= cs.len(),
    ensures
        forall|i: int|
            0 <= i < n && (#[trigger] cs[i]) is Some ==> (best_candidate(cs, n) matches Some(b) && b.2
                >= cs[i].unwrap().2),
    decreases n,
{
    if n > 0 {
        lemma_best_dominates(cs, n - 1);
    }
}

/// The fuzzy match is the best hit: every entry that is a hit scores at
/// most what the chosen one scores, there is a choice whenever there is a
/// hit, and the choice is itself a hit with the score it reports.
pub proof fn lemma_best_is_highest(y: YoDo, text: Seq<char>)
    ensures
        forall|i: int, s: int|
            0 <= i < y.fuzzy_index@.len() && #[trigger] fuzzy_hit(y.fuzzy_index@[i], lowercase(text), s)
                ==> (fuzzy_best_spec(y, text) matches Some(b) && b.2 >= s),
        fuzzy_best_spec(y, text) matches Some(b) ==> exists|i: int|
            0 <= i < y.fuzzy_index@.len() && fuzzy_hit(#[trigger] y.fuzzy_index@[i], lowercase(text), b.2)
                && y.fuzzy_index@[i].script@ == b.0 && y.fuzzy_index@[i].sentence@ == b.1,
{
    let input = lowercase(text);
    let cs = candidates_of(y.fuzzy_index@, input);
    let n = y.fuzzy_index@.len() as int;
    lemma_best_dominates(cs, n);
    lemma_best_is_candidate(cs, n);
    assert forall|i: int, s: int|
        0 <= i < y.fuzzy_index@.len() && #[trigger] fuzzy_hit(y.fuzzy_index@[i], input, s) implies (fuzzy_best_spec(
        y,
        text,
    ) matches Some(b) && b.2 >= s) by {
        assert(cs[i] == candidate_of(y.fuzzy_index@[i], input));
        assert(cs[i] is Some);
    }
    match fuzzy_best_spec(y, text) {
        Some(b) => {
            let i = choose|i: int| 0 <= i < n && cs[i] == Some(b);
            assert(cs[i] == candidate_of(y.fuzzy_index@[i], input));
            assert(fuzzy_hit(y.fuzzy_index@[i], input, b.2));
        },
        None => {},
    }
}

/// A score of 100 means the lowercased sentence is the input: the best
/// fuzzy candidate scores 100 exactly when its sentence, lowercased, is
/// the lowercased text.
pub proof fn lemma_best_hundred_iff_identical(y: YoDo, text: Seq<char>)
    ensures
        fuzzy_best_spec(y, text) matches Some(c) ==> (c.2 == 100 <==> lowercase(text) == lowercase(c.1)),
{
    let cs = candidates_of(y.fuzzy_index@, lowercase(text));
    lemma_best_is_candidate(cs, y.fuzzy_index@.len() as int);
    match fuzzy_best_spec(y, text) {
        Some(c) => {
            let i = choose|i: int| 0 <= i < y.fuzzy_index@.len() && cs[i] == Some(c);
            let e = y.fuzzy_index@[i];
            assert(cs[i] == candidate_of(e, lowercase(text)));
            assert(c.1 == e.sentence@);
            crate::scoring::lemma_similarity_hundred_iff_equal(lowercase(text), lowercase(e.sentence@));
        },
        None => {},
    }
}

/// The candidates of the whole fuzzy index for an input.
pub open spec fn candidates_of(index: Seq<FuzzyIndexEntry>, input: Seq<char>) -> Seq<Option<CandidateView>> {
    index.map_values(|e: FuzzyIndexEntry| candidate_of(e, input))
}

/// The best fuzzy candidate for a text.
pub open spec fn fuzzy_best_spec(y: YoDo, text: Seq<char>) -> Option<CandidateView> {
    best_candidate(candidates_of(y.fuzzy_index@, lowercase(text)), y.fuzzy_index@.len() as int)
}

/// The candidate an index entry makes for a lowercased input.
pub fn fuzzy_candidate(entry: &FuzzyIndexEntry, input: &Vec<char>) -> (r: Option<(String, String, i32)>)
    ensures
        cand_view(r) == candidate_of(*entry, input@),
{
    if !entry.fuzzy_enabled {
        return None;
    }
    let ls = to_lowercase(entry.sentence.as_str());
    let lc = chars_of(ls.as_str());
    if !trigram_check(input.as_slice(), lc.as_slice()) {
        return None;
    }
    match similarity_chars(input.as_slice(), lc.as_slice()) {
        Some(score) => {
            if score >= entry.threshold_pct {
                Some((copy_string(&entry.script), copy_string(&entry.sentence), score))
            } else {
                None
            }
        },
        None => None,
    }
}

/// `entries.par_iter().map(..).collect()` with rayon: the candidate of each
/// entry, computed in parallel by `fuzzy_candidate`, collected in the
/// order of the entries.
#[verifier::external_body]
fn par_candidates(entries: &Vec<FuzzyIndexEntry>, input: &Vec<char>) -> (r: Vec<Option<(String, String, i32)>>)
    ensures
        r@.len() == entries@.len(),
        forall|i: int| 0 <= i < r@.len() ==> cand_view(#[trigger] r@[i]) == candidate_of(entries@[i], input@),
{
    entries.par_iter().map(|e| fuzzy_candidate(e, input)).collect()
}

/// The arguments read from aligned words, from pattern word `i` on: each
/// `{param}` word takes the spoken word aligned with it, resolved and
/// checked; nothing when a parameter has no word or its value is refused.
pub open spec fn fuzzy_args_from(
    y: YoDo,
    rng: spec_fn(Seq<char>, Seq<char>, Seq<char>) -> Option<Seq<char>>,
    script: Seq<char>,
    pw: Seq<Seq<char>>,
    iw: Seq<Seq<char>>,
    al: Seq<Option<int>>,
    i: int,
) -> Option<Seq<Seq<char>>>
    decreases pw.len() - i,
{
    if i < 0 || i >= pw.len() {
        Some(seq![])
    } else if is_param_word(pw[i]) {
        match al[i] {
            None => None,
            Some(idx) => {
                let name = param_name_of(pw[i]);
                let r = resolve_spec(y, rng, script, name, iw[idx]);
                if !valid_value_spec(y, script, name, r) {
                    None
                } else {
                    match fuzzy_args_from(y, rng, script, pw, iw, al, i + 1) {
                        Some(rest) => Some(seq!["--"@ + name, r] + rest),
                        None => None,
                    }
                }
            },
        }
    } else {
        fuzzy_args_from(y, rng, script, pw, iw, al, i + 1)
    }
}

/// The arguments a sentence variant gives for spoken text by alignment.
pub open spec fn variant_args(
    y: YoDo,
    rng: spec_fn(Seq<char>, Seq<char>, Seq<char>) -> Option<Seq<char>>,
    script: Seq<char>,
    pattern: Seq<char>,
    text: Seq<char>,
) -> Option<Seq<Seq<char>>> {
    let pw = words(pattern);
    let iw = words(text);
    fuzzy_args_from(y, rng, script, pw, iw, alignment(pw, iw), 0)
}

/// The arguments of the first variant from position `k` on that gives any.
pub open spec fn first_variant(
    y: YoDo,
    rng: spec_fn(Seq<char>, Seq<char>, Seq<char>) -> Option<Seq<char>>,
    script: Seq<char>,
    vs: Seq<Seq<char>>,
    text: Seq<char>,
    k: int,
) -> Option<Seq<Seq<char>>>
    decreases vs.len() - k,
{
    if k < 0 || k >= vs.len() {
        None
    } else {
        match variant_args(y, rng, script, vs[k], text) {
            Some(a) => Some(a),
            None => first_variant(y, rng, script, vs, text, k + 1),
        }
    }
}

/// The arguments of the first sentence from position `j` on one of whose
/// variants gives any.
pub open spec fn first_sentence(
    y: YoDo,
    rng: spec_fn(Seq<char>, Seq<char>, Seq<char>) -> Option<Seq<char>>,
    script: Seq<char>,
    ss: Seq<String>,
    text: Seq<char>,
    j: int,
) -> Option<Seq<Seq<char>>>
    decreases ss.len() - j,
{
    if j < 0 || j >= ss.len() {
        None
    } else {
        match first_variant(y, rng, script, expand_runtime(ss[j]@), text, 0) {
            Some(a) => Some(a),
            None => first_sentence(y, rng, script, ss, text, j + 1),
        }
    }
}

proof fn lemma_fuzzy_args_accepted(
    y: YoDo,
    rng: spec_fn(Seq<char>, Seq<char>, Seq<char>) -> Option<Seq<char>>,
    script: Seq<char>,
    pw: Seq<Seq<char>>,
    iw: Seq<Seq<char>>,
    al: Seq<Option<int>>,
    i: int,
)
    ensures
        fuzzy_args_from(y, rng, script, pw, iw, al, i) matches Some(a) ==> flags_accepted(y, script, a),
    decreases pw.len() - i,
{
    reveal_strlit("--");
    if 0 <= i < pw.len() {
        lemma_fuzzy_args_accepted(y, rng, script, pw, iw, al, i + 1);
        if is_param_word(pw[i]) {
            match al[i] {
                Some(idx) => {
                    let name = param_name_of(pw[i]);
                    let r = resolve_spec(y, rng, script, name, iw[idx]);
                    match fuzzy_args_from(y, rng, script, pw, iw, al, i + 1) {
                        Some(rest) => {
                            if valid_value_spec(y, script, name, r) {
                                let a = seq!["--"@ + name, r] + rest;
                                let f = "--"@ + name;
                                assert(a[0] == f);
                                assert(a[1] == r);
                                assert(f.take(2) =~= "--"@);
                                assert(f.skip(2) =~= name);
                                assert(a.skip(2) =~= rest);
                                assert(param_accepts(y, script, name, r));
                            }
                        },
                        None => {},
                    }
                },
                None => {},
            }
        }
    }
}

proof fn lemma_first_variant_accepted(
    y: YoDo,
    rng: spec_fn(Seq<char>, Seq<char>, Seq<char>) -> Option<Seq<char>>,
    script: Seq<char>,
    vs: Seq<Seq<char>>,
    text: Seq<char>,
    k: int,
)
    ensures
        first_variant(y, rng, script, vs, text, k) matches Some(a) ==> flags_accepted(y, script, a),
    decreases vs.len() - k,
{
    if 0 <= k < vs.len() {
        lemma_first_variant_accepted(y, rng, script, vs, text, k + 1);
        let pw = words(vs[k]);
        let iw = words(text);
        lemma_fuzzy_args_accepted(y, rng, script, pw, iw, alignment(pw, iw), 0);
    }
}

proof fn lemma_first_sentence_accepted(
    y: YoDo,
    rng: spec_fn(Seq<char>, Seq<char>, Seq<char>) -> Option<Seq<char>>,
    script: Seq<char>,
    ss: Seq<String>,
    text: Seq<char>,
    j: int,
)
    ensures
        first_sentence(y, rng, script, ss, text, j) matches Some(a) ==> flags_accepted(y, script, a),
    decreases ss.len() - j,
{
    if 0 <= j < ss.len() {
        lemma_first_sentence_accepted(y, rng, script, ss, text, j + 1);
        lemma_first_variant_accepted(y, rng, script, expand_runtime(ss[j]@), text, 0);
    }
}

/// Every fuzzy match hands its script only values that the script's
/// parameters accept (or no arguments at all).
pub proof fn lemma_fuzzy_args_ok(
    y: YoDo,
    rng: spec_fn(Seq<char>, Seq<char>, Seq<char>) -> Option<Seq<char>>,
    text: Seq<char>,
)
    ensures
        fuzzy_spec(y, rng, text) matches Some((s, a)) ==> flags_accepted(y, s, a),
{
    match fuzzy_best_spec(y, text) {
        Some(c) => match intent_pos(y.intent_data@, c.0) {
            Some(i) => {
                lemma_first_sentence_accepted(y, rng, c.0, y.intent_data@[i].intent.sentences@, text, 0);
            },
            None => {},
        },
        None => {},
    }
}

/// The fuzzy match of a text: the script of the best candidate, with the
/// arguments of its first sentence variant that gives any, or none; no
/// match without a candidate or when the script has no intent.
pub open spec fn fuzzy_spec(
    y: YoDo,
    rng: spec_fn(Seq<char>, Seq<char>, Seq<char>) -> Option<Seq<char>>,
    text: Seq<char>,
) -> Option<(Seq<char>, Seq<Seq<char>>)> {
    match fuzzy_best_spec(y, text) {
        None => None,
        Some(c) => match intent_pos(y.intent_data@, c.0) {
            None => None,
            Some(i) => Some(
                (
                    c.0,
                    match first_sentence(y, rng, c.0, y.intent_data@[i].intent.sentences@, text, 0) {
                        Some(a) => a,
                        None => seq![],
                    },
                ),
            ),
        },
    }
}

impl YoDo {
    /// The most similar enabled sentence of the fuzzy index that reaches
    /// its threshold: script, sentence and score.
    pub fn find_best_fuzzy_match(&self, text: &str) -> (r: Option<(String, String, i32)>)
        ensures
            cand_view(r) == fuzzy_best_spec(*self, text@),
            r matches Some((s, t, k)) ==> (k == 100 <==> lowercase(text@) == lowercase(t@)),
            forall|i: int, sc: int|
                0 <= i < self.fuzzy_index@.len() && #[trigger] fuzzy_hit(self.fuzzy_index@[i], lowercase(text@), sc)
                    ==> (r matches Some((_, _, k)) && k >= sc),
            r matches Some((s, t, k)) ==> exists|i: int|
                0 <= i < self.fuzzy_index@.len() && fuzzy_hit(#[trigger] self.fuzzy_index@[i], lowercase(text@), k as int)
                    && self.fuzzy_index@[i].script@ == s@ && self.fuzzy_index@[i].sentence@ == t@,
    {
        proof {
            lemma_best_hundred_iff_identical(*self, text@);
            lemma_best_is_highest(*self, text@);
        }
        let nl = to_lowercase(text);
        let nin = chars_of(nl.as_str());
        let cands = par_candidates(&self.fuzzy_index, &nin);
        let ghost cs = candidates_of(self.fuzzy_index@, lowercase(text@));
        let mut best: Option<(String, String, i32)> = None;
        let mut k: usize = 0;
        while k < cands.len()
            invariant
                0 <= k <= cands@.len(),
                cands@.len() == self.fuzzy_index@.len(),
                cs == candidates_of(self.fuzzy_index@, lowercase(text@)),
                nin@ == lowercase(text@),
                forall|i: int|
                    0 <= i < cands@.len() ==> cand_view(#[trigger] cands@[i]) == candidate_of(
                        self.fuzzy_index@[i],
                        nin@,
                    ),
                cand_view(best) == best_candidate(cs, k as int),
            decreases cands@.len() - k,
        {
            assert(cs[k as int] == cand_view(cands@[k as int]));
            match &cands[k] {
                Some((s, t, sc)) => {
                    let take = match &best {
                        Some((_, _, bs)) => !(*bs > *sc),
                        None => true,
                    };
                    if take {
                        best = Some((copy_string(s), copy_string(t), *sc));
                    }
                },
                None => {},
            }
            k = k + 1;
        }
        best
    }

    /// The arguments of one aligned sentence variant.
    fn fuzzy_args<R: Fn(String, String, String) -> Option<String>>(
        &self,
        script_name: &str,
        pw: &Vec<String>,
        iw: &Vec<String>,
        al: &Vec<Option<usize>>,
        range: &R,
    ) -> (r: Option<Vec<String>>)
        requires
            range_rule(*range),
            al@.len() == pw@.len(),
            forall|i: int|
                0 <= i < al@.len() ==> (#[trigger] al@[i] matches Some(k) ==> alignment(
                    views(pw@),
                    views(iw@),
                )[i] == Some(k as int)),
            forall|i: int|
                0 <= i < al@.len() ==> (#[trigger] al@[i] is None ==> alignment(
                    views(pw@),
                    views(iw@),
                )[i] is None),
        ensures
            match r {
                Some(a) => variant_args_of(*self, range_fn(*range), script_name@, views(pw@), views(iw@))
                    == Some(views(a@)),
                None => variant_args_of(*self, range_fn(*range), script_name@, views(pw@), views(iw@)) is None,
            },
    {
        let ghost rng = range_fn(*range);
        let ghost p = views(pw@);
        let ghost t = views(iw@);
        let ghost a = alignment(p, t);
        proof {
            lemma_alignment_shape(p, t);
        }
        let mut args: Vec<String> = Vec::new();
        let mut i: usize = 0;
        while i < pw.len()
            invariant
                0 <= i <= pw@.len(),
                range_rule(*range),
                rng == range_fn(*range),
                p == views(pw@),
                t == views(iw@),
                a == alignment(p, t),
                a.len() == p.len(),
                al@.len() == pw@.len(),
                forall|q: int| 0 <= q < p.len() ==> (#[trigger] a[q] matches Some(k) ==> 0 <= k < t.len()),
                forall|q: int|
                    0 <= q < al@.len() ==> (#[trigger] al@[q] matches Some(k) ==> a[q] == Some(k as int)),
                forall|q: int| 0 <= q < al@.len() ==> (#[trigger] al@[q] is None ==> a[q] is None),
                fuzzy_args_from(*self, rng, script_name@, p, t, a, 0) == match fuzzy_args_from(
                    *self,
                    rng,
                    script_name@,
                    p,
                    t,
                    a,
                    i as int,
                ) {
                    Some(rest) => Some(views(args@) + rest),
                    None => None,
                },
            decreases pw@.len() - i,
        {
            assert(p[i as int] == pw@[i as int]@);
            match is_param_token(pw[i].as_str()) {
                Some(name) => {
                    let idx = match al[i] {
                        Some(idx) => idx,
                        None => {
                            assert(al@[i as int] is None);
                            return None;
                        },
                    };
                    assert(al@[i as int] == Some(idx));
                    assert(a[i as int] == Some(idx as int));
                    assert(idx < iw@.len());
                    assert(t[idx as int] == iw@[idx as int]@);
                    let resolved = self.resolve_entity(script_name, name.as_str(), iw[idx].as_str(), range);
                    if !self.is_valid_param_value(script_name, name.as_str(), resolved.as_str()) {
                        return None;
                    }
                    let ghost before = views(args@);
                    args.push(flag_of(name.as_str()));
                    args.push(resolved);
                    proof {
                        assert(views(args@) =~= before + seq!["--"@ + name@, resolved@]);
                        match fuzzy_args_from(*self, rng, script_name@, p, t, a, i + 1) {
                            Some(rest) => {
                                assert(before + (seq!["--"@ + name@, resolved@] + rest) =~= views(args@) + rest);
                            },
                            None => {},
                        }
                    }
                },
                None => {},
            }
            i = i + 1;
        }
        assert(views(args@) + seq![] =~= views(args@));
        Some(args)
    }

    /// Fuzzy-matches a text: picks the script of the most similar index
    /// sentence, then reads the arguments from the first of its sentence
    /// variants whose parameters align with accepted values (no arguments
    /// when none does). `range` is the numeric-range rule.
    pub fn fuzzy_match<R: Fn(String, String, String) -> Option<String>>(&self, text: &str, range: &R) -> (r:
        Option<MatchResult>)
        requires
            range_rule(*range),
        ensures
            match r {
                Some(m) => {
                    &&& fuzzy_spec(*self, range_fn(*range), text@) == Some(
                        (m.script_name@, views(m.args@)),
                    )
                    &&& m.matched_sentence@ == text@
                    &&& m.match_type@ == "fuzzy"@
                },
                None => fuzzy_spec(*self, range_fn(*range), text@) is None,
            },
            r matches Some(m) ==> flags_accepted(*self, m.script_name@, views(m.args@)),
    {
        let (script, _sentence, _score) = match self.find_best_fuzzy_match(text) {
            Some(b) => b,
            None => return None,
        };
        let i = match find_intent(&self.intent_data, script.as_str()) {
            Some(i) => i,
            None => return None,
        };
        let input_words = split_whitespace(text);
        let sentences = &self.intent_data[i].intent.sentences;
        let ghost rng = range_fn(*range);
        let mut j: usize = 0;
        while j < sentences.len()
            invariant
                0 <= j <= sentences@.len(),
                range_rule(*range),
                rng == range_fn(*range),
                views(input_words@) == words(text@),
                fuzzy_spec(*self, rng, text@) == Some(
                    (
                        script@,
                        match first_sentence(*self, rng, script@, sentences@, text@, 0) {
                            Some(a) => a,
                            None => seq![],
                        },
                    ),
                ),
                first_sentence(*self, rng, script@, sentences@, text@, 0) == first_sentence(
                    *self,
                    rng,
                    script@,
                    sentences@,
                    text@,
                    j as int,
                ),
            decreases sentences@.len() - j,
        {
            let variants = expand_runtime_strings(sentences[j].as_str());
            let mut k: usize = 0;
            while k < variants.len()
                invariant
                    0 <= k <= variants@.len(),
                    range_rule(*range),
                    rng == range_fn(*range),
                    views(input_words@) == words(text@),
                    j < sentences@.len(),
                    views(variants@) == expand_runtime(sentences@[j as int]@),
                    fuzzy_spec(*self, rng, text@) == Some(
                        (
                            script@,
                            match first_sentence(*self, rng, script@, sentences@, text@, 0) {
                                Some(a) => a,
                                None => seq![],
                            },
                        ),
                    ),
                    first_sentence(*self, rng, script@, sentences@, text@, 0) == first_sentence(
                        *self,
                        rng,
                        script@,
                        sentences@,
                        text@,
                        j as int,
                    ),
                    first_variant(*self, rng, script@, views(variants@), text@, 0) == first_variant(
                        *self,
                        rng,
                        script@,
                        views(variants@),
                        text@,
                        k as int,
                    ),
                decreases variants@.len() - k,
            {
                let pw = split_whitespace(variants[k].as_str());
                let al = align_words(pw.as_slice(), input_words.as_slice());
                proof {
                    assert(views(variants@)[k as int] == variants@[k as int]@);
                }
                match self.fuzzy_args(script.as_str(), &pw, &input_words, &al, range) {
                    Some(a) => {
                        proof {
                            lemma_fuzzy_args_ok(*self, rng, text@);
                        }
                        return Some(
                            MatchResult {
                                script_name: script,
                                args: a,
                                matched_sentence: str_to_string(text),
                                match_type: str_to_string("fuzzy"),
                            },
                        );
                    },
                    None => {},
                }
                k = k + 1;
            }
            j = j + 1;
        }
        Some(
            MatchResult {
                script_name: script,
                args: Vec::new(),
                matched_sentence: str_to_string(text),
                match_type: str_to_string("fuzzy"),
            },
        )
    }
}

/// The arguments of an aligned variant given its words and the spoken
/// words.
pub open spec fn variant_args_of(
    y: YoDo,
    rng: spec_fn(Seq<char>, Seq<char>, Seq<char>) -> Option<Seq<char>>,
    script: Seq<char>,
    pw: Seq<Seq<char>>,
    iw: Seq<Seq<char>>,
) -> Option<Seq<Seq<char>>> {
    fuzzy_args_from(y, rng, script, pw, iw, alignment(pw, iw), 0)
}

} // verus!
