//! One request from spoken input to outcome: the input is split into
//! commands at the split words, and each command is matched exactly, then
//! fuzzily, or reported with its closest candidates.
use vstd::prelude::*;
use crate::exact::exact_from;
use crate::fuzzy::{cand_view, candidate_of, fuzzy_candidate, fuzzy_spec, CandidateView};
use crate::intent::{FuzzyIndexEntry, MatchResult, NamedIntent};
use crate::matcher::{normalized, YoDo};
use crate::order::{intent_key, names_distinct, order_keys, strictly_ordered};
use crate::regex_ops::{regex_split, regex_split_parts, strings_view};
use crate::resolve::{range_fn, range_rule};
use crate::text::{chars_of, contains_chars, contains_sub, join, join_strings, lowercase, str_to_string, to_lowercase, trim, trim_str, views};

verus! {

/// What became of one spoken command.
pub enum InputOutcome {
    /// A script matched; the caller runs it.
    Matched(MatchResult),
    /// Nothing matched: every fuzzy candidate, and the (at most three)
    /// candidates of at least 50% that are shown to the user.
    NoMatch { candidates: Vec<(String, String, i32)>, shown: Vec<(String, String, i32)> },
}

/// The candidates of the first `n` index entries that exist, in order.
pub open spec fn present(cs: Seq<Option<CandidateView>>, n: int) -> Seq<CandidateView>
    decreases n,
{
    if n <= 0 {
        seq![]
    } else {
        present(cs, n - 1) + match cs[n - 1] {
            Some(c) => seq![c],
            None => seq![],
        }
    }
}

/// The first three candidates of at least 50%, from position `i` on.
pub open spec fn shown_from(cs: Seq<CandidateView>, i: int, room: int) -> Seq<CandidateView>
    decreases cs.len() - i,
{
    if i < 0 || i >= cs.len() || room <= 0 {
        seq![]
    } else if cs[i].2 >= 50 {
        seq![cs[i]] + shown_from(cs, i + 1, room - 1)
    } else {
        shown_from(cs, i + 1, room)
    }
}

/// The fuzzy candidates of the raw (lowercased) input, for the report.
pub open spec fn report_candidates(index: Seq<FuzzyIndexEntry>, input: Seq<char>) -> Seq<CandidateView> {
    present(
        index.map_values(|e: FuzzyIndexEntry| candidate_of(e, lowercase(input))),
        index.len() as int,
    )
}

/// The views of a list of candidates.
pub open spec fn cands_view(v: Seq<(String, String, i32)>) -> Seq<CandidateView> {
    v.map_values(|c: (String, String, i32)| (c.0@, c.1@, c.2 as int))
}

/// The outcome of one command as plain values: `Ok` with the script, the
/// arguments, the matched text and the kind of match; `Err` with the
/// candidates and the ones shown.
pub open spec fn outcome_spec(
    y: YoDo,
    rng: spec_fn(Seq<char>, Seq<char>, Seq<char>) -> Option<Seq<char>>,
    input: Seq<char>,
) -> Result<(Seq<char>, Seq<Seq<char>>, Seq<char>, Seq<char>), (Seq<CandidateView>, Seq<CandidateView>)> {
    let n = normalized(input);
    match exact_from(y, rng, lowercase(n), 0) {
        Some((s, a)) => Ok((s, a, lowercase(n), "exact"@)),
        None => match fuzzy_spec(y, rng, n) {
            Some((s, a)) => Ok((s, a, n, "fuzzy"@)),
            None => {
                let cs = report_candidates(y.fuzzy_index@, input);
                Err((cs, shown_from(cs, 0, 3)))
            },
        },
    }
}

/// The view of an outcome.
pub open spec fn outcome_view(o: InputOutcome) -> Result<(Seq<char>, Seq<Seq<char>>, Seq<char>, Seq<char>), (Seq<CandidateView>, Seq<CandidateView>)> {
    match o {
        InputOutcome::Matched(m) => Ok((m.script_name@, views(m.args@), m.matched_sentence@, m.match_type@)),
        InputOutcome::NoMatch { candidates, shown } => Err((cands_view(candidates@), cands_view(shown@))),
    }
}

/// The pieces of a text that are not blank, trimmed.
pub open spec fn kept_parts(ps: Seq<Seq<char>>) -> Seq<Seq<char>>
    decreases ps.len(),
{
    if ps.len() == 0 {
        seq![]
    } else {
        kept_parts(ps.drop_last()) + if trim(ps.last()).len() > 0 {
            seq![trim(ps.last())]
        } else {
            seq![]
        }
    }
}

/// Some split word occurs in the lowercased input.
pub open spec fn has_split_word(words: Seq<Seq<char>>, input: Seq<char>) -> bool {
    exists|k: int| 0 <= k < words.len() && contains_sub(lowercase(input), #[trigger] words[k])
}

/// The commands of an input: when a split word occurs, the trimmed
/// non-blank pieces between matches of the alternation of the split words
/// (nothing when that expression does not compile); otherwise the input.
pub open spec fn split_spec(words: Seq<Seq<char>>, input: Seq<char>) -> Option<Seq<Seq<char>>> {
    if has_split_word(words, input) {
        match regex_split_parts(join(words, "|"@), input) {
            Some(ps) => Some(kept_parts(ps)),
            None => None,
        }
    } else {
        Some(seq![input])
    }
}

fn copy_candidate(c: &(String, String, i32)) -> (r: (String, String, i32))
    ensures
        (r.0@, r.1@, r.2 as int) == (c.0@, c.1@, c.2 as int),
{
    (crate::text::copy_string(&c.0), crate::text::copy_string(&c.1), c.2)
}

/// The pieces of a split request that hold a command: each trimmed, the
/// blank ones dropped (see `kept_parts`).
pub fn keep_parts(pieces: &Vec<String>) -> (r: Vec<String>)
    ensures
        views(r@) == kept_parts(strings_view(*pieces)),
{
    let ghost pv = strings_view(*pieces);
    let mut out: Vec<String> = Vec::new();
    let mut i: usize = 0;
    while i < pieces.len()
        invariant
            0 <= i <= pieces@.len(),
            pv == strings_view(*pieces),
            views(out@) == kept_parts(pv.take(i as int)),
        decreases pieces@.len() - i,
    {
        assert(pv.take(i + 1).drop_last() =~= pv.take(i as int));
        assert(pv.take(i + 1).last() == pieces@[i as int]@);
        let pc = chars_of(pieces[i].as_str());
        let tc = crate::text::trim_chars(pc.as_slice());
        let ghost before = views(out@);
        if tc.len() > 0 {
            let t = crate::text::string_from_chars(tc.as_slice());
            out.push(t);
            assert(views(out@) =~= before + seq![t@]);
        } else {
            assert(views(out@) =~= before + seq![]);
        }
        i = i + 1;
    }
    assert(pv.take(pieces@.len() as int) =~= pv);
    out
}

/// Whether a request succeeded: at least one of its commands was
/// understood.
pub fn request_ok(understood: &Vec<bool>) -> (ok: bool)
    ensures
        ok == exists|i: int| 0 <= i < understood@.len() && understood@[i],
{
    let mut i: usize = 0;
    while i < understood.len()
        invariant
            0 <= i <= understood@.len(),
            forall|k: int| 0 <= k < i ==> !understood@[k],
        decreases understood@.len() - i,
    {
        if understood[i] {
            return true;
        }
        i = i + 1;
    }
    false
}

/// Splits spoken input into commands at the split words (see
/// `split_spec`).
pub fn split_input(split_words: &Vec<String>, input: &str) -> (r: Option<Vec<String>>)
    ensures
        match r {
            Some(v) => split_spec(views(split_words@), input@) == Some(views(v@)),
            None => split_spec(views(split_words@), input@) is None,
        },
{
    let lower = to_lowercase(input);
    let lc = chars_of(lower.as_str());
    let mut found = false;
    let mut k: usize = 0;
    while k < split_words.len()
        invariant
            0 <= k <= split_words@.len(),
            lc@ == lowercase(input@),
            found <==> exists|m: int| 0 <= m < k && contains_sub(lowercase(input@), #[trigger] views(split_words@)[m]),
        decreases split_words@.len() - k,
    {
        let wc = chars_of(split_words[k].as_str());
        if contains_chars(lc.as_slice(), wc.as_slice()) {
            assert(contains_sub(lowercase(input@), views(split_words@)[k as int]));
            found = true;
        }
        k = k + 1;
    }
    if !found {
        let mut v: Vec<String> = Vec::new();
        v.push(str_to_string(input));
        assert(views(v@) =~= seq![input@]);
        return Some(v);
    }
    let pattern = join_strings(split_words, "|");
    match regex_split(pattern.as_str(), input) {
        None => None,
        Some(pieces) => {
            Some(keep_parts(&pieces))
        },
    }
}

impl YoDo {
    /// The fuzzy candidates of the raw input, in index order.
    fn report_candidates(&self, input: &str) -> (r: Vec<(String, String, i32)>)
        ensures
            cands_view(r@) == report_candidates(self.fuzzy_index@, input@),
    {
        let nl = to_lowercase(input);
        let nin = chars_of(nl.as_str());
        let ghost cs = self.fuzzy_index@.map_values(|e: FuzzyIndexEntry| candidate_of(e, lowercase(input@)));
        let mut out: Vec<(String, String, i32)> = Vec::new();
        let mut k: usize = 0;
        while k < self.fuzzy_index.len()
            invariant
                0 <= k <= self.fuzzy_index@.len(),
                nin@ == lowercase(input@),
                cs == self.fuzzy_index@.map_values(|e: FuzzyIndexEntry| candidate_of(e, lowercase(input@))),
                cands_view(out@) == present(cs, k as int),
            decreases self.fuzzy_index@.len() - k,
        {
            let c = fuzzy_candidate(&self.fuzzy_index[k], &nin);
            let ghost before = cands_view(out@);
            match c {
                Some(x) => {
                    let ghost xv = (x.0@, x.1@, x.2 as int);
                    out.push(x);
                    assert(cands_view(out@) =~= before + seq![xv]);
                },
                None => {
                    assert(cands_view(out@) =~= before + seq![]);
                },
            }
            k = k + 1;
        }
        out
    }

    /// Matches one spoken command: exactly on the normalized input, else
    /// fuzzily, else reports the candidates (see `outcome_spec`).
    pub fn process_single_input<R: Fn(String, String, String) -> Option<String>>(&self, input: &str, range: &R) -> (r:
        InputOutcome)
        requires
            range_rule(*range),
        ensures
            outcome_view(r) == outcome_spec(*self, range_fn(*range), input@),
    {
        let normalized_text = Self::normalize_input(input);
        let candidates = self.report_candidates(input);
        match self.exact_match(normalized_text.as_str(), range) {
            Some(m) => return InputOutcome::Matched(m),
            None => {},
        }
        match self.fuzzy_match(normalized_text.as_str(), range) {
            Some(m) => return InputOutcome::Matched(m),
            None => {},
        }
        let ghost cs = cands_view(candidates@);
        let mut shown: Vec<(String, String, i32)> = Vec::new();
        let mut i: usize = 0;
        let mut room: usize = 3;
        while i < candidates.len()
            invariant
                0 <= i <= candidates@.len(),
                room <= 3,
                cs == cands_view(candidates@),
                shown_from(cs, 0, 3) == cands_view(shown@) + shown_from(cs, i as int, room as int),
            decreases candidates@.len() - i,
        {
            if room > 0 && candidates[i].2 >= 50 {
                let ghost before = cands_view(shown@);
                shown.push(copy_candidate(&candidates[i]));
                assert(cands_view(shown@) =~= before + seq![cs[i as int]]);
                room = room - 1;
            }
            i = i + 1;
        }
        assert(cands_view(shown@) + seq![] =~= cands_view(shown@));
        InputOutcome::NoMatch { candidates, shown }
    }

    /// Handles a request: sets the fuzzy threshold, ranks the scripts,
    /// splits the input into commands and matches each. Nothing when the
    /// input cannot be split (a split word occurs but their alternation does
    /// not compile) or leaves no command.
    pub fn run<R: Fn(String, String, String) -> Option<String>>(&mut self, input: &str, fuzzy_threshold: i32, range: &R) -> (r:
        Option<Vec<InputOutcome>>)
        requires
            range_rule(*range),
            names_distinct(old(self).intent_data@),
            old(self).memory_data.history.recent_commands@.len()
                + old(self).memory_data.history.confirmed_matches@.len() <= i32::MAX,
        ensures
            final(self).fuzzy_threshold == fuzzy_threshold,
            final(self).intent_data == old(self).intent_data,
            final(self).compiled_patterns == old(self).compiled_patterns,
            final(self).memory_data == old(self).memory_data,
            final(self).processing_order@.len() == old(self).intent_data@.len(),
            strictly_ordered(order_keys(final(self).processing_order@)),
            order_keys(final(self).processing_order@).to_set() == old(self).intent_data@.map_values(
                |it: NamedIntent| intent_key(*old(self), it),
            ).to_set(),
            match split_spec(views(old(self).split_words@), input@) {
                Some(parts) => if parts.len() == 0 {
                    r is None
                } else {
                    r matches Some(outs) && outs@.len() == parts.len() && forall|k: int|
                        0 <= k < parts.len() ==> outcome_view(#[trigger] outs@[k]) == outcome_spec(
                            *final(self),
                            range_fn(*range),
                            parts[k],
                        )
                },
                None => r is None,
            },
    {
        self.fuzzy_threshold = fuzzy_threshold;
        let ghost ranked = *self;
        self.calculate_processing_order();
        proof {
            assert(ranked.intent_data@.map_values(|it: NamedIntent| intent_key(ranked, it))
                =~= old(self).intent_data@.map_values(|it: NamedIntent| intent_key(*old(self), it)));
        }
        let parts = match split_input(&self.split_words, input) {
            Some(p) => p,
            None => return None,
        };
        if parts.len() == 0 {
            return None;
        }
        let mut outs: Vec<InputOutcome> = Vec::new();
        let mut k: usize = 0;
        while k < parts.len()
            invariant
                0 <= k <= parts@.len(),
                range_rule(*range),
                outs@.len() == k,
                forall|m: int| 0 <= m < k ==> outcome_view(#[trigger] outs@[m]) == outcome_spec(
                    *self,
                    range_fn(*range),
                    parts@[m]@,
                ),
            decreases parts@.len() - k,
        {
            let o = self.process_single_input(parts[k].as_str(), range);
            outs.push(o);
            k = k + 1;
        }
        proof {
            assert forall|m: int| 0 <= m < parts@.len() implies views(parts@)[m] == parts@[m]@ by {}
        }
        Some(outs)
    }
}

/// The arguments as shown after a match: in pairs, a last odd one left
/// out.
pub open spec fn arg_pairs_spec(args: Seq<Seq<char>>) -> Seq<(Seq<char>, Seq<char>)> {
    Seq::new(args.len() / 2, |k: int| (args[2 * k], args[2 * k + 1]))
}

/// The arguments as shown after a match, in pairs.
pub fn arg_pairs(args: &Vec<String>) -> (r: Vec<(String, String)>)
    ensures
        r@.map_values(|p: (String, String)| (p.0@, p.1@)) == arg_pairs_spec(views(args@)),
{
    let mut r: Vec<(String, String)> = Vec::new();
    let len = args.len();
    let n = len / 2;
    let mut k: usize = 0;
    while k < n
        invariant
            0 <= k <= n,
            len == args@.len(),
            n == len / 2,
            r@.len() == k,
            forall|m: int| 0 <= m < k ==> (#[trigger] r@[m]).0@ == args@[2 * m]@ && r@[m].1@ == args@[2 * m + 1]@,
        decreases n - k,
    {
        assert(2 * k + 1 < len) by (nonlinear_arith)
            requires
                k < n,
                n == len / 2,
        ;
        r.push((crate::text::copy_string(&args[2 * k]), crate::text::copy_string(&args[2 * k + 1])));
        k = k + 1;
    }
    assert(r@.map_values(|p: (String, String)| (p.0@, p.1@)) =~= arg_pairs_spec(views(args@)));
    r
}

impl YoDo {
    /// Whether a script's output is to be spoken (false for an unknown
    /// script).
    pub fn should_speak(&self, script_name: &str) -> (b: bool)
        ensures
            b == match crate::intent::intent_pos(self.intent_data@, script_name@) {
                Some(i) => self.intent_data@[i].intent.speak,
                None => false,
            },
    {
        match crate::intent::find_intent(&self.intent_data, script_name) {
            Some(i) => self.intent_data[i].intent.speak,
            None => false,
        }
    }
}

} // verus!
