//! Exact matching: substitutions applied to the spoken text, then the
//! compiled patterns of each script in processing order.
use vstd::prelude::*;
use crate::intent::{find_intent, find_patterns, intent_pos, list_pos, patterns_pos, CompiledPattern, MatchResult, Substitution};
use crate::matcher::{valid_value_spec, YoDo};
use crate::regex_ops::{escaped, groups_view, regex_captures, regex_captures_of, regex_find, regex_first_match, regex_escape, regex_replace_all, regex_replaced};
use crate::resolve::{opt_view, range_fn, range_rule, resolve_spec};
use crate::text::{chars_of, copy_string, push_all, push_str, str_eq, str_to_string, string_from_chars, to_lowercase, lowercase, views};

verus! {

/// The expression that finds a substitution pattern as a whole word.
pub open spec fn sub_regex(pattern: Seq<char>) -> Seq<char> {
    "\\b"@ + escaped(pattern) + "\\b"@
}

/// The text and the replacements made after the first `n` substitutions:
/// each substitution whose pattern occurs as a word replaces every
/// occurrence, and maps the first occurrence's text to its value.
pub open spec fn rts_fold(subs: Seq<Substitution>, text: Seq<char>, n: int) -> (
    Seq<char>,
    Map<Seq<char>, Seq<char>>,
)
    decreases n,
{
    if n <= 0 {
        (text, Map::empty())
    } else {
        let prev = rts_fold(subs, text, n - 1);
        let pat = sub_regex(subs[n - 1].pattern@);
        match regex_first_match(pat, prev.0) {
            Some(m) => (
                regex_replaced(pat, prev.0, subs[n - 1].value@),
                prev.1.insert(m, subs[n - 1].value@),
            ),
            None => prev,
        }
    }
}

/// The lowercased text after a script's substitutions, and the
/// replacements made.
pub open spec fn rts_spec(y: YoDo, script: Seq<char>, text: Seq<char>) -> (
    Seq<char>,
    Map<Seq<char>, Seq<char>>,
) {
    let t = lowercase(text);
    match intent_pos(y.intent_data@, script) {
        Some(i) => rts_fold(
            y.intent_data@[i].intent.substitutions@,
            t,
            y.intent_data@[i].intent.substitutions@.len() as int,
        ),
        None => (t, Map::empty()),
    }
}

/// The map a list of replacements stands for: later entries win.
pub open spec fn subs_map(v: Seq<Substitution>) -> Map<Seq<char>, Seq<char>>
    decreases v.len(),
{
    if v.len() == 0 {
        Map::empty()
    } else {
        subs_map(v.drop_last()).insert(v.last().pattern@, v.last().value@)
    }
}

/// The replacement of a value, or the value itself.
pub open spec fn lookup(m: Map<Seq<char>, Seq<char>>, k: Seq<char>) -> Seq<char> {
    if m.dom().contains(k) {
        m[k]
    } else {
        k
    }
}

/// The arguments built from captured groups, from parameter `i` on: each
/// captured value resolved, replaced when the substitutions replaced it,
/// and checked against the parameter's list; nothing when one is refused.
pub open spec fn args_from(
    y: YoDo,
    rng: spec_fn(Seq<char>, Seq<char>, Seq<char>) -> Option<Seq<char>>,
    script: Seq<char>,
    params: Seq<Seq<char>>,
    groups: Seq<Option<Seq<char>>>,
    subs: Map<Seq<char>, Seq<char>>,
    i: int,
) -> Option<Seq<Seq<char>>>
    decreases params.len() - i,
{
    if i < 0 || i >= params.len() {
        Some(seq![])
    } else {
        let g = if i < groups.len() {
            groups[i]
        } else {
            None
        };
        match g {
            Some(raw) => {
                let pv = lookup(subs, resolve_spec(y, rng, script, params[i], raw));
                if !valid_value_spec(y, script, params[i], pv) {
                    None
                } else {
                    match args_from(y, rng, script, params, groups, subs, i + 1) {
                        Some(rest) => Some(seq!["--"@ + params[i], pv] + rest),
                        None => None,
                    }
                }
            },
            None => args_from(y, rng, script, params, groups, subs, i + 1),
        }
    }
}

/// The groups after the whole match (group 0).
pub open spec fn after_whole(g: Seq<Option<Seq<char>>>) -> Seq<Option<Seq<char>>> {
    if g.len() == 0 {
        g
    } else {
        g.drop_first()
    }
}

/// The arguments a compiled pattern gives for a text, if it matches and
/// every value is accepted.
pub open spec fn pattern_args(
    y: YoDo,
    rng: spec_fn(Seq<char>, Seq<char>, Seq<char>) -> Option<Seq<char>>,
    script: Seq<char>,
    pat: CompiledPattern,
    text: Seq<char>,
    subs: Map<Seq<char>, Seq<char>>,
) -> Option<Seq<Seq<char>>> {
    match regex_captures(pat.regex@, text) {
        Some(groups) => args_from(y, rng, script, views(pat.param_names@), after_whole(groups), subs, 0),
        None => None,
    }
}

/// The arguments of the first pattern from position `k` on that gives any.
pub open spec fn first_pattern(
    y: YoDo,
    rng: spec_fn(Seq<char>, Seq<char>, Seq<char>) -> Option<Seq<char>>,
    script: Seq<char>,
    pats: Seq<CompiledPattern>,
    text: Seq<char>,
    subs: Map<Seq<char>, Seq<char>>,
    k: int,
) -> Option<Seq<Seq<char>>>
    decreases pats.len() - k,
{
    if k < 0 || k >= pats.len() {
        None
    } else {
        match pattern_args(y, rng, script, pats[k], text, subs) {
            Some(a) => Some(a),
            None => first_pattern(y, rng, script, pats, text, subs, k + 1),
        }
    }
}

/// The arguments a script's patterns give for a text.
pub open spec fn script_args(
    y: YoDo,
    rng: spec_fn(Seq<char>, Seq<char>, Seq<char>) -> Option<Seq<char>>,
    script: Seq<char>,
    text: Seq<char>,
) -> Option<Seq<Seq<char>>> {
    let (resolved, subs) = rts_spec(y, script, text);
    match patterns_pos(y.compiled_patterns@, script) {
        Some(p) => first_pattern(y, rng, script, y.compiled_patterns@[p].patterns@, resolved, subs, 0),
        None => None,
    }
}

/// The first script from position `k` of the processing order whose
/// patterns match the text, with its arguments.
pub open spec fn exact_from(
    y: YoDo,
    rng: spec_fn(Seq<char>, Seq<char>, Seq<char>) -> Option<Seq<char>>,
    text: Seq<char>,
    k: int,
) -> Option<(Seq<char>, Seq<Seq<char>>)>
    decreases y.processing_order@.len() - k,
{
    if k < 0 || k >= y.processing_order@.len() {
        None
    } else {
        let name = y.processing_order@[k].name@;
        match script_args(y, rng, name, text) {
            Some(a) => Some((name, a)),
            None => exact_from(y, rng, text, k + 1),
        }
    }
}

/// A value the named parameter of a script accepts: the first intent of
/// that name has a first list of the parameter's name that is a wildcard,
/// is empty, or hands some entry's output value `v` to the script; a
/// parameter without such an intent or list accepts anything.
pub open spec fn param_accepts(y: YoDo, script: Seq<char>, param: Seq<char>, v: Seq<char>) -> bool {
    match intent_pos(y.intent_data@, script) {
        None => true,
        Some(i) => match list_pos(y.intent_data@[i].intent.lists@, param) {
            None => true,
            Some(j) => {
                let l = y.intent_data@[i].intent.lists@[j].list;
                l.wildcard || l.values@.len() == 0 || exists|e: int|
                    0 <= e < l.values@.len() && #[trigger] l.values@[e].out@ == v
            },
        }
    }
}

/// Arguments made of `--name value` pairs whose every value the script's
/// parameter of that name accepts.
pub open spec fn flags_accepted(y: YoDo, script: Seq<char>, a: Seq<Seq<char>>) -> bool
    decreases a.len(),
{
    if a.len() == 0 {
        true
    } else if a.len() == 1 {
        false
    } else {
        &&& a[0].len() >= 2
        &&& a[0].take(2) == "--"@
        &&& param_accepts(y, script, a[0].skip(2), a[1])
        &&& flags_accepted(y, script, a.skip(2))
    }
}

/// The arguments read from captured groups are accepted by their
/// parameters.
pub proof fn lemma_args_accepted(
    y: YoDo,
    rng: spec_fn(Seq<char>, Seq<char>, Seq<char>) -> Option<Seq<char>>,
    script: Seq<char>,
    params: Seq<Seq<char>>,
    groups: Seq<Option<Seq<char>>>,
    subs: Map<Seq<char>, Seq<char>>,
    i: int,
)
    ensures
        args_from(y, rng, script, params, groups, subs, i) matches Some(a) ==> flags_accepted(y, script, a),
    decreases params.len() - i,
{
    reveal_strlit("--");
    if 0 <= i < params.len() {
        lemma_args_accepted(y, rng, script, params, groups, subs, i + 1);
        let g = if i < groups.len() {
            groups[i]
        } else {
            None
        };
        match g {
            Some(raw) => {
                let pv = lookup(subs, resolve_spec(y, rng, script, params[i], raw));
                match args_from(y, rng, script, params, groups, subs, i + 1) {
                    Some(rest) => {
                        if valid_value_spec(y, script, params[i], pv) {
                            let a = seq!["--"@ + params[i], pv] + rest;
                            let f = "--"@ + params[i];
                            assert(a[0] == f);
                            assert(a[1] == pv);
                            assert(f.take(2) =~= "--"@);
                            assert(f.skip(2) =~= params[i]);
                            assert(a.skip(2) =~= rest);
                            assert(param_accepts(y, script, params[i], pv));
                        }
                    },
                    None => {},
                }
            },
            None => {},
        }
    }
}

/// Every exact match hands its script only values that the script's
/// parameters accept.
pub proof fn lemma_exact_args_accepted(
    y: YoDo,
    rng: spec_fn(Seq<char>, Seq<char>, Seq<char>) -> Option<Seq<char>>,
    text: Seq<char>,
    k: int,
)
    ensures
        exact_from(y, rng, text, k) matches Some((s, a)) ==> flags_accepted(y, s, a),
    decreases y.processing_order@.len() - k,
{
    if 0 <= k < y.processing_order@.len() {
        lemma_exact_args_accepted(y, rng, text, k + 1);
        let name = y.processing_order@[k].name@;
        let (resolved, subs) = rts_spec(y, name, text);
        match patterns_pos(y.compiled_patterns@, name) {
            Some(p) => lemma_first_pattern_accepted(
                y,
                rng,
                name,
                y.compiled_patterns@[p].patterns@,
                resolved,
                subs,
                0,
            ),
            None => {},
        }
    }
}

proof fn lemma_first_pattern_accepted(
    y: YoDo,
    rng: spec_fn(Seq<char>, Seq<char>, Seq<char>) -> Option<Seq<char>>,
    script: Seq<char>,
    pats: Seq<CompiledPattern>,
    text: Seq<char>,
    subs: Map<Seq<char>, Seq<char>>,
    k: int,
)
    ensures
        first_pattern(y, rng, script, pats, text, subs, k) matches Some(a) ==> flags_accepted(y, script, a),
    decreases pats.len() - k,
{
    if 0 <= k < pats.len() {
        lemma_first_pattern_accepted(y, rng, script, pats, text, subs, k + 1);
        match regex_captures(pats[k].regex@, text) {
            Some(groups) => lemma_args_accepted(
                y,
                rng,
                script,
                views(pats[k].param_names@),
                after_whole(groups),
                subs,
                0,
            ),
            None => {},
        }
    }
}

/// Entries after position `i` that do not replace `key` do not change
/// what the map says of it.
pub proof fn lemma_subs_map_suffix(v: Seq<Substitution>, i: int, key: Seq<char>)
    requires
        0 <= i <= v.len(),
        forall|k: int| i <= k < v.len() ==> (#[trigger] v[k]).pattern@ != key,
    ensures
        subs_map(v).dom().contains(key) == subs_map(v.take(i)).dom().contains(key),
        subs_map(v).dom().contains(key) ==> subs_map(v)[key] == subs_map(v.take(i))[key],
    decreases v.len() - i,
{
    if i == v.len() {
        assert(v.take(i) =~= v);
    } else {
        let d = v.drop_last();
        assert(v[v.len() - 1].pattern@ != key);
        assert forall|k: int| i <= k < d.len() implies (#[trigger] d[k]).pattern@ != key by {
            assert(d[k] == v[k]);
        }
        lemma_subs_map_suffix(d, i, key);
        assert(d.take(i) =~= v.take(i));
    }
}

/// Looks up the replacement recorded for a text.
pub fn substitution_for(subs: &Vec<Substitution>, key: &str) -> (r: Option<String>)
    ensures
        opt_view(r) == (if subs_map(subs@).dom().contains(key@) {
            Some(subs_map(subs@)[key@])
        } else {
            None
        }),
{
    let mut i: usize = subs.len();
    while i > 0
        invariant
            0 <= i <= subs@.len(),
            forall|k: int| i <= k < subs@.len() ==> (#[trigger] subs@[k]).pattern@ != key@,
        decreases i,
    {
        if str_eq(subs[i - 1].pattern.as_str(), key) {
            proof {
                lemma_subs_map_suffix(subs@, i as int, key@);
                assert(subs@.take(i as int).drop_last() =~= subs@.take(i - 1));
                assert(subs@.take(i as int).last() == subs@[i - 1]);
            }
            return Some(copy_string(&subs[i - 1].value));
        }
        i = i - 1;
    }
    proof {
        lemma_subs_map_suffix(subs@, 0, key@);
        assert(subs@.take(0) =~= seq![]);
    }
    None
}

/// Applies substitutions in order to the lowercased text: every whole-word
/// occurrence of a pattern is replaced by its value. Returns the text and,
/// for each substitution made, the text it replaced.
pub fn substitute_words(subs: &Vec<Substitution>, text: &str) -> (r: (String, Vec<Substitution>))
    ensures
        r.0@ == rts_fold(subs@, lowercase(text@), subs@.len() as int).0,
        subs_map(r.1@) == rts_fold(subs@, lowercase(text@), subs@.len() as int).1,
{
    let mut resolved = to_lowercase(text);
    let mut made: Vec<Substitution> = Vec::new();
    assert(subs_map(made@) =~= Map::empty());
    let ghost t = resolved@;
    let mut k: usize = 0;
    while k < subs.len()
        invariant
            0 <= k <= subs@.len(),
            t == lowercase(text@),
            (resolved@, subs_map(made@)) == rts_fold(subs@, t, k as int),
        decreases subs@.len() - k,
    {
        let esc = regex_escape(subs[k].pattern.as_str());
        let mut pc: Vec<char> = Vec::new();
        push_str(&mut pc, "\\b");
        push_str(&mut pc, esc.as_str());
        push_str(&mut pc, "\\b");
        let pat = string_from_chars(pc.as_slice());
        match regex_find(pat.as_str(), resolved.as_str()) {
            Some(m) => {
                resolved = regex_replace_all(pat.as_str(), resolved.as_str(), subs[k].value.as_str());
                let ghost before = made@;
                made.push(Substitution { pattern: m, value: copy_string(&subs[k].value) });
                assert(made@.drop_last() =~= before);
            },
            None => {},
        }
        k = k + 1;
    }
    (resolved, made)
}

impl YoDo {
    /// Applies a script's substitutions to the lowercased text: every
    /// whole-word occurrence of a pattern is replaced by its value. Returns
    /// the text and, for each substitution made, the text it replaced.
    pub fn apply_real_time_substitutions(&self, script_name: &str, text: &str) -> (r: (String, Vec<Substitution>))
        ensures
            r.0@ == rts_spec(*self, script_name@, text@).0,
            subs_map(r.1@) == rts_spec(*self, script_name@, text@).1,
    {
        match find_intent(&self.intent_data, script_name) {
            Some(i) => substitute_words(&self.intent_data[i].intent.substitutions, text),
            None => {
                let resolved = to_lowercase(text);
                let made: Vec<Substitution> = Vec::new();
                assert(subs_map(made@) =~= Map::empty());
                (resolved, made)
            },
        }
    }
}

/// The flag of a parameter: `--` and its name.
pub fn flag_of(name: &str) -> (r: String)
    ensures
        r@ == "--"@ + name@,
{
    let mut f: Vec<char> = Vec::new();
    push_str(&mut f, "--");
    push_str(&mut f, name);
    string_from_chars(f.as_slice())
}

impl YoDo {
    /// The arguments built from the groups a pattern captured (group 0, the
    /// whole match, first).
    pub fn args_for_groups<R: Fn(String, String, String) -> Option<String>>(
        &self,
        script_name: &str,
        params: &Vec<String>,
        groups: &Vec<Option<String>>,
        subs: &Vec<Substitution>,
        range: &R,
    ) -> (r: Option<Vec<String>>)
        requires
            range_rule(*range),
        ensures
            match r {
                Some(a) => args_from(
                    *self,
                    range_fn(*range),
                    script_name@,
                    views(params@),
                    after_whole(groups_view(*groups)),
                    subs_map(subs@),
                    0,
                ) == Some(views(a@)),
                None => args_from(
                    *self,
                    range_fn(*range),
                    script_name@,
                    views(params@),
                    after_whole(groups_view(*groups)),
                    subs_map(subs@),
                    0,
                ) is None,
            },
            r matches Some(a) ==> flags_accepted(*self, script_name@, views(a@)),
    {
        proof {
            lemma_args_accepted(
                *self,
                range_fn(*range),
                script_name@,
                views(params@),
                after_whole(groups_view(*groups)),
                subs_map(subs@),
                0,
            );
        }
        let ghost rng = range_fn(*range);
        let ghost ps = views(params@);
        let ghost gs = after_whole(groups_view(*groups));
        let ghost sm = subs_map(subs@);
        let mut args: Vec<String> = Vec::new();
        let mut i: usize = 0;
        while i < params.len()
            invariant
                0 <= i <= params@.len(),
                range_rule(*range),
                rng == range_fn(*range),
                ps == views(params@),
                gs == after_whole(groups_view(*groups)),
                sm == subs_map(subs@),
                args_from(*self, rng, script_name@, ps, gs, sm, 0) == match args_from(
                    *self,
                    rng,
                    script_name@,
                    ps,
                    gs,
                    sm,
                    i as int,
                ) {
                    Some(rest) => Some(views(args@) + rest),
                    None => None,
                },
            decreases params@.len() - i,
        {
            if i + 1 < groups.len() {
                match &groups[i + 1] {
                    Some(raw) => {
                        assert(gs[i as int] == Some(raw@));
                        let er = self.resolve_entity(script_name, params[i].as_str(), raw.as_str(), range);
                        let pv = match substitution_for(subs, er.as_str()) {
                            Some(x) => x,
                            None => er,
                        };
                        if !self.is_valid_param_value(script_name, params[i].as_str(), pv.as_str()) {
                            return None;
                        }
                        let ghost before = views(args@);
                        args.push(flag_of(params[i].as_str()));
                        args.push(pv);
                        proof {
                            assert(views(args@) =~= before + seq!["--"@ + ps[i as int], pv@]);
                            match args_from(*self, rng, script_name@, ps, gs, sm, i + 1) {
                                Some(rest) => {
                                    assert(before + (seq!["--"@ + ps[i as int], pv@] + rest) =~= views(args@) + rest);
                                },
                                None => {},
                            }
                        }
                    },
                    None => {
                        assert(gs[i as int] is None);
                    },
                }
            }
            i = i + 1;
        }
        assert(views(args@) + seq![] =~= views(args@));
        Some(args)
    }

    /// The arguments a script's patterns give for a (lowercased) text.
    fn script_match<R: Fn(String, String, String) -> Option<String>>(
        &self,
        script_name: &str,
        text: &str,
        range: &R,
    ) -> (r: Option<Vec<String>>)
        requires
            range_rule(*range),
        ensures
            match r {
                Some(a) => script_args(*self, range_fn(*range), script_name@, text@) == Some(views(a@)),
                None => script_args(*self, range_fn(*range), script_name@, text@) is None,
            },
    {
        let (resolved, subs) = self.apply_real_time_substitutions(script_name, text);
        match find_patterns(&self.compiled_patterns, script_name) {
            Some(p) => {
                let pats = &self.compiled_patterns[p].patterns;
                let ghost rng = range_fn(*range);
                let mut k: usize = 0;
                while k < pats.len()
                    invariant
                        0 <= k <= pats@.len(),
                        range_rule(*range),
                        rng == range_fn(*range),
                        (resolved@, subs_map(subs@)) == rts_spec(*self, script_name@, text@),
                        p < self.compiled_patterns@.len(),
                        patterns_pos(self.compiled_patterns@, script_name@) == Some(p as int),
                        pats@ == self.compiled_patterns@[p as int].patterns@,
                        first_pattern(*self, rng, script_name@, pats@, resolved@, subs_map(subs@), 0)
                            == first_pattern(
                            *self,
                            rng,
                            script_name@,
                            pats@,
                            resolved@,
                            subs_map(subs@),
                            k as int,
                        ),
                    decreases pats@.len() - k,
                {
                    match regex_captures_of(pats[k].regex.as_str(), resolved.as_str()) {
                        Some(groups) => {
                            match self.args_for_groups(script_name, &pats[k].param_names, &groups, &subs, range) {
                                Some(a) => return Some(a),
                                None => {},
                            }
                        },
                        None => {},
                    }
                    k = k + 1;
                }
                None
            },
            None => None,
        }
    }

    /// Matches a text against the compiled patterns of every script in
    /// processing order; the first script whose pattern matches with
    /// accepted values wins. `range` is the numeric-range rule.
    pub fn exact_match<R: Fn(String, String, String) -> Option<String>>(&self, text: &str, range: &R) -> (r:
        Option<MatchResult>)
        requires
            range_rule(*range),
        ensures
            match r {
                Some(m) => {
                    &&& exact_from(*self, range_fn(*range), lowercase(text@), 0) == Some(
                        (m.script_name@, views(m.args@)),
                    )
                    &&& m.matched_sentence@ == lowercase(text@)
                    &&& m.match_type@ == "exact"@
                },
                None => exact_from(*self, range_fn(*range), lowercase(text@), 0) is None,
            },
            r matches Some(m) ==> flags_accepted(*self, m.script_name@, views(m.args@)),
    {
        let t = to_lowercase(text);
        let ghost rng = range_fn(*range);
        let mut k: usize = 0;
        while k < self.processing_order.len()
            invariant
                0 <= k <= self.processing_order@.len(),
                range_rule(*range),
                rng == range_fn(*range),
                t@ == lowercase(text@),
                exact_from(*self, rng, t@, 0) == exact_from(*self, rng, t@, k as int),
            decreases self.processing_order@.len() - k,
        {
            let name = &self.processing_order[k].name;
            match self.script_match(name.as_str(), t.as_str(), range) {
                Some(args) => {
                    proof {
                        lemma_exact_args_accepted(*self, rng, t@, 0);
                    }
                    return Some(
                        MatchResult {
                            script_name: copy_string(name),
                            args,
                            matched_sentence: t,
                            match_type: str_to_string("exact"),
                        },
                    );
                },
                None => {},
            }
            k = k + 1;
        }
        None
    }
}

} // verus!
