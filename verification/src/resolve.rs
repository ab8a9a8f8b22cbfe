//! Turning a spoken parameter value into the value a script receives:
//! list entries, substitutions, numeric ranges and fuzzy entity mappings.
use vstd::prelude::*;
use crate::expand::{inner, is_group};
use crate::intent::{dict_pos, find_dict, find_intent, intent_pos, list_pos, EntityMapping, EntityValue, Substitution};
use crate::matcher::{list_of, wildcard_spec, YoDo};
use crate::scoring::{similarity, similarity_chars};
use crate::text::{
    chars_of, copy_string, find_char, lowercase, split_at_char, split_chars, str_eq, str_to_string,
    string_from_chars, to_lowercase, trim, trim_chars,
};

verus! {

/// The view of an optional string.
pub open spec fn opt_view(o: Option<String>) -> Option<Seq<char>> {
    match o {
        Some(s) => Some(s@),
        None => None,
    }
}

/// The numeric-range rule answers `r` for a script, parameter and value.
pub open spec fn range_answers<R: Fn(String, String, String) -> Option<String>>(
    f: R,
    s: Seq<char>,
    p: Seq<char>,
    v: Seq<char>,
    r: Option<Seq<char>>,
) -> bool {
    exists|a: String, b: String, c: String, o: Option<String>|
        #![trigger call_ensures(f, (a, b, c), o)]
        a@ == s && b@ == p && c@ == v && call_ensures(f, (a, b, c), o) && opt_view(o) == r
}

/// What the numeric-range rule answers for a script, parameter and value.
pub open spec fn range_answer<R: Fn(String, String, String) -> Option<String>>(
    f: R,
    s: Seq<char>,
    p: Seq<char>,
    v: Seq<char>,
) -> Option<Seq<char>> {
    choose|r: Option<Seq<char>>| range_answers(f, s, p, v, r)
}

/// A numeric-range rule: it accepts every script, parameter and value and
/// answers the same for the same three strings.
pub open spec fn range_rule<R: Fn(String, String, String) -> Option<String>>(f: R) -> bool {
    &&& forall|a: String, b: String, c: String| #[trigger] call_requires(f, (a, b, c))
    &&& forall|
        a1: String,
        b1: String,
        c1: String,
        o1: Option<String>,
        a2: String,
        b2: String,
        c2: String,
        o2: Option<String>,
    |
        #![trigger call_ensures(f, (a1, b1, c1), o1), call_ensures(f, (a2, b2, c2), o2)]
        call_ensures(f, (a1, b1, c1), o1) && call_ensures(f, (a2, b2, c2), o2) && a1@ == a2@ && b1@
            == b2@ && c1@ == c2@ ==> opt_view(o1) == opt_view(o2)
}

/// Calls a numeric-range rule.
pub fn ask_range<R: Fn(String, String, String) -> Option<String>>(
    range: &R,
    script: &str,
    param: &str,
    value: &str,
) -> (r: Option<String>)
    requires
        range_rule(*range),
    ensures
        opt_view(r) == range_answer(*range, script@, param@, value@),
{
    let a = str_to_string(script);
    let b = str_to_string(param);
    let c = str_to_string(value);
    let ghost (ga, gb, gc) = (a, b, c);
    let o = range(a, b, c);
    proof {
        assert(range_answers(*range, script@, param@, value@, opt_view(o)));
        let r = range_answer(*range, script@, param@, value@);
        assert(range_answers(*range, script@, param@, value@, r));
        let (a2, b2, c2, o2) = choose|a2: String, b2: String, c2: String, o2: Option<String>|
            a2@ == script@ && b2@ == param@ && c2@ == value@ && call_ensures(
                *range,
                (a2, b2, c2),
                o2,
            ) && opt_view(o2) == r;
        assert(call_ensures(*range, (ga, gb, gc), o));
        assert(call_ensures(*range, (a2, b2, c2), o2));
    }
    o
}

// ---------------------------------------------------------------------------
// Fuzzy entity mappings
// ---------------------------------------------------------------------------

/// The best mapping among the first `n`: the first with the highest
/// similarity that reaches the threshold and beats 0, with its score.
pub open spec fn best_mapping(nv: Seq<char>, ms: Seq<EntityMapping>, threshold: int, n: int) -> (
    int,
    Option<Seq<char>>,
)
    decreases n,
{
    if n <= 0 {
        (0, None)
    } else {
        let prev = best_mapping(nv, ms, threshold, n - 1);
        match similarity(nv, lowercase(ms[n - 1].input@)) {
            Some(score) => if score >= threshold && score > prev.0 {
                (score, Some(ms[n - 1].output@))
            } else {
                prev
            },
            None => prev,
        }
    }
}

/// The canonical value of a spoken entity by fuzzy similarity, if the
/// script's parameter has mappings and one is similar enough.
pub open spec fn fuzzy_entity_spec(
    y: YoDo,
    script: Seq<char>,
    param: Seq<char>,
    value: Seq<char>,
    threshold: int,
) -> Option<Seq<char>> {
    match dict_pos(y.fuzzy_entity_dict@, script, param) {
        Some(k) => best_mapping(
            lowercase(value),
            y.fuzzy_entity_dict@[k].mappings@,
            threshold,
            y.fuzzy_entity_dict@[k].mappings@.len() as int,
        ).1,
        None => None,
    }
}

// ---------------------------------------------------------------------------
// List entries and substitutions
// ---------------------------------------------------------------------------

/// Some `|`-separated alternative of a list entry, trimmed and lowercased,
/// equals the value.
pub open spec fn alt_hits(input: Seq<char>, nv: Seq<char>) -> bool {
    exists|k: int|
        0 <= k < split_at_char(input, '|').len() && lowercase(
            trim(#[trigger] split_at_char(input, '|')[k]),
        ) == nv
}

/// The output of the first list entry from position `i` on that one of its
/// alternatives names.
pub open spec fn first_list_hit(values: Seq<EntityValue>, nv: Seq<char>, i: int) -> Option<Seq<char>>
    decreases values.len() - i,
{
    if i < 0 || i >= values.len() {
        None
    } else if alt_hits(values[i].input@, nv) {
        Some(values[i].out@)
    } else {
        first_list_hit(values, nv, i + 1)
    }
}

/// A lowercased substitution pattern names the value: it is the value, or
/// a `(...)` group whose inside is the value or, when the pattern holds a
/// `|`, one of whose trimmed alternatives is the value.
pub open spec fn sub_hits(pattern: Seq<char>, nv: Seq<char>) -> bool {
    pattern == nv || (is_group(pattern) && (inner(pattern) == nv || (pattern.contains('|') && exists|
        k: int,
    |
        0 <= k < split_at_char(inner(pattern), '|').len() && trim(
            #[trigger] split_at_char(inner(pattern), '|')[k],
        ) == nv)))
}

/// The value of the first substitution from position `i` on whose pattern
/// names the value.
pub open spec fn first_sub_hit(subs: Seq<Substitution>, nv: Seq<char>, i: int) -> Option<Seq<char>>
    decreases subs.len() - i,
{
    if i < 0 || i >= subs.len() {
        None
    } else if sub_hits(lowercase(subs[i].pattern@), nv) {
        Some(subs[i].value@)
    } else {
        first_sub_hit(subs, nv, i + 1)
    }
}

/// The value a script receives for a spoken parameter value: the value
/// itself for wildcard parameters; else the output of the first list entry
/// that names it; else the value of the first substitution that names it;
/// else what the numeric-range rule of the parameter makes of it; else the
/// closest fuzzy entity mapping (threshold 70); else the value itself.
pub open spec fn resolve_spec(
    y: YoDo,
    rng: spec_fn(Seq<char>, Seq<char>, Seq<char>) -> Option<Seq<char>>,
    script: Seq<char>,
    param: Seq<char>,
    value: Seq<char>,
) -> Seq<char> {
    if wildcard_spec(y, script, param) {
        value
    } else {
        let nv = lowercase(value);
        match (match list_of(y, script, param) {
            Some(l) => first_list_hit(l.values@, nv, 0),
            None => None,
        }) {
            Some(o) => o,
            None => match (match intent_pos(y.intent_data@, script) {
                Some(i) => first_sub_hit(y.intent_data@[i].intent.substitutions@, nv, 0),
                None => None,
            }) {
                Some(v) => v,
                None => match (match list_of(y, script, param) {
                    Some(_) => rng(script, param, value),
                    None => None,
                }) {
                    Some(r) => r,
                    None => match fuzzy_entity_spec(y, script, param, value, 70) {
                        Some(f) => f,
                        None => value,
                    },
                },
            },
        }
    }
}

proof fn lemma_first_list_hit_at(values: Seq<EntityValue>, nv: Seq<char>, i: int, e: int)
    requires
        0 <= i <= e < values.len(),
        alt_hits(values[e].input@, nv),
        forall|d: int| i <= d < e ==> !alt_hits(#[trigger] values[d].input@, nv),
    ensures
        first_list_hit(values, nv, i) == Some(values[e].out@),
    decreases e - i,
{
    if i < e {
        lemma_first_list_hit_at(values, nv, i + 1, e);
    }
}

/// A spoken value named by a list entry resolves to that entry's output:
/// for a parameter of a script that is not a wildcard, when the `k`-th
/// `|`-separated alternative of entry `e` of its list, trimmed and
/// lowercased, is the lowercased value, and no alternative of an earlier
/// entry is, the script receives entry `e`'s output.
pub proof fn lemma_list_entry_resolves(
    y: YoDo,
    rng: spec_fn(Seq<char>, Seq<char>, Seq<char>) -> Option<Seq<char>>,
    script: Seq<char>,
    param: Seq<char>,
    value: Seq<char>,
    i: int,
    j: int,
    e: int,
    k: int,
)
    requires
        intent_pos(y.intent_data@, script) == Some(i),
        list_pos(y.intent_data@[i].intent.lists@, param) == Some(j),
        !y.intent_data@[i].intent.lists@[j].list.wildcard,
        0 <= e < y.intent_data@[i].intent.lists@[j].list.values@.len(),
        0 <= k < split_at_char(y.intent_data@[i].intent.lists@[j].list.values@[e].input@, '|').len(),
        lowercase(trim(split_at_char(y.intent_data@[i].intent.lists@[j].list.values@[e].input@, '|')[k]))
            == lowercase(value),
        forall|d: int, m: int|
            0 <= d < e && 0 <= m < split_at_char(y.intent_data@[i].intent.lists@[j].list.values@[d].input@, '|').len()
                ==> lowercase(
                trim(#[trigger] split_at_char(y.intent_data@[i].intent.lists@[j].list.values@[d].input@, '|')[m]),
            ) != lowercase(value),
    ensures
        resolve_spec(y, rng, script, param, value) == y.intent_data@[i].intent.lists@[j].list.values@[e].out@,
{
    let l = y.intent_data@[i].intent.lists@[j].list;
    let nv = lowercase(value);
    assert(list_of(y, script, param) == Some(l));
    assert(!wildcard_spec(y, script, param));
    assert(alt_hits(l.values@[e].input@, nv));
    assert forall|d: int| 0 <= d < e implies !alt_hits(#[trigger] l.values@[d].input@, nv) by {
        if alt_hits(l.values@[d].input@, nv) {
            let m = choose|m: int|
                0 <= m < split_at_char(l.values@[d].input@, '|').len() && lowercase(
                    trim(#[trigger] split_at_char(l.values@[d].input@, '|')[m]),
                ) == nv;
            assert(lowercase(trim(split_at_char(l.values@[d].input@, '|')[m])) != nv);
        }
    }
    lemma_first_list_hit_at(l.values@, nv, 0, e);
}

/// The range rule of a closure as a spec function.
pub open spec fn range_fn<R: Fn(String, String, String) -> Option<String>>(f: R) -> spec_fn(
    Seq<char>,
    Seq<char>,
    Seq<char>,
) -> Option<Seq<char>> {
    |s: Seq<char>, p: Seq<char>, v: Seq<char>| range_answer(f, s, p, v)
}

fn alt_hits_exec(input: &str, nv: &str) -> (b: bool)
    ensures
        b == alt_hits(input@, nv@),
{
    let ic = chars_of(input);
    let pieces = split_chars(ic.as_slice(), '|');
    let ghost pv = pieces@.map_values(|w: Vec<char>| w@);
    let mut k: usize = 0;
    while k < pieces.len()
        invariant
            0 <= k <= pieces@.len(),
            pv == pieces@.map_values(|w: Vec<char>| w@),
            pv == split_at_char(input@, '|'),
            forall|m: int| 0 <= m < k ==> lowercase(trim(#[trigger] pv[m])) != nv@,
        decreases pieces@.len() - k,
    {
        let t = trim_chars(pieces[k].as_slice());
        let ts = string_from_chars(t.as_slice());
        let lt = to_lowercase(ts.as_str());
        if str_eq(lt.as_str(), nv) {
            assert(lowercase(trim(pv[k as int])) == nv@);
            return true;
        }
        k = k + 1;
    }
    false
}

pub(crate) fn sub_hits_exec(pattern: &str, nv: &str) -> (b: bool)
    ensures
        b == sub_hits(pattern@, nv@),
{
    if str_eq(pattern, nv) {
        return true;
    }
    let pc = chars_of(pattern);
    let n = pc.len();
    if !(n >= 2 && pc[0] == '(' && pc[n - 1] == ')') {
        return false;
    }
    let mut inn: Vec<char> = Vec::new();
    let mut k: usize = 1;
    while k < n - 1
        invariant
            1 <= k <= n - 1,
            n == pc@.len(),
            n >= 2,
            inn@ == pc@.subrange(1, k as int),
        decreases n - 1 - k,
    {
        inn.push(pc[k]);
        assert(pc@.subrange(1, k + 1) =~= pc@.subrange(1, k as int).push(pc@[k as int]));
        k = k + 1;
    }
    assert(inn@ == inner(pattern@));
    let ns = chars_of(nv);
    if crate::text::chars_eq(inn.as_slice(), ns.as_slice()) {
        return true;
    }
    match find_char(pc.as_slice(), '|') {
        None => {
            proof {
                if pattern@.contains('|') {
                    let j = choose|j: int| 0 <= j < pattern@.len() && pattern@[j] == '|';
                    assert(pc@[j] == '|');
                }
            }
            false
        },
        Some(j) => {
            assert(pattern@[j as int] == '|');
            assert(pattern@.contains('|'));
            assert(is_group(pattern@));
            let pieces = split_chars(inn.as_slice(), '|');
            let ghost pv = pieces@.map_values(|w: Vec<char>| w@);
            let mut m: usize = 0;
            while m < pieces.len()
                invariant
                    0 <= m <= pieces@.len(),
                    pv == pieces@.map_values(|w: Vec<char>| w@),
                    pv == split_at_char(inner(pattern@), '|'),
                    ns@ == nv@,
                    pattern@.contains('|'),
                    is_group(pattern@),
                    forall|q: int| 0 <= q < m ==> trim(#[trigger] pv[q]) != nv@,
                decreases pieces@.len() - m,
            {
                let t = trim_chars(pieces[m].as_slice());
                if crate::text::chars_eq(t.as_slice(), ns.as_slice()) {
                    assert(trim(pv[m as int]) == nv@);
                    return true;
                }
                m = m + 1;
            }
            false
        },
    }
}

/// The value of the first substitution whose lowercased pattern names a
/// spoken value.
pub(crate) fn find_sub_hit(subs: &Vec<Substitution>, nv: &str) -> (r: Option<String>)
    ensures
        opt_view(r) == first_sub_hit(subs@, nv@, 0),
{
    let mut k: usize = 0;
    while k < subs.len()
        invariant
            0 <= k <= subs@.len(),
            first_sub_hit(subs@, nv@, 0) == first_sub_hit(subs@, nv@, k as int),
        decreases subs@.len() - k,
    {
        let p = to_lowercase(subs[k].pattern.as_str());
        if sub_hits_exec(p.as_str(), nv) {
            return Some(copy_string(&subs[k].value));
        }
        k = k + 1;
    }
    None
}

impl YoDo {
    /// The canonical value of a spoken entity by fuzzy similarity against
    /// the entity mappings of a script's parameter.
    pub fn fuzzy_resolve_entity(&self, script_name: &str, param_name: &str, value: &str, threshold: i32) -> (r:
        Option<String>)
        ensures
            opt_view(r) == fuzzy_entity_spec(*self, script_name@, param_name@, value@, threshold as int),
    {
        let k = match find_dict(&self.fuzzy_entity_dict, script_name, param_name) {
            Some(k) => k,
            None => return None,
        };
        let ms = &self.fuzzy_entity_dict[k].mappings;
        let nvs = to_lowercase(value);
        let nv = chars_of(nvs.as_str());
        let mut best_score: i32 = 0;
        let mut best: Option<String> = None;
        let mut i: usize = 0;
        while i < ms.len()
            invariant
                0 <= i <= ms@.len(),
                nv@ == lowercase(value@),
                (best_score as int, opt_view(best)) == best_mapping(nv@, ms@, threshold as int, i as int),
            decreases ms@.len() - i,
        {
            let ins = to_lowercase(ms[i].input.as_str());
            let ic = chars_of(ins.as_str());
            match similarity_chars(nv.as_slice(), ic.as_slice()) {
                Some(score) => {
                    if score >= threshold && score > best_score {
                        best_score = score;
                        best = Some(copy_string(&ms[i].output));
                    }
                },
                None => {},
            }
            i = i + 1;
        }
        best
    }

    /// The first list entry of a parameter that names a spoken value.
    fn list_hit(&self, i: usize, j: usize, nv: &str) -> (r: Option<String>)
        requires
            i < self.intent_data@.len(),
            j < self.intent_data@[i as int].intent.lists@.len(),
        ensures
            opt_view(r) == first_list_hit(
                self.intent_data@[i as int].intent.lists@[j as int].list.values@,
                nv@,
                0,
            ),
    {
        let values = &self.intent_data[i].intent.lists[j].list.values;
        let mut k: usize = 0;
        while k < values.len()
            invariant
                0 <= k <= values@.len(),
                values@ == self.intent_data@[i as int].intent.lists@[j as int].list.values@,
                first_list_hit(values@, nv@, 0) == first_list_hit(values@, nv@, k as int),
            decreases values@.len() - k,
        {
            if alt_hits_exec(values[k].input.as_str(), nv) {
                return Some(copy_string(&values[k].out));
            }
            k = k + 1;
        }
        None
    }

    /// The first substitution of a script that names a spoken value.
    fn sub_hit(&self, i: usize, nv: &str) -> (r: Option<String>)
        requires
            i < self.intent_data@.len(),
        ensures
            opt_view(r) == first_sub_hit(self.intent_data@[i as int].intent.substitutions@, nv@, 0),
    {
        find_sub_hit(&self.intent_data[i].intent.substitutions, nv)
    }

    /// The value a script receives for a spoken parameter value (see
    /// `resolve_spec`). `range` is the numeric-range rule of the
    /// parameters: it answers the scaled number for a value in range.
    pub fn resolve_entity<R: Fn(String, String, String) -> Option<String>>(
        &self,
        script_name: &str,
        param_name: &str,
        param_value: &str,
        range: &R,
    ) -> (r: String)
        requires
            range_rule(*range),
        ensures
            r@ == resolve_spec(*self, range_fn(*range), script_name@, param_name@, param_value@),
    {
        if self.is_wildcard_param(script_name, param_name) {
            return str_to_string(param_value);
        }
        let nvs = to_lowercase(param_value);
        let loc = self.locate_list(script_name, param_name);
        match loc {
            Some((i, j)) => {
                match self.list_hit(i, j, nvs.as_str()) {
                    Some(o) => return o,
                    None => {},
                }
            },
            None => {},
        }
        match find_intent(&self.intent_data, script_name) {
            Some(i) => {
                match self.sub_hit(i, nvs.as_str()) {
                    Some(v) => return v,
                    None => {},
                }
            },
            None => {},
        }
        match loc {
            Some(_) => {
                match ask_range(range, script_name, param_name, param_value) {
                    Some(x) => return x,
                    None => {},
                }
            },
            None => {},
        }
        match self.fuzzy_resolve_entity(script_name, param_name, param_value, 70) {
            Some(f) => f,
            None => str_to_string(param_value),
        }
    }
}

} // verus!
