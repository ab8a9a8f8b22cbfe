//! The compiled voice intents the matcher works on, and lookups in them.
use vstd::prelude::*;
use crate::text::str_eq;

verus! {

/// One accepted spoken value of a list and what the script receives for it.
pub struct EntityValue {
    /// The spoken form; alternatives separated by `|`.
    pub input: String,
    /// The value handed to the script.
    pub out: String,
}

/// The values a parameter may take.
pub struct ListConfig {
    /// Any spoken text is accepted.
    pub wildcard: bool,
    /// The accepted values.
    pub values: Vec<EntityValue>,
}

/// A parameter list under its name.
pub struct NamedList {
    pub name: String,
    pub list: ListConfig,
}

/// A spoken phrase and the value it stands for.
pub struct Substitution {
    pub pattern: String,
    pub value: String,
}

/// What the matcher knows of one script.
pub struct IntentData {
    pub substitutions: Vec<Substitution>,
    pub sentences: Vec<String>,
    pub lists: Vec<NamedList>,
    /// The script's output is spoken after it runs.
    pub speak: bool,
    /// The configured voice priority, from 1 (tried first) to 5 (tried
    /// last); 3 when none is configured.
    pub priority: i32,
}

/// A script's intent under the script's name.
pub struct NamedIntent {
    pub name: String,
    pub intent: IntentData,
}

/// One sentence of the fuzzy index.
pub struct FuzzyIndexEntry {
    pub script: String,
    pub sentence: String,
    pub signature: String,
    /// The lowest similarity accepted, in percent.
    pub threshold_pct: i32,
    pub fuzzy_enabled: bool,
}

/// A spoken form of an entity and its canonical value.
pub struct EntityMapping {
    pub input: String,
    pub output: String,
}

/// The fuzzy entity mappings of one parameter of one script.
pub struct EntityDictEntry {
    pub script: String,
    pub param: String,
    pub mappings: Vec<EntityMapping>,
}

/// A sentence compiled to a regular expression.
pub struct CompiledPattern {
    /// The regular expression source.
    pub regex: String,
    /// The parameter captured by each group, in order.
    pub param_names: Vec<String>,
    pub script_name: String,
}

/// The compiled sentences of one script.
pub struct ScriptPatterns {
    pub script: String,
    pub patterns: Vec<CompiledPattern>,
}

/// The rank of a script in the matching order.
pub struct ScriptPriority {
    pub name: String,
    pub priority: i32,
    pub has_complex_patterns: bool,
}

/// A recognized command.
pub struct MatchResult {
    pub script_name: String,
    pub args: Vec<String>,
    pub matched_sentence: String,
    /// `exact` or `fuzzy`.
    pub match_type: String,
}

// ---------------------------------------------------------------------------
// First matching position
// ---------------------------------------------------------------------------

/// The first position from `i` below `n` where `p` holds.
pub open spec fn first_from(n: int, p: spec_fn(int) -> bool, i: int) -> Option<int>
    decreases n - i,
{
    if i >= n {
        None
    } else if p(i) {
        Some(i)
    } else {
        first_from(n, p, i + 1)
    }
}

/// What the first position is.
pub proof fn lemma_first_from(n: int, p: spec_fn(int) -> bool, i: int)
    requires
        0 <= i,
    ensures
        match first_from(n, p, i) {
            Some(k) => i <= k < n && p(k) && forall|m: int| #![trigger p(m)] i <= m < k ==> !p(m),
            None => forall|m: int| #![trigger p(m)] i <= m < n ==> !p(m),
        },
    decreases n - i,
{
    if i < n && !p(i) {
        lemma_first_from(n, p, i + 1);
    }
}

/// The position of the first intent with the given name.
pub open spec fn intent_pos(v: Seq<NamedIntent>, name: Seq<char>) -> Option<int> {
    first_from(v.len() as int, |k: int| v[k].name@ == name, 0)
}

/// The position of the first list with the given name.
pub open spec fn list_pos(v: Seq<NamedList>, name: Seq<char>) -> Option<int> {
    first_from(v.len() as int, |k: int| v[k].name@ == name, 0)
}

/// The position of the first entity mapping list of a script's parameter.
pub open spec fn dict_pos(v: Seq<EntityDictEntry>, script: Seq<char>, param: Seq<char>) -> Option<int> {
    first_from(v.len() as int, |k: int| v[k].script@ == script && v[k].param@ == param, 0)
}

/// The position of the first pattern group of a script.
pub open spec fn patterns_pos(v: Seq<ScriptPatterns>, script: Seq<char>) -> Option<int> {
    first_from(v.len() as int, |k: int| v[k].script@ == script, 0)
}

/// Finds an intent by name.
pub fn find_intent(v: &Vec<NamedIntent>, name: &str) -> (r: Option<usize>)
    ensures
        match r {
            Some(k) => intent_pos(v@, name@) == Some(k as int) && k < v@.len(),
            None => intent_pos(v@, name@) is None,
        },
{
    let ghost p = |k: int| v@[k].name@ == name@;
    let mut i: usize = 0;
    while i < v.len()
        invariant
            0 <= i <= v@.len(),
            p == (|k: int| v@[k].name@ == name@),
            intent_pos(v@, name@) == first_from(v@.len() as int, p, i as int),
        decreases v@.len() - i,
    {
        if str_eq(v[i].name.as_str(), name) {
            return Some(i);
        }
        i = i + 1;
    }
    None
}

/// Finds a list by name.
pub fn find_list(v: &Vec<NamedList>, name: &str) -> (r: Option<usize>)
    ensures
        match r {
            Some(k) => list_pos(v@, name@) == Some(k as int) && k < v@.len(),
            None => list_pos(v@, name@) is None,
        },
{
    let ghost p = |k: int| v@[k].name@ == name@;
    let mut i: usize = 0;
    while i < v.len()
        invariant
            0 <= i <= v@.len(),
            p == (|k: int| v@[k].name@ == name@),
            list_pos(v@, name@) == first_from(v@.len() as int, p, i as int),
        decreases v@.len() - i,
    {
        if str_eq(v[i].name.as_str(), name) {
            return Some(i);
        }
        i = i + 1;
    }
    None
}

/// Finds the entity mappings of a script's parameter.
pub fn find_dict(v: &Vec<EntityDictEntry>, script: &str, param: &str) -> (r: Option<usize>)
    ensures
        match r {
            Some(k) => dict_pos(v@, script@, param@) == Some(k as int) && k < v@.len(),
            None => dict_pos(v@, script@, param@) is None,
        },
{
    let ghost p = |k: int| v@[k].script@ == script@ && v@[k].param@ == param@;
    let mut i: usize = 0;
    while i < v.len()
        invariant
            0 <= i <= v@.len(),
            p == (|k: int| v@[k].script@ == script@ && v@[k].param@ == param@),
            dict_pos(v@, script@, param@) == first_from(v@.len() as int, p, i as int),
        decreases v@.len() - i,
    {
        if str_eq(v[i].script.as_str(), script) && str_eq(v[i].param.as_str(), param) {
            return Some(i);
        }
        i = i + 1;
    }
    None
}

/// Finds the compiled patterns of a script.
pub fn find_patterns(v: &Vec<ScriptPatterns>, script: &str) -> (r: Option<usize>)
    ensures
        match r {
            Some(k) => patterns_pos(v@, script@) == Some(k as int) && k < v@.len(),
            None => patterns_pos(v@, script@) is None,
        },
{
    let ghost p = |k: int| v@[k].script@ == script@;
    let mut i: usize = 0;
    while i < v.len()
        invariant
            0 <= i <= v@.len(),
            p == (|k: int| v@[k].script@ == script@),
            patterns_pos(v@, script@) == first_from(v@.len() as int, p, i as int),
        decreases v@.len() - i,
    {
        if str_eq(v[i].script.as_str(), script) {
            return Some(i);
        }
        i = i + 1;
    }
    None
}

} // verus!
