//! The voice command matcher: it turns a spoken sentence into a script and
//! its arguments, first by the compiled sentence patterns, then by fuzzy
//! similarity against the fuzzy index.
use vstd::prelude::*;
use crate::align::{align_words, alignment};
use crate::expand::expand_runtime_strings;
use crate::intent::{
    find_intent, find_list, intent_pos, list_pos, CompiledPattern, EntityDictEntry,
    FuzzyIndexEntry, ListConfig, NamedIntent, ScriptPatterns, ScriptPriority,
};
use crate::levenshtein::{lev, levenshtein_distance};
use crate::memory::MemoryData;
use crate::text::{
    chars_of, join, join_strings, lemma_join_single_spaced, lemma_words_shape, single_spaced, lowercase, split_whitespace, str_eq, string_from_chars,
    to_lowercase, views, words,
};

verus! {

/// The matcher's state: the compiled intents, the fuzzy index and entity
/// dictionary, the memory that ranks scripts, and the order in which
/// scripts are tried.
pub struct YoDo {
    pub intent_data: Vec<NamedIntent>,
    pub fuzzy_index: Vec<FuzzyIndexEntry>,
    pub fuzzy_entity_dict: Vec<EntityDictEntry>,
    pub processing_order: Vec<ScriptPriority>,
    pub fuzzy_threshold: i32,
    pub debug: bool,
    pub memory_data: MemoryData,
    pub split_words: Vec<String>,
    pub sorry_phrases: Vec<String>,
    pub compiled_patterns: Vec<ScriptPatterns>,
}

/// The list configuration of a script's parameter, if the script and the
/// list exist.
pub open spec fn list_of(y: YoDo, script: Seq<char>, param: Seq<char>) -> Option<ListConfig> {
    match intent_pos(y.intent_data@, script) {
        Some(i) => match list_pos(y.intent_data@[i].intent.lists@, param) {
            Some(j) => Some(y.intent_data@[i].intent.lists@[j].list),
            None => None,
        },
        None => None,
    }
}

/// A parameter that accepts any spoken text.
pub open spec fn wildcard_spec(y: YoDo, script: Seq<char>, param: Seq<char>) -> bool {
    match list_of(y, script, param) {
        Some(l) => l.wildcard,
        None => false,
    }
}

/// Some value of a list is handed to scripts as `value`.
pub open spec fn list_has_out(l: ListConfig, value: Seq<char>) -> bool {
    exists|k: int| 0 <= k < l.values@.len() && #[trigger] l.values@[k].out@ == value
}

/// A value a parameter accepts: anything for wildcard parameters, for
/// parameters without a list or with an empty one; otherwise one of the
/// list's output values.
pub open spec fn valid_value_spec(y: YoDo, script: Seq<char>, param: Seq<char>, value: Seq<char>) -> bool {
    wildcard_spec(y, script, param) || match list_of(y, script, param) {
        Some(l) => l.values@.len() == 0 || list_has_out(l, value),
        None => true,
    }
}

/// The characters removed from spoken input.
pub open spec fn is_stripped(c: char) -> bool {
    c == '?' || c == '!' || c == '.' || c == ',' || c == '&' || c == '/' || c == '\''
}

/// A string without the removed characters.
pub open spec fn strip_punct(s: Seq<char>) -> Seq<char>
    decreases s.len(),
{
    if s.len() == 0 {
        seq![]
    } else {
        strip_punct(s.drop_last()) + if is_stripped(s.last()) {
            seq![]
        } else {
            seq![s.last()]
        }
    }
}

proof fn lemma_strip_concat(a: Seq<char>, b: Seq<char>)
    ensures
        strip_punct(a + b) == strip_punct(a) + strip_punct(b),
    decreases b.len(),
{
    if b.len() == 0 {
        assert(a + b =~= a);
        assert(strip_punct(a) + strip_punct(b) =~= strip_punct(a));
    } else {
        lemma_strip_concat(a, b.drop_last());
        assert((a + b).drop_last() =~= a + b.drop_last());
        assert((a + b).last() == b.last());
        assert(strip_punct(a) + strip_punct(b) =~= strip_punct(a) + strip_punct(b.drop_last()) + (if is_stripped(
            b.last(),
        ) {
            seq![]
        } else {
            seq![b.last()]
        }));
    }
}

/// Punctuation does not matter to the matcher: a `?`, `!`, `.`, `,`, `&`,
/// `/` or `'` anywhere in the input leaves the normalized text as it is
/// without it.
pub proof fn lemma_normalize_ignores_punctuation(x: Seq<char>, c: char, y: Seq<char>)
    requires
        c == '?' || c == '!' || c == '.' || c == ',' || c == '&' || c == '/' || c == '\'',
    ensures
        normalized(x + seq![c] + y) == normalized(x + y),
{
    lemma_strip_concat(x + seq![c], y);
    lemma_strip_concat(x, seq![c]);
    lemma_strip_concat(x, y);
    assert(seq![c].drop_last() =~= Seq::<char>::empty());
    assert(seq![c].last() == c);
    assert(is_stripped(c));
    assert(strip_punct(Seq::<char>::empty()) =~= Seq::<char>::empty());
    assert(strip_punct(seq![c]) =~= strip_punct(seq![c].drop_last()) + seq![]);
    assert(strip_punct(seq![c]) =~= Seq::<char>::empty());
    assert(strip_punct(x + seq![c] + y) =~= strip_punct(x + y));
}

/// Spoken input as the matcher sees it: punctuation removed, lowercased,
/// words separated by single spaces.
pub open spec fn normalized(s: Seq<char>) -> Seq<char> {
    join(words(lowercase(strip_punct(s))), seq![' '])
}

impl YoDo {
    /// An empty matcher: no intents, no patterns, an empty memory and the
    /// default fuzzy threshold of 15.
    pub fn new() -> (y: YoDo)
        ensures
            y.intent_data@.len() == 0,
            y.fuzzy_index@.len() == 0,
            y.fuzzy_entity_dict@.len() == 0,
            y.processing_order@.len() == 0,
            y.compiled_patterns@.len() == 0,
            y.split_words@.len() == 0,
            y.sorry_phrases@.len() == 0,
            y.fuzzy_threshold == 15,
            !y.debug,
            y.memory_data.history.recent_commands@.len() == 0,
            y.memory_data.history.confirmed_matches@.len() == 0,
            y.memory_data.context.last_action@.len() == 0,
    {
        YoDo {
            intent_data: Vec::new(),
            fuzzy_index: Vec::new(),
            fuzzy_entity_dict: Vec::new(),
            processing_order: Vec::new(),
            fuzzy_threshold: 15,
            debug: false,
            memory_data: MemoryData::empty(),
            split_words: Vec::new(),
            sorry_phrases: Vec::new(),
            compiled_patterns: Vec::new(),
        }
    }

    /// Locates the list configuration of a script's parameter.
    pub(crate) fn locate_list(&self, script_name: &str, param_name: &str) -> (r: Option<(usize, usize)>)
        ensures
            match r {
                Some((i, j)) => {
                    &&& intent_pos(self.intent_data@, script_name@) == Some(i as int)
                    &&& i < self.intent_data@.len()
                    &&& list_pos(self.intent_data@[i as int].intent.lists@, param_name@) == Some(
                        j as int,
                    )
                    &&& j < self.intent_data@[i as int].intent.lists@.len()
                    &&& list_of(*self, script_name@, param_name@) == Some(
                        self.intent_data@[i as int].intent.lists@[j as int].list,
                    )
                },
                None => list_of(*self, script_name@, param_name@) is None,
            },
    {
        match find_intent(&self.intent_data, script_name) {
            Some(i) => match find_list(&self.intent_data[i].intent.lists, param_name) {
                Some(j) => Some((i, j)),
                None => None,
            },
            None => None,
        }
    }

    /// Whether a script's parameter accepts any spoken text.
    pub fn is_wildcard_param(&self, script_name: &str, param_name: &str) -> (b: bool)
        ensures
            b == wildcard_spec(*self, script_name@, param_name@),
    {
        match self.locate_list(script_name, param_name) {
            Some((i, j)) => self.intent_data[i].intent.lists[j].list.wildcard,
            None => false,
        }
    }

    /// Whether a script's parameter accepts a value.
    pub fn is_valid_param_value(&self, script_name: &str, param_name: &str, value: &str) -> (b: bool)
        ensures
            b == valid_value_spec(*self, script_name@, param_name@, value@),
    {
        if self.is_wildcard_param(script_name, param_name) {
            return true;
        }
        match self.locate_list(script_name, param_name) {
            Some((i, j)) => {
                let values = &self.intent_data[i].intent.lists[j].list.values;
                if values.len() == 0 {
                    return true;
                }
                let mut k: usize = 0;
                while k < values.len()
                    invariant
                        0 <= k <= values@.len(),
                        i < self.intent_data@.len(),
                        j < self.intent_data@[i as int].intent.lists@.len(),
                        values@ == self.intent_data@[i as int].intent.lists@[j as int].list.values@,
                        list_of(*self, script_name@, param_name@) == Some(
                            self.intent_data@[i as int].intent.lists@[j as int].list,
                        ),
                        forall|m: int| 0 <= m < k ==> values@[m].out@ != value@,
                    decreases values@.len() - k,
                {
                    if str_eq(values[k].out.as_str(), value) {
                        assert(self.intent_data@[i as int].intent.lists@[j as int].list.values@[k as int].out@ == value@);
                        assert(list_has_out(self.intent_data@[i as int].intent.lists@[j as int].list, value@));
                        return true;
                    }
                    k = k + 1;
                }
                false
            },
            None => true,
        }
    }

    /// Normalizes spoken input: removes `? ! . , & / '`, lowercases, and
    /// separates the words by single spaces.
    pub fn normalize_input(input: &str) -> (r: String)
        ensures
            r@ == normalized(input@),
            single_spaced(r@),
    {
        proof {
            lemma_words_shape(lowercase(strip_punct(input@)));
            lemma_join_single_spaced(words(lowercase(strip_punct(input@))));
        }
        let cs = chars_of(input);
        let mut kept: Vec<char> = Vec::new();
        let mut i: usize = 0;
        while i < cs.len()
            invariant
                0 <= i <= cs@.len(),
                cs@ == input@,
                kept@ == strip_punct(cs@.take(i as int)),
            decreases cs@.len() - i,
        {
            assert(cs@.take(i + 1).drop_last() =~= cs@.take(i as int));
            let c = cs[i];
            if !(c == '?' || c == '!' || c == '.' || c == ',' || c == '&' || c == '/' || c == '\'') {
                kept.push(c);
            }
            proof {
                let t = cs@.take(i + 1);
                assert(t.last() == c);
                if is_stripped(c) {
                    assert(strip_punct(t) =~= strip_punct(cs@.take(i as int)) + seq![]);
                } else {
                    assert(strip_punct(t) =~= strip_punct(cs@.take(i as int)) + seq![c]);
                }
            }
            i = i + 1;
        }
        assert(cs@.take(cs@.len() as int) =~= cs@);
        let stripped = string_from_chars(kept.as_slice());
        let lower = to_lowercase(stripped.as_str());
        let ws = split_whitespace(lower.as_str());
        proof {
            reveal_strlit(" ");
            assert(" "@ =~= seq![' ']);
            assert(kept@ == strip_punct(input@));
        }
        join_strings(&ws, " ")
    }

    /// The Levenshtein distance between two strings, in characters.
    pub fn levenshtein_distance(&self, a: &str, b: &str) -> (d: usize)
        ensures
            d == lev(a@, b@),
    {
        levenshtein_distance(a, b)
    }

    /// Aligns pattern words with spoken words (see `align::align_words`).
    pub fn align_words(&self, pattern: &[String], text: &[String]) -> (r: Vec<Option<usize>>)
        ensures
            r@.len() == pattern@.len(),
            forall|i: int|
                0 <= i < r@.len() ==> (#[trigger] r@[i] matches Some(k) ==> alignment(
                    views(pattern@),
                    views(text@),
                )[i] == Some(k as int)),
            forall|i: int|
                0 <= i < r@.len() ==> (#[trigger] r@[i] is None ==> alignment(
                    views(pattern@),
                    views(text@),
                )[i] is None),
    {
        align_words(pattern, text)
    }

    /// The variants of a sentence template, in the order the matcher tries
    /// them (see `expand::expand_runtime`).
    pub fn expand_optional_words(&self, sentence: &str) -> (r: Vec<String>)
        ensures
            views(r@) == crate::expand::expand_runtime(sentence@),
    {
        expand_runtime_strings(sentence)
    }
}

} // verus!
