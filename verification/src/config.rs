//! The script configuration read from TOML files, and the small text rules
//! the compilers apply to it.
use vstd::prelude::*;
use crate::text::{chars_of, copy_string, push_all, push_str, replace_char, replace_char_str, str_to_string, string_from_chars, views};
use crate::pattern::{find_pos, pos_of};

verus! {

/// One accepted spoken value of a list and what the script receives.
pub struct ValueMapping {
    pub input: String,
    pub out: String,
}

/// A numeric range a parameter accepts.
pub struct RangeSpec {
    pub from: i32,
    pub to: i32,
    pub multiplier: Option<i32>,
}

/// The values of a parameter as configured.
pub struct ListSpec {
    pub wildcard: Option<bool>,
    pub values: Option<Vec<ValueMapping>>,
    pub range: Option<RangeSpec>,
}

/// A configured list under its name.
pub struct NamedListSpec {
    pub name: String,
    pub list: ListSpec,
}

/// Whether fuzzy matching is enabled for a script.
pub struct FuzzyConfig {
    pub enable: Option<bool>,
}

/// The voice part of a script's configuration.
pub struct VoiceConfig {
    pub enabled: Option<bool>,
    pub priority: Option<u32>,
    pub sentences: Vec<String>,
    pub lists: Option<Vec<NamedListSpec>>,
    pub fuzzy: Option<FuzzyConfig>,
}

/// A parameter's default value, as the generators read it: its text when
/// it is a string, its truth value when it is a boolean, and its JSON
/// rendering.
pub struct DefaultValue {
    pub text: Option<String>,
    pub flag: Option<bool>,
    pub json: String,
}

/// A script parameter.
pub struct Parameter {
    pub name: String,
    pub param_type: Option<String>,
    pub description: Option<String>,
    pub optional: Option<bool>,
    pub default: Option<DefaultValue>,
    pub values: Option<Vec<String>>,
}

/// A script as written in a configuration file.
pub struct ScriptConfig {
    pub name: String,
    pub description: String,
    pub category: Option<String>,
    pub parameters: Option<Vec<Parameter>>,
    pub code: Option<String>,
    pub binary: Option<String>,
    pub aliases: Option<Vec<String>>,
    pub log_level: Option<String>,
    pub auto_start: Option<bool>,
    pub run_every: Option<String>,
    pub run_at: Option<Vec<String>>,
    pub voice: Option<VoiceConfig>,
    pub visible_in_readme: Option<bool>,
    pub help_footer: Option<String>,
}

/// A script with its defaults filled in.
pub struct Script {
    pub description: String,
    pub category: Option<String>,
    pub parameters: Vec<Parameter>,
    pub code: Option<String>,
    pub binary: Option<String>,
    pub aliases: Vec<String>,
    pub log_level: String,
    pub auto_start: bool,
    pub run_every: Option<String>,
    pub run_at: Vec<String>,
    pub voice: Option<VoiceConfig>,
    pub visible_in_readme: bool,
    pub help_footer: Option<String>,
}

/// A script under its name.
pub struct NamedScript {
    pub name: String,
    pub script: Script,
}

/// A configuration file.
pub struct Config {
    pub split_words: Option<Vec<String>>,
    pub sorry_phrases: Option<Vec<String>>,
    pub scripts: Vec<ScriptConfig>,
}

/// A script with its defaults filled in from a configured one: no
/// parameters, no aliases, log level `INFO`, no auto start, no fixed run
/// times, visible in the readme.
pub open spec fn converts(config: ScriptConfig, s: Script) -> bool {
    &&& s.description == config.description
    &&& s.category == config.category
    &&& s.code == config.code
    &&& s.binary == config.binary
    &&& s.run_every == config.run_every
    &&& s.voice == config.voice
    &&& s.help_footer == config.help_footer
    &&& s.parameters@ == match config.parameters {
        Some(p) => p@,
        None => Seq::<Parameter>::empty(),
    }
    &&& s.aliases@ == match config.aliases {
        Some(a) => a@,
        None => Seq::<String>::empty(),
    }
    &&& s.log_level@ == match config.log_level {
        Some(l) => l@,
        None => "INFO"@,
    }
    &&& s.auto_start == match config.auto_start {
        Some(b) => b,
        None => false,
    }
    &&& s.run_at@ == match config.run_at {
        Some(a) => a@,
        None => Seq::<String>::empty(),
    }
    &&& s.visible_in_readme == match config.visible_in_readme {
        Some(b) => b,
        None => true,
    }
}

/// Fills in a script's defaults (see `converts`).
pub fn convert_script_config(config: ScriptConfig) -> (r: (String, Script))
    ensures
        r.0@ == config.name@,
        converts(config, r.1),
{
    let script = Script {
        description: config.description,
        category: config.category,
        parameters: match config.parameters {
            Some(p) => p,
            None => Vec::new(),
        },
        code: config.code,
        binary: config.binary,
        aliases: match config.aliases {
            Some(a) => a,
            None => Vec::new(),
        },
        log_level: match config.log_level {
            Some(l) => l,
            None => str_to_string("INFO"),
        },
        auto_start: match config.auto_start {
            Some(b) => b,
            None => false,
        },
        run_every: config.run_every,
        run_at: match config.run_at {
            Some(a) => a,
            None => Vec::new(),
        },
        voice: config.voice,
        visible_in_readme: match config.visible_in_readme {
            Some(b) => b,
            None => true,
        },
        help_footer: config.help_footer,
    };
    (config.name, script)
}

/// The Markdown escape of one character.
pub open spec fn md_escape_char(c: char) -> Seq<char> {
    if c == '\\' || c == '*' || c == '`' || c == '_' || c == '[' || c == ']' {
        seq!['\\', c]
    } else {
        seq![c]
    }
}

/// A text with `\ * ` _ [ ]` escaped by a backslash for Markdown.
pub open spec fn md_escaped(s: Seq<char>) -> Seq<char>
    decreases s.len(),
{
    if s.len() == 0 {
        seq![]
    } else {
        md_escaped(s.drop_last()) + md_escape_char(s.last())
    }
}

/// Escapes a text for Markdown: a backslash before every `\`, `*`, `` ` ``,
/// `_`, `[` and `]`.
pub fn escape_md(s: &str) -> (r: String)
    ensures
        r@ == md_escaped(s@),
{
    let cs = chars_of(s);
    let mut out: Vec<char> = Vec::new();
    let mut i: usize = 0;
    while i < cs.len()
        invariant
            0 <= i <= cs@.len(),
            cs@ == s@,
            out@ == md_escaped(cs@.take(i as int)),
        decreases cs@.len() - i,
    {
        let c = cs[i];
        assert(cs@.take(i + 1).drop_last() =~= cs@.take(i as int));
        assert(cs@.take(i + 1).last() == c);
        let ghost before = out@;
        if c == '\\' || c == '*' || c == '`' || c == '_' || c == '[' || c == ']' {
            out.push('\\');
            out.push(c);
            assert(out@ =~= before + seq!['\\', c]);
        } else {
            out.push(c);
            assert(out@ =~= before + seq![c]);
        }
        i = i + 1;
    }
    assert(cs@.take(cs@.len() as int) =~= cs@);
    string_from_chars(out.as_slice())
}

/// The unit name of a timer that runs a script at a time of day:
/// `yo-<script>-at-<time>` with the time's colons turned into dashes.
pub fn make_timer_name(script_name: &str, time_str: &str) -> (r: String)
    ensures
        r@ == "yo-"@ + script_name@ + "-at-"@ + replace_char(time_str@, ':', "-"@),
{
    let safe = replace_char_str(time_str, ':', "-");
    let mut out: Vec<char> = Vec::new();
    push_str(&mut out, "yo-");
    push_str(&mut out, script_name);
    push_str(&mut out, "-at-");
    push_str(&mut out, safe.as_str());
    string_from_chars(out.as_slice())
}

/// A name usable as a shell variable: dashes turned into underscores.
pub fn sanitize_bash_var(name: &str) -> (r: String)
    ensures
        r@ == replace_char(name@, '-', "_"@),
{
    replace_char_str(name, '-', "_")
}

/// The names inside `{...}` of a sentence, in order; a `{` without a
/// closing `}` after it ends the search.
pub open spec fn param_names(s: Seq<char>) -> Seq<Seq<char>>
    decreases s.len(),
{
    let a = pos_of(s, '{');
    if a < 0 || a >= s.len() {
        seq![]
    } else {
        let e = pos_of(s.skip(a), '}');
        if e < 0 || a + e >= s.len() {
            seq![]
        } else {
            seq![s.subrange(a + 1, a + e)] + param_names(s.skip(a + e + 1))
        }
    }
}

/// The parameter names of a sentence.
pub fn extract_param_names(sentence: &str) -> (r: Vec<String>)
    ensures
        views(r@) == param_names(sentence@),
{
    let mut rest = chars_of(sentence);
    let mut names: Vec<String> = Vec::new();
    loop
        invariant
            views(names@) + param_names(rest@) == param_names(sentence@),
        ensures
            views(names@) == param_names(sentence@),
        decreases rest@.len(),
    {
        let a = match find_pos(rest.as_slice(), '{') {
            Some(a) => a,
            None => {
                assert(param_names(rest@) =~= seq![]);
                assert(views(names@) + seq![] =~= views(names@));
                break;
            },
        };
        let n = rest.len();
        let tail = crate::text::sub_chars(rest.as_slice(), a, n);
        assert(tail@ == rest@.skip(a as int));
        let e = match find_pos(tail.as_slice(), '}') {
            Some(e) => e,
            None => {
                assert(param_names(rest@) =~= seq![]);
                assert(views(names@) + seq![] =~= views(names@));
                break;
            },
        };
        assert(tail@[e as int] == '}');
        assert(tail@[0] == '{');
        assert(e > 0);
        let param = crate::text::sub_chars(rest.as_slice(), a + 1, a + e);
        let next = crate::text::sub_chars(rest.as_slice(), a + e + 1, n);
        let ghost before = views(names@);
        names.push(string_from_chars(param.as_slice()));
        assert(views(names@) =~= before.push(param@));
        assert(views(names@) + param_names(next@) =~= before + (seq![param@] + param_names(next@)));
        rest = next;
    }
    names
}

// ---------------------------------------------------------------------------
// Merging configuration files
// ---------------------------------------------------------------------------

/// The texts of a list, each kept at its first occurrence.
pub open spec fn dedup_first(v: Seq<Seq<char>>) -> Seq<Seq<char>>
    decreases v.len(),
{
    if v.len() == 0 {
        seq![]
    } else {
        let r = dedup_first(v.drop_last());
        if r.contains(v.last()) {
            r
        } else {
            r.push(v.last())
        }
    }
}

/// The texts of an optional list.
pub open spec fn opt_texts(o: Option<Vec<String>>) -> Seq<Seq<char>> {
    match o {
        Some(v) => views(v@),
        None => seq![],
    }
}

/// The split words of the first `n` files, in order.
pub open spec fn all_split_words(cfgs: Seq<Config>, n: int) -> Seq<Seq<char>>
    decreases n,
{
    if n <= 0 {
        seq![]
    } else {
        all_split_words(cfgs, n - 1) + opt_texts(cfgs[n - 1].split_words)
    }
}

/// The sorry phrases of the first `n` files, in order.
pub open spec fn all_sorry_phrases(cfgs: Seq<Config>, n: int) -> Seq<Seq<char>>
    decreases n,
{
    if n <= 0 {
        seq![]
    } else {
        all_sorry_phrases(cfgs, n - 1) + opt_texts(cfgs[n - 1].sorry_phrases)
    }
}

/// The scripts of the first `n` files, in order.
pub open spec fn all_scripts(cfgs: Seq<Config>, n: int) -> Seq<ScriptConfig>
    decreases n,
{
    if n <= 0 {
        seq![]
    } else {
        all_scripts(cfgs, n - 1) + cfgs[n - 1].scripts@
    }
}

/// The file each script of the first `n` files comes from.
pub open spec fn script_sources(cfgs: Seq<Config>, n: int) -> Seq<int>
    decreases n,
{
    if n <= 0 {
        seq![]
    } else {
        script_sources(cfgs, n - 1) + Seq::new(cfgs[n - 1].scripts@.len(), |k: int| n - 1)
    }
}

/// A script whose name an earlier script already has.
pub open spec fn repeats(v: Seq<ScriptConfig>, q: int) -> bool {
    exists|p: int| 0 <= p < q && v[p].name@ == #[trigger] v[q].name@
}

/// The first script from position `i` on whose name an earlier script
/// already has.
pub open spec fn first_repeat_from(v: Seq<ScriptConfig>, i: int) -> Option<int>
    decreases v.len() - i,
{
    if i < 0 || i >= v.len() {
        None
    } else if repeats(v, i) {
        Some(i)
    } else {
        first_repeat_from(v, i + 1)
    }
}

/// The first script whose name an earlier script already has.
pub open spec fn first_repeat(v: Seq<ScriptConfig>) -> Option<int> {
    first_repeat_from(v, 0)
}

/// The first repeat is the one with no repeat before it.
pub proof fn lemma_first_repeat(v: Seq<ScriptConfig>, i: int, q: int)
    requires
        0 <= i <= q,
        forall|p: int| i <= p < q && p < v.len() ==> !repeats(v, p),
        q < v.len() ==> repeats(v, q),
    ensures
        first_repeat_from(v, i) == (if q < v.len() {
            Some(q)
        } else {
            None::<int>
        }),
    decreases q - i,
{
    if i < q && i < v.len() {
        lemma_first_repeat(v, i + 1, q);
    }
}

/// A script name given twice, and the file (by position) where it came
/// the second time.
pub struct DuplicateScript {
    pub name: String,
    pub source: usize,
}

/// The error names the first repeated script and the file it came from
/// the second time.
pub open spec fn duplicate_reported(cfgs: Seq<Config>, d: DuplicateScript) -> bool {
    let all = all_scripts(cfgs, cfgs.len() as int);
    match first_repeat(all) {
        Some(q) => d.name@ == all[q].name@ && d.source as int == script_sources(cfgs, cfgs.len() as int)[q],
        None => false,
    }
}

/// The view of an optional list of texts.
pub open spec fn opt_words_view(o: Option<Vec<String>>) -> Option<Seq<Seq<char>>> {
    match o {
        Some(v) => Some(views(v@)),
        None => None,
    }
}

/// A list, or nothing when it is empty.
pub open spec fn nonempty_or_none(v: Seq<Seq<char>>) -> Option<Seq<Seq<char>>> {
    if v.len() == 0 {
        None
    } else {
        Some(v)
    }
}

/// Adds a text unless it is there.
fn push_new(v: &mut Vec<String>, w: String)
    ensures
        views(final(v)@) == (if views(old(v)@).contains(w@) {
            views(old(v)@)
        } else {
            views(old(v)@).push(w@)
        }),
{
    let mut k: usize = 0;
    while k < v.len()
        invariant
            0 <= k <= v@.len(),
            forall|m: int| 0 <= m < k ==> v@[m]@ != w@,
        decreases v@.len() - k,
    {
        if crate::text::str_eq(v[k].as_str(), w.as_str()) {
            assert(views(v@)[k as int] == w@);
            return;
        }
        k = k + 1;
    }
    proof {
        if views(v@).contains(w@) {
            let j = choose|j: int| 0 <= j < views(v@).len() && views(v@)[j] == w@;
            assert(v@[j]@ == w@);
        }
    }
    let ghost before = views(v@);
    v.push(w);
    assert(views(v@) =~= before.push(w@));
}

/// Adds the new texts of a list, in order.
fn merge_texts(merged: &mut Vec<String>, words: Option<Vec<String>>, Ghost(prior): Ghost<Seq<Seq<char>>>)
    requires
        views(old(merged)@) == dedup_first(prior),
    ensures
        views(final(merged)@) == dedup_first(prior + opt_texts(words)),
{
    match words {
        Some(ws) => {
            let ghost wv = views(ws@);
            let cnt = ws.len();
            let mut rest = ws;
            let mut k: usize = 0;
            assert(prior + wv.take(0) =~= prior);
            assert(views(rest@) =~= wv.skip(0));
            while rest.len() > 0
                invariant
                    0 <= k <= wv.len(),
                    wv.len() == cnt,
                    views(rest@) == wv.skip(k as int),
                    views(merged@) == dedup_first(prior + wv.take(k as int)),
                decreases rest@.len(),
            {
                let ghost before = views(rest@);
                assert(before.len() == wv.len() - k);
                let w = rest.remove(0);
                assert(views(rest@) =~= before.drop_first());
                assert(before.drop_first() =~= wv.skip(k + 1));
                assert(w@ == before[0]);
                assert(before[0] == wv[k as int]);
                push_new(merged, w);
                let ghost t = prior + wv.take(k + 1);
                assert(t.drop_last() =~= prior + wv.take(k as int));
                assert(t.last() == wv[k as int]);
                k = k + 1;
            }
            assert(wv.take(k as int) =~= wv);
        },
        None => {
            assert(prior + seq![] =~= prior);
        },
    }
}

/// The position of a script with the given name.
fn find_script_name(scripts: &Vec<ScriptConfig>, name: &String) -> (r: Option<usize>)
    ensures
        match r {
            Some(m) => m < scripts@.len() && scripts@[m as int].name@ == name@,
            None => forall|p: int| 0 <= p < scripts@.len() ==> scripts@[p].name@ != name@,
        },
{
    let mut m: usize = 0;
    while m < scripts.len()
        invariant
            0 <= m <= scripts@.len(),
            forall|p: int| 0 <= p < m ==> scripts@[p].name@ != name@,
        decreases scripts@.len() - m,
    {
        if crate::text::str_eq(scripts[m].name.as_str(), name.as_str()) {
            return Some(m);
        }
        m = m + 1;
    }
    None
}

/// The first repeat of the scripts of all files, found among the scripts
/// of the files before it.
proof fn lemma_repeat_found(cv: Seq<Config>, i: int, prefix: Seq<ScriptConfig>, k: int, m: int)
    requires
        0 <= i < cv.len(),
        prefix == all_scripts(cv, i) + cv[i].scripts@.take(k),
        0 <= k < cv[i].scripts@.len(),
        0 <= m < prefix.len(),
        prefix[m].name@ == cv[i].scripts@[k].name@,
        forall|q: int| 0 <= q < prefix.len() ==> !repeats(prefix, q),
    ensures
        first_repeat(all_scripts(cv, cv.len() as int)) == Some(prefix.len() as int),
        all_scripts(cv, cv.len() as int)[prefix.len() as int] == cv[i].scripts@[k],
        script_sources(cv, cv.len() as int)[prefix.len() as int] == i,
{
    let all = all_scripts(cv, cv.len() as int);
    let q = prefix.len() as int;
    let sv = cv[i].scripts@;
    lemma_all_scripts_prefix(cv, i + 1, cv.len() as int);
    lemma_sources_prefix(cv, i + 1, cv.len() as int);
    lemma_sources_len(cv, i + 1);
    lemma_sources_len(cv, i);
    assert(all_scripts(cv, i + 1) == all_scripts(cv, i) + sv);
    assert(all_scripts(cv, i + 1)[q] == sv[k]);
    assert(all[q] == sv[k]);
    assert(all_scripts(cv, i + 1)[m] == prefix[m]);
    assert(all[m] == prefix[m]);
    assert(repeats(all, q));
    assert forall|p: int| 0 <= p < q implies !repeats(all, p) by {
        assert(all_scripts(cv, i + 1)[p] == prefix[p]);
        assert(all[p] == prefix[p]);
        if repeats(all, p) {
            let pp = choose|pp: int| 0 <= pp < p && all[pp].name@ == #[trigger] all[p].name@;
            assert(all_scripts(cv, i + 1)[pp] == prefix[pp]);
            assert(repeats(prefix, p));
        }
    }
    lemma_all_scripts_len(cv, i + 1, cv.len() as int);
    lemma_first_repeat(all, 0, q);
    assert(script_sources(cv, i + 1) == script_sources(cv, i) + Seq::new(sv.len(), |x: int| i));
    assert(script_sources(cv, i + 1)[q] == i);
}

/// Merges configuration files in order: split words and sorry phrases
/// keep their first occurrences (and are absent when there are none), and
/// scripts are concatenated; a script name given twice is refused with the
/// position of the file where it came again.
pub fn merge_configs(configs: Vec<Config>) -> (r: Result<Config, DuplicateScript>)
    ensures
        match r {
            Ok(c) => {
                &&& first_repeat(all_scripts(configs@, configs@.len() as int)) is None
                &&& opt_words_view(c.split_words) == nonempty_or_none(
                    dedup_first(all_split_words(configs@, configs@.len() as int)),
                )
                &&& opt_words_view(c.sorry_phrases) == nonempty_or_none(
                    dedup_first(all_sorry_phrases(configs@, configs@.len() as int)),
                )
                &&& c.scripts@ == all_scripts(configs@, configs@.len() as int)
            },
            Err(d) => duplicate_reported(configs@, d),
        },
{
    let ghost cv = configs@;
    let count = configs.len();
    let ghost n = cv.len() as int;
    let mut rest = configs;
    let mut words: Vec<String> = Vec::new();
    let mut phrases: Vec<String> = Vec::new();
    let mut scripts: Vec<ScriptConfig> = Vec::new();
    let mut i: usize = 0;
    assert(views(words@) =~= dedup_first(all_split_words(cv, 0)));
    assert(views(phrases@) =~= dedup_first(all_sorry_phrases(cv, 0)));
    assert(scripts@ =~= all_scripts(cv, 0));
    assert(cv.skip(0) =~= cv);
    while rest.len() > 0
        invariant
            0 <= i <= n,
            cv == configs@,
            n == cv.len(),
            count == n,
            rest@ == cv.skip(i as int),
            views(words@) == dedup_first(all_split_words(cv, i as int)),
            views(phrases@) == dedup_first(all_sorry_phrases(cv, i as int)),
            scripts@ == all_scripts(cv, i as int),
            forall|q: int| 0 <= q < scripts@.len() ==> !repeats(scripts@, q),
        decreases rest@.len(),
    {
        assert(i < n);
        let ghost before_rest = rest@;
        let cfg = rest.remove(0);
        assert(rest@ =~= cv.skip(i + 1));
        assert(cfg == cv[i as int]);
        let Config { split_words, sorry_phrases, scripts: cfg_scripts } = cfg;
        merge_texts(&mut words, split_words, Ghost(all_split_words(cv, i as int)));
        merge_texts(&mut phrases, sorry_phrases, Ghost(all_sorry_phrases(cv, i as int)));
        let ghost base = scripts@;
        let ghost sv = cfg_scripts@;
        let scnt = cfg_scripts.len();
        let mut srest = cfg_scripts;
        let mut k: usize = 0;
        assert(base + sv.take(0) =~= base);
        assert(sv.skip(0) =~= sv);
        while srest.len() > 0
            invariant
                0 <= k <= sv.len(),
                cv == configs@,
                sv.len() == scnt,
                i < n,
                n == cv.len(),
                sv == cv[i as int].scripts@,
                base == all_scripts(cv, i as int),
                srest@ == sv.skip(k as int),
                scripts@ == base + sv.take(k as int),
                forall|q: int| 0 <= q < scripts@.len() ==> !repeats(scripts@, q),
            decreases srest@.len(),
        {
            let ghost before = srest@;
            let sc = srest.remove(0);
            assert(srest@ =~= sv.skip(k + 1));
            assert(sc == sv[k as int]);
            match find_script_name(&scripts, &sc.name) {
                Some(m) => {
                    proof {
                        lemma_repeat_found(cv, i as int, scripts@, k as int, m as int);
                    }
                    let d = DuplicateScript { name: sc.name, source: i };
                    assert(first_repeat(all_scripts(cv, n)) == Some(scripts@.len() as int));
                    assert(d.name@ == all_scripts(cv, n)[scripts@.len() as int].name@);
                    assert(d.source as int == script_sources(cv, n)[scripts@.len() as int]);
                    assert(cv.len() == n);
                    assert(duplicate_reported(cv, d));
                    return Err(d);
                },
                None => {},
            }
            let ghost prev = scripts@;
            scripts.push(sc);
            proof {
                assert forall|q: int| 0 <= q < scripts@.len() implies !repeats(scripts@, q) by {
                    if repeats(scripts@, q) {
                        let pp = choose|pp: int| 0 <= pp < q && scripts@[pp].name@ == #[trigger] scripts@[q].name@;
                        if q < prev.len() {
                            assert(repeats(prev, q));
                        } else {
                            assert(scripts@[pp] == prev[pp]);
                        }
                    }
                }
                assert(sv.take(k + 1) =~= sv.take(k as int).push(sc));
            }
            k = k + 1;
        }
        assert(sv.take(k as int) =~= sv);
        i = i + 1;
    }
    proof {
        let all = all_scripts(cv, n);
        assert(all == scripts@);
        lemma_first_repeat(all, 0, all.len() as int);
    }
    let split_words = if words.len() == 0 {
        None
    } else {
        Some(words)
    };
    let sorry_phrases = if phrases.len() == 0 {
        None
    } else {
        Some(phrases)
    };
    Ok(Config { split_words, sorry_phrases, scripts })
}

/// More files have at least as many scripts.
pub proof fn lemma_all_scripts_len(cfgs: Seq<Config>, a: int, b: int)
    requires
        0 <= a <= b,
    ensures
        all_scripts(cfgs, a).len() <= all_scripts(cfgs, b).len(),
    decreases b - a,
{
    if a < b {
        lemma_all_scripts_len(cfgs, a, b - 1);
    }
}

/// Each file adds a source per script.
pub proof fn lemma_sources_len(cfgs: Seq<Config>, n: int)
    requires
        0 <= n <= cfgs.len(),
    ensures
        script_sources(cfgs, n).len() == all_scripts(cfgs, n).len(),
    decreases n,
{
    if n > 0 {
        lemma_sources_len(cfgs, n - 1);
    }
}

/// The scripts of more files extend those of fewer.
pub proof fn lemma_all_scripts_prefix(cfgs: Seq<Config>, a: int, b: int)
    requires
        0 <= a <= b,
    ensures
        all_scripts(cfgs, a).len() <= all_scripts(cfgs, b).len(),
        forall|q: int| 0 <= q < all_scripts(cfgs, a).len() ==> all_scripts(cfgs, b)[q] == #[trigger] all_scripts(cfgs, a)[q],
    decreases b - a,
{
    if a < b {
        lemma_all_scripts_prefix(cfgs, a, b - 1);
    }
}

/// The sources of more files extend those of fewer.
pub proof fn lemma_sources_prefix(cfgs: Seq<Config>, a: int, b: int)
    requires
        0 <= a <= b,
    ensures
        script_sources(cfgs, a).len() <= script_sources(cfgs, b).len(),
        forall|q: int| 0 <= q < script_sources(cfgs, a).len() ==> script_sources(cfgs, b)[q] == #[trigger] script_sources(cfgs, a)[q],
    decreases b - a,
{
    if a < b {
        lemma_sources_prefix(cfgs, a, b - 1);
    }
}

/// The position of a named script with the given name.
fn find_named(v: &Vec<NamedScript>, name: &String) -> (r: Option<usize>)
    ensures
        match r {
            Some(m) => m < v@.len() && v@[m as int].name@ == name@,
            None => forall|p: int| 0 <= p < v@.len() ==> v@[p].name@ != name@,
        },
{
    let mut m: usize = 0;
    while m < v.len()
        invariant
            0 <= m <= v@.len(),
            forall|p: int| 0 <= p < m ==> v@[p].name@ != name@,
        decreases v@.len() - m,
    {
        if crate::text::str_eq(v[m].name.as_str(), name.as_str()) {
            return Some(m);
        }
        m = m + 1;
    }
    None
}

/// Reads the scripts of configuration files in order, with their defaults
/// filled in; a script name given twice is refused with that name.
pub fn collect_scripts(configs: Vec<Config>) -> (r: Result<Vec<NamedScript>, String>)
    ensures
        match r {
            Ok(v) => {
                let all = all_scripts(configs@, configs@.len() as int);
                &&& first_repeat(all) is None
                &&& v@.len() == all.len()
                &&& forall|k: int|
                    0 <= k < v@.len() ==> (#[trigger] v@[k]).name@ == all[k].name@ && converts(all[k], v@[k].script)
            },
            Err(name) => {
                let all = all_scripts(configs@, configs@.len() as int);
                first_repeat(all) matches Some(q) && name@ == all[q].name@
            },
        },
{
    let ghost cv = configs@;
    let count = configs.len();
    let ghost n = cv.len() as int;
    let mut rest = configs;
    let mut out: Vec<NamedScript> = Vec::new();
    let ghost mut prefix: Seq<ScriptConfig> = seq![];
    let mut i: usize = 0;
    assert(prefix =~= all_scripts(cv, 0));
    assert(cv.skip(0) =~= cv);
    while rest.len() > 0
        invariant
            0 <= i <= n,
            cv == configs@,
            n == cv.len(),
            count == n,
            rest@ == cv.skip(i as int),
            prefix == all_scripts(cv, i as int),
            out@.len() == prefix.len(),
            forall|p: int| 0 <= p < out@.len() ==> (#[trigger] out@[p]).name@ == prefix[p].name@ && converts(prefix[p], out@[p].script),
            forall|q: int| 0 <= q < prefix.len() ==> !repeats(prefix, q),
        decreases rest@.len(),
    {
        assert(i < n);
        let cfg = rest.remove(0);
        assert(rest@ =~= cv.skip(i + 1));
        assert(cfg == cv[i as int]);
        let ghost sv = cfg.scripts@;
        let ghost base = prefix;
        let scnt = cfg.scripts.len();
        let mut srest = cfg.scripts;
        let mut k: usize = 0;
        assert(base + sv.take(0) =~= base);
        assert(sv.skip(0) =~= sv);
        while srest.len() > 0
            invariant
                0 <= k <= sv.len(),
                cv == configs@,
                sv.len() == scnt,
                i < n,
                n == cv.len(),
                sv == cv[i as int].scripts@,
                base == all_scripts(cv, i as int),
                srest@ == sv.skip(k as int),
                prefix == base + sv.take(k as int),
                out@.len() == prefix.len(),
                forall|p: int| 0 <= p < out@.len() ==> (#[trigger] out@[p]).name@ == prefix[p].name@ && converts(prefix[p], out@[p].script),
                forall|q: int| 0 <= q < prefix.len() ==> !repeats(prefix, q),
            decreases srest@.len(),
        {
            let sc = srest.remove(0);
            assert(srest@ =~= sv.skip(k + 1));
            assert(sc == sv[k as int]);
            let ghost scv = sc;
            let (name, script) = convert_script_config(sc);
            match find_named(&out, &name) {
                Some(m) => {
                    proof {
                        assert(prefix[m as int].name@ == out@[m as int].name@);
                        lemma_repeat_found(cv, i as int, prefix, k as int, m as int);
                    }
                    return Err(name);
                },
                None => {},
            }
            proof {
                let np = prefix.push(scv);
                assert forall|q: int| 0 <= q < np.len() implies !repeats(np, q) by {
                    if repeats(np, q) {
                        let pp = choose|pp: int| 0 <= pp < q && np[pp].name@ == #[trigger] np[q].name@;
                        if q < prefix.len() {
                            assert(repeats(prefix, q));
                        } else {
                            assert(np[pp] == prefix[pp]);
                            assert(out@[pp].name@ == prefix[pp].name@);
                        }
                    }
                }
                assert(sv.take(k + 1) =~= sv.take(k as int).push(scv));
            }
            out.push(NamedScript { name, script });
            proof {
                prefix = prefix.push(scv);
            }
            k = k + 1;
        }
        assert(sv.take(k as int) =~= sv);
        i = i + 1;
    }
    proof {
        lemma_first_repeat(prefix, 0, prefix.len() as int);
    }
    Ok(out)
}

} // verus!
