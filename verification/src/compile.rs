//! What the configuration compiler derives from the scripts: the intent
//! data and fuzzy index the matcher loads, the substitutions of list
//! values, the shell case arms of entity resolvers, and statistics.
use vstd::prelude::*;
use crate::config::{param_names, extract_param_names, NamedListSpec, NamedScript, Script, ValueMapping, VoiceConfig};
use crate::expand::{
    compiled_variants, cviews, insert_sorted_unique, sentence_variants, sentence_variants_of,
    sorted_strict, value_variants, value_variants_of,
};
use crate::intent::{first_from, Substitution};
use crate::text::{
    chars_of, copy_string, join, join_strings, lex_less, lex_lt, lemma_lex_irreflexive, lemma_lex_total, lemma_lex_transitive,
    lowercase, push_all, push_str, split_whitespace, str_eq, string_from_chars, to_lowercase, views, words,
};

verus! {

// ---------------------------------------------------------------------------
// Lists by name
// ---------------------------------------------------------------------------

/// The position of the first configured list with the given name.
pub open spec fn spec_list_pos(v: Seq<NamedListSpec>, name: Seq<char>) -> Option<int> {
    first_from(v.len() as int, |k: int| v[k].name@ == name, 0)
}

/// Finds a configured list by name.
pub fn find_list_spec(v: &Vec<NamedListSpec>, name: &str) -> (r: Option<usize>)
    ensures
        match r {
            Some(k) => spec_list_pos(v@, name@) == Some(k as int) && k < v@.len(),
            None => spec_list_pos(v@, name@) is None,
        },
{
    let ghost p = |k: int| v@[k].name@ == name@;
    let mut i: usize = 0;
    while i < v.len()
        invariant
            0 <= i <= v@.len(),
            p == (|k: int| v@[k].name@ == name@),
            spec_list_pos(v@, name@) == first_from(v@.len() as int, p, i as int),
        decreases v@.len() - i,
    {
        if str_eq(v[i].name.as_str(), name) {
            return Some(i);
        }
        i = i + 1;
    }
    None
}

// ---------------------------------------------------------------------------
// Entity resolvers
// ---------------------------------------------------------------------------

/// One case arm of a resolver: the spoken variant echoes the value.
pub open spec fn resolver_line(variant: Seq<char>, out: Seq<char>) -> Seq<char> {
    "    \""@ + variant + "\") echo \""@ + out + "\";;\n"@
}

/// The case arms of the first `n` variants of one value.
pub open spec fn variant_lines(vs: Seq<Seq<char>>, out: Seq<char>, n: int) -> Seq<char>
    decreases n,
{
    if n <= 0 {
        seq![]
    } else {
        variant_lines(vs, out, n - 1) + resolver_line(vs[n - 1], out)
    }
}

/// The case arms of the first `n` values of a list.
pub open spec fn value_lines(values: Seq<ValueMapping>, n: int) -> Seq<char>
    decreases n,
{
    if n <= 0 {
        seq![]
    } else {
        let vs = value_variants(values[n - 1].input@);
        value_lines(values, n - 1) + variant_lines(vs, values[n - 1].out@, vs.len() as int)
    }
}

/// The case arms that resolve the spoken variants of a list's values:
/// empty when there are no lists, no such list or no values.
pub open spec fn entity_resolver(data: Option<Seq<NamedListSpec>>, name: Seq<char>) -> Seq<char> {
    match data {
        None => seq![],
        Some(ls) => match spec_list_pos(ls, name) {
            None => seq![],
            Some(j) => match ls[j].list.values {
                None => seq![],
                Some(vs) => value_lines(vs@, vs@.len() as int),
            },
        },
    }
}

/// Appends the case arms of one value.
fn push_value_lines(out: &mut Vec<char>, vm: &ValueMapping)
    ensures
        final(out)@ == old(out)@ + variant_lines(
            value_variants(vm.input@),
            vm.out@,
            value_variants(vm.input@).len() as int,
        ),
{
    let vs = value_variants_of(vm.input.as_str());
    let ghost vv = views(vs@);
    let mut k: usize = 0;
    let ghost start = out@;
    while k < vs.len()
        invariant
            0 <= k <= vs@.len(),
            vv == views(vs@),
            vv == value_variants(vm.input@),
            out@ == start + variant_lines(vv, vm.out@, k as int),
        decreases vs@.len() - k,
    {
        let ghost before = out@;
        push_str(out, "    \"");
        push_str(out, vs[k].as_str());
        push_str(out, "\") echo \"");
        push_str(out, vm.out.as_str());
        push_str(out, "\";;\n");
        assert(vv[k as int] == vs@[k as int]@);
        assert(out@ =~= before + resolver_line(vv[k as int], vm.out@));
        k = k + 1;
    }
}

/// The case arms of a shell `case` that turns the spoken variants of a
/// list's values into their outputs.
pub fn make_entity_resolver(data: Option<&Vec<NamedListSpec>>, list_name: &str) -> (r: String)
    ensures
        r@ == entity_resolver(
            match data {
                Some(d) => Some(d@),
                None => None,
            },
            list_name@,
        ),
{
    let mut out: Vec<char> = Vec::new();
    match data {
        Some(lists) => match find_list_spec(lists, list_name) {
            Some(j) => match &lists[j].list.values {
                Some(values) => {
                    let mut i: usize = 0;
                    while i < values.len()
                        invariant
                            0 <= i <= values@.len(),
                            out@ == value_lines(values@, i as int),
                        decreases values@.len() - i,
                    {
                        push_value_lines(&mut out, &values[i]);
                        i = i + 1;
                    }
                },
                None => {},
            },
            None => {},
        },
        None => {},
    }
    string_from_chars(out.as_slice())
}

// ---------------------------------------------------------------------------
// Substitutions of list values
// ---------------------------------------------------------------------------

/// The variant-to-output pairs of the first `n` values.
pub open spec fn value_pairs(values: Seq<ValueMapping>, n: int) -> Seq<(Seq<char>, Seq<char>)>
    decreases n,
{
    if n <= 0 {
        seq![]
    } else {
        let vm = values[n - 1];
        value_pairs(values, n - 1) + value_variants(vm.input@).map_values(
            |v: Seq<char>| (v, vm.out@),
        )
    }
}

/// The variant-to-output pairs of the first `n` lists (lists without
/// values give none).
pub open spec fn list_pairs(lists: Seq<NamedListSpec>, n: int) -> Seq<(Seq<char>, Seq<char>)>
    decreases n,
{
    if n <= 0 {
        seq![]
    } else {
        list_pairs(lists, n - 1) + match lists[n - 1].list.values {
            Some(vs) => value_pairs(vs@, vs@.len() as int),
            None => seq![],
        }
    }
}

/// The variant-to-output pairs of a voice configuration.
pub open spec fn voice_pairs(voice: VoiceConfig) -> Seq<(Seq<char>, Seq<char>)> {
    match voice.lists {
        Some(ls) => list_pairs(ls@, ls@.len() as int),
        None => seq![],
    }
}

/// The views of pairs of strings.
pub open spec fn pair_views(v: Seq<(String, String)>) -> Seq<(Seq<char>, Seq<char>)> {
    v.map_values(|p: (String, String)| (p.0@, p.1@))
}

/// Appends the pairs of one value.
fn push_value_pairs(out: &mut Vec<(String, String)>, vm: &ValueMapping)
    ensures
        pair_views(final(out)@) == pair_views(old(out)@) + value_variants(vm.input@).map_values(
            |v: Seq<char>| (v, vm.out@),
        ),
{
    let vs = value_variants_of(vm.input.as_str());
    let ghost vv = views(vs@);
    let ghost start = pair_views(out@);
    let mut k: usize = 0;
    while k < vs.len()
        invariant
            0 <= k <= vs@.len(),
            vv == views(vs@),
            vv == value_variants(vm.input@),
            pair_views(out@) == start + vv.take(k as int).map_values(|v: Seq<char>| (v, vm.out@)),
        decreases vs@.len() - k,
    {
        let ghost before = pair_views(out@);
        out.push((copy_string(&vs[k]), copy_string(&vm.out)));
        assert(vv[k as int] == vs@[k as int]@);
        assert(vv.take(k + 1).map_values(|v: Seq<char>| (v, vm.out@)) =~= vv.take(k as int).map_values(
            |v: Seq<char>| (v, vm.out@),
        ).push((vv[k as int], vm.out@)));
        assert(pair_views(out@) =~= before.push((vv[k as int], vm.out@)));
        k = k + 1;
    }
    assert(vv.take(vs@.len() as int) =~= vv);
}

/// The spoken variant and output of every value of every list of a voice
/// configuration, in order.
pub fn build_substitutions(voice: &VoiceConfig) -> (r: Vec<(String, String)>)
    ensures
        pair_views(r@) == voice_pairs(*voice),
{
    let mut out: Vec<(String, String)> = Vec::new();
    match &voice.lists {
        Some(lists) => {
            let mut i: usize = 0;
            while i < lists.len()
                invariant
                    0 <= i <= lists@.len(),
                    pair_views(out@) == list_pairs(lists@, i as int),
                decreases lists@.len() - i,
            {
                match &lists[i].list.values {
                    Some(values) => {
                        let ghost base = pair_views(out@);
                        let mut k: usize = 0;
                        while k < values.len()
                            invariant
                                0 <= k <= values@.len(),
                                pair_views(out@) == base + value_pairs(values@, k as int),
                            decreases values@.len() - k,
                        {
                            push_value_pairs(&mut out, &values[k]);
                            assert(pair_views(out@) =~= base + value_pairs(values@, k + 1));
                            k = k + 1;
                        }
                    },
                    None => {
                        assert(pair_views(out@) =~= pair_views(out@) + seq![]);
                    },
                }
                i = i + 1;
            }
        },
        None => {},
    }
    out
}

// ---------------------------------------------------------------------------
// Intent data and fuzzy index
// ---------------------------------------------------------------------------

/// The compiled intent of one script: its sentence variants (sorted, each
/// once) and the substitutions of its list values.
pub struct IntentRecord {
    pub name: String,
    pub sentences: Vec<String>,
    pub substitutions: Vec<Substitution>,
}

/// One entry of the fuzzy index.
pub struct FuzzyRecord {
    pub script: String,
    pub sentence: String,
    pub signature: String,
}

/// Every compiled variant of the first `n` sentences.
pub open spec fn all_variants(ss: Seq<String>, n: int) -> Set<Seq<char>>
    decreases n,
{
    if n <= 0 {
        Set::empty()
    } else {
        all_variants(ss, n - 1).union(compiled_variants(ss[n - 1]@))
    }
}

/// The substitution pattern of a variant: the variant when it has a space,
/// otherwise the variant in parentheses.
pub open spec fn sub_pattern(v: Seq<char>) -> Seq<char> {
    if v.contains(' ') {
        v
    } else {
        "("@ + v + ")"@
    }
}

/// The substitutions of a voice configuration as pattern-value pairs.
pub open spec fn voice_subs(voice: VoiceConfig) -> Seq<(Seq<char>, Seq<char>)> {
    voice_pairs(voice).map_values(|p: (Seq<char>, Seq<char>)| (sub_pattern(p.0), p.1))
}

/// The view of substitutions.
pub open spec fn sub_views(v: Seq<Substitution>) -> Seq<(Seq<char>, Seq<char>)> {
    v.map_values(|x: Substitution| (x.pattern@, x.value@))
}

/// The view of an intent record.
pub open spec fn record_view(r: IntentRecord) -> (Seq<char>, Seq<Seq<char>>, Seq<(Seq<char>, Seq<char>)>) {
    (r.name@, views(r.sentences@), sub_views(r.substitutions@))
}

/// The intent records of the first `n` scripts that have a voice part.
pub open spec fn intent_records(scripts: Seq<NamedScript>, n: int) -> Seq<(Seq<char>, Seq<Seq<char>>, Seq<(Seq<char>, Seq<char>)>)>
    decreases n,
{
    if n <= 0 {
        seq![]
    } else {
        let sc = scripts[n - 1];
        intent_records(scripts, n - 1) + match sc.script.voice {
            Some(v) => seq![
                (
                    sc.name@,
                    crate::expand::sorted_list(all_variants(v.sentences@, v.sentences@.len() as int)),
                    voice_subs(v),
                ),
            ],
            None => seq![],
        }
    }
}

/// Turns variant pairs into substitutions.
fn subs_from_pairs(pairs: Vec<(String, String)>) -> (r: Vec<Substitution>)
    ensures
        sub_views(r@) == pair_views(pairs@).map_values(
            |p: (Seq<char>, Seq<char>)| (sub_pattern(p.0), p.1),
        ),
{
    let ghost target = pair_views(pairs@).map_values(|p: (Seq<char>, Seq<char>)| (sub_pattern(p.0), p.1));
    let mut out: Vec<Substitution> = Vec::new();
    let mut i: usize = 0;
    while i < pairs.len()
        invariant
            0 <= i <= pairs@.len(),
            target == pair_views(pairs@).map_values(|p: (Seq<char>, Seq<char>)| (sub_pattern(p.0), p.1)),
            sub_views(out@) == target.take(i as int),
        decreases pairs@.len() - i,
    {
        let v = &pairs[i].0;
        let vc = chars_of(v.as_str());
        let mut has_space = false;
        let mut k: usize = 0;
        while k < vc.len()
            invariant
                0 <= k <= vc@.len(),
                has_space <==> exists|m: int| 0 <= m < k && vc@[m] == ' ',
            decreases vc@.len() - k,
        {
            if vc[k] == ' ' {
                has_space = true;
            }
            k = k + 1;
        }
        let pattern = if has_space {
            copy_string(v)
        } else {
            let mut pc: Vec<char> = Vec::new();
            push_str(&mut pc, "(");
            push_all(&mut pc, vc.as_slice());
            push_str(&mut pc, ")");
            string_from_chars(pc.as_slice())
        };
        assert(has_space == v@.contains(' '));
        let ghost before = sub_views(out@);
        out.push(Substitution { pattern, value: copy_string(&pairs[i].1) });
        assert(sub_views(out@) =~= before.push(target[i as int]));
        assert(target.take(i + 1) =~= target.take(i as int).push(target[i as int]));
        i = i + 1;
    }
    assert(target.take(pairs@.len() as int) =~= target);
    out
}

/// The sorted variants of all sentences of a voice configuration.
fn all_sentence_variants(sentences: &Vec<String>) -> (r: Vec<String>)
    ensures
        views(r@) == crate::expand::sorted_list(all_variants(sentences@, sentences@.len() as int)),
{
    let mut acc: Vec<Vec<char>> = Vec::new();
    let mut j: usize = 0;
    assert(cviews(acc@).to_set() =~= Set::empty());
    while j < sentences.len()
        invariant
            0 <= j <= sentences@.len(),
            sorted_strict(cviews(acc@)),
            cviews(acc@).to_set() == all_variants(sentences@, j as int),
        decreases sentences@.len() - j,
    {
        let vs = crate::expand::expand_optional_words(sentences[j].as_str());
        let ghost base = cviews(acc@).to_set();
        let mut k: usize = 0;
        while k < vs.len()
            invariant
                0 <= k <= vs@.len(),
                sorted_strict(cviews(acc@)),
                cviews(acc@).to_set() == base.union(views(vs@).take(k as int).to_set()),
            decreases vs@.len() - k,
        {
            let vc = chars_of(vs[k].as_str());
            insert_sorted_unique(&mut acc, vc);
            proof {
                assert(views(vs@).take(k + 1) =~= views(vs@).take(k as int).push(vs@[k as int]@));
                views(vs@).take(k as int).lemma_push_to_set_commute(vs@[k as int]@);
                assert(cviews(acc@).to_set() =~= base.union(views(vs@).take(k + 1).to_set()));
            }
            k = k + 1;
        }
        assert(views(vs@).take(vs@.len() as int) =~= views(vs@));
        assert(cviews(acc@).to_set() =~= all_variants(sentences@, j + 1));
        j = j + 1;
    }
    let mut out: Vec<String> = Vec::new();
    let mut i: usize = 0;
    while i < acc.len()
        invariant
            0 <= i <= acc@.len(),
            views(out@) == cviews(acc@).take(i as int),
        decreases acc@.len() - i,
    {
        let ghost before = views(out@);
        out.push(string_from_chars(acc[i].as_slice()));
        assert(views(out@) =~= before.push(acc@[i as int]@));
        assert(cviews(acc@).take(i + 1) =~= cviews(acc@).take(i as int).push(acc@[i as int]@));
        i = i + 1;
    }
    assert(cviews(acc@).take(acc@.len() as int) =~= cviews(acc@));
    proof {
        crate::expand::lemma_sorted_list(cviews(acc@));
    }
    out
}

/// The intent data of the scripts that have a voice part: each script's
/// sorted, distinct sentence variants and the substitutions of its list
/// values (a variant with a space as it is, otherwise in parentheses).
pub fn generate_intent_data(scripts: &Vec<NamedScript>) -> (r: Vec<IntentRecord>)
    ensures
        r@.map_values(|x: IntentRecord| record_view(x)) == intent_records(scripts@, scripts@.len() as int),
{
    let mut out: Vec<IntentRecord> = Vec::new();
    let mut i: usize = 0;
    while i < scripts.len()
        invariant
            0 <= i <= scripts@.len(),
            out@.map_values(|x: IntentRecord| record_view(x)) == intent_records(scripts@, i as int),
        decreases scripts@.len() - i,
    {
        let ghost before = out@.map_values(|x: IntentRecord| record_view(x));
        match &scripts[i].script.voice {
            Some(voice) => {
                let sentences = all_sentence_variants(&voice.sentences);
                let pairs = build_substitutions(voice);
                let subs = subs_from_pairs(pairs);
                let rec = IntentRecord { name: copy_string(&scripts[i].name), sentences, substitutions: subs };
                let ghost rv = record_view(rec);
                out.push(rec);
                assert(out@.map_values(|x: IntentRecord| record_view(x)) =~= before.push(rv));
            },
            None => {
                assert(out@.map_values(|x: IntentRecord| record_view(x)) =~= before + seq![]);
            },
        }
        i = i + 1;
    }
    out
}

/// Words in non-decreasing order.
pub open spec fn sorted_le(q: Seq<Seq<char>>) -> bool {
    forall|i: int, j: int| 0 <= i < j < q.len() ==> !lex_lt(#[trigger] q[j], #[trigger] q[i])
}

/// The signature of a sentence: its lowercased words in sorted order,
/// joined by `|`.
pub open spec fn is_signature(sig: Seq<char>, sentence: Seq<char>) -> bool {
    exists|q: Seq<Seq<char>>|
        sorted_le(q) && q.to_multiset() == words(lowercase(sentence)).to_multiset() && sig == join(
            q,
            "|"@,
        )
}

/// The word order: `a` does not come after `b`.
pub open spec fn word_le(a: Seq<char>, b: Seq<char>) -> bool {
    !lex_lt(b, a)
}

proof fn lemma_word_le_total()
    ensures
        vstd::relations::total_ordering(|a: Seq<char>, b: Seq<char>| word_le(a, b)),
{
    let leq = |a: Seq<char>, b: Seq<char>| word_le(a, b);
    assert forall|x: Seq<char>| #[trigger] leq(x, x) by {
        lemma_lex_irreflexive(x);
    }
    assert forall|x: Seq<char>, y: Seq<char>| #[trigger] leq(x, y) && #[trigger] leq(y, x) implies x == y by {
        if x != y {
            lemma_lex_total(x, y);
        }
    }
    assert forall|x: Seq<char>, y: Seq<char>, z: Seq<char>| #[trigger] leq(x, y) && #[trigger] leq(y, z) implies leq(
        x,
        z,
    ) by {
        if lex_lt(z, x) && x != y {
            lemma_lex_total(x, y);
            lemma_lex_transitive(z, x, y);
        }
    }
    assert forall|x: Seq<char>, y: Seq<char>| #[trigger] leq(x, y) || #[trigger] leq(y, x) by {
        if lex_lt(y, x) && lex_lt(x, y) {
            lemma_lex_transitive(x, y, x);
            lemma_lex_irreflexive(x);
        }
    }
}

/// Signatures do not depend on the order of words: sentences with the
/// same lowercased words, in any order, have the same signature.
pub proof fn lemma_signature_order_independent(a: Seq<char>, b: Seq<char>, s1: Seq<char>, s2: Seq<char>)
    requires
        is_signature(s1, a),
        is_signature(s2, b),
        words(lowercase(a)).to_multiset() == words(lowercase(b)).to_multiset(),
    ensures
        s1 == s2,
{
    let q1 = choose|q: Seq<Seq<char>>|
        sorted_le(q) && q.to_multiset() == words(lowercase(a)).to_multiset() && s1 == join(q, "|"@);
    let q2 = choose|q: Seq<Seq<char>>|
        sorted_le(q) && q.to_multiset() == words(lowercase(b)).to_multiset() && s2 == join(q, "|"@);
    let leq = |x: Seq<char>, y: Seq<char>| word_le(x, y);
    lemma_word_le_total();
    assert(vstd::relations::sorted_by(q1, leq));
    assert(vstd::relations::sorted_by(q2, leq));
    vstd::seq_lib::lemma_sorted_unique(q1, q2, leq);
    assert(q1 == q2);
}

/// Sorts words.
fn sort_words(ws: Vec<String>) -> (r: Vec<String>)
    ensures
        sorted_le(views(r@)),
        views(r@).to_multiset() == views(ws@).to_multiset(),
{
    let mut out: Vec<String> = Vec::new();
    let mut i: usize = 0;
    assert(views(ws@).take(0) =~= views(out@));
    while i < ws.len()
        invariant
            0 <= i <= ws@.len(),
            sorted_le(views(out@)),
            views(out@).to_multiset() == views(ws@).take(i as int).to_multiset(),
        decreases ws@.len() - i,
    {
        let x = copy_string(&ws[i]);
        let xc = chars_of(x.as_str());
        let ghost o = views(out@);
        let mut p: usize = 0;
        while p < out.len()
            invariant
                0 <= p <= out@.len(),
                o == views(out@),
                sorted_le(o),
                xc@ == x@,
                forall|k: int| 0 <= k < p ==> !lex_lt(x@, #[trigger] o[k]),
            ensures
                0 <= p <= out@.len(),
                forall|k: int| 0 <= k < p ==> !lex_lt(x@, #[trigger] o[k]),
                p < out@.len() ==> lex_lt(x@, o[p as int]),
            decreases out@.len() - p,
        {
            let oc = chars_of(out[p].as_str());
            if lex_less(xc.as_slice(), oc.as_slice()) {
                break;
            }
            p = p + 1;
        }
        let ghost xv = x@;
        out.insert(p, x);
        proof {
            let n = views(out@);
            assert(n =~= o.insert(p as int, xv));
            assert forall|a: int, b: int| 0 <= a < b < n.len() implies !lex_lt(#[trigger] n[b], #[trigger] n[a]) by {
                if b < p {
                } else if b == p {
                    assert(n[a] == o[a]);
                    assert(!lex_lt(xv, o[a]));
                } else if a < p {
                    assert(n[a] == o[a] && n[b] == o[b - 1]);
                } else if a == p {
                    assert(n[b] == o[b - 1]);
                    assert(lex_lt(xv, o[p as int]));
                    if lex_lt(o[b - 1], xv) {
                        lemma_lex_transitive(o[b - 1], xv, o[p as int]);
                        if b - 1 == p {
                            crate::text::lemma_lex_irreflexive(o[p as int]);
                        } else {
                            assert(!lex_lt(o[b - 1], o[p as int]));
                        }
                    }
                } else {
                    assert(n[a] == o[a - 1] && n[b] == o[b - 1]);
                }
            }
            vstd::seq_lib::to_multiset_insert(o, p as int, xv);
            assert(views(ws@).take(i + 1) =~= views(ws@).take(i as int).push(xv));
            vstd::seq_lib::to_multiset_build(views(ws@).take(i as int), xv);
        }
        i = i + 1;
    }
    assert(views(ws@).take(ws@.len() as int) =~= views(ws@));
    out
}

/// The script and sentence of each fuzzy index entry of the first `n`
/// sentences of a script: one per sorted variant.
pub open spec fn sentence_entries(name: Seq<char>, ss: Seq<String>, n: int) -> Seq<(Seq<char>, Seq<char>)>
    decreases n,
{
    if n <= 0 {
        seq![]
    } else {
        sentence_entries(name, ss, n - 1) + sentence_variants(ss[n - 1]@).map_values(
            |v: Seq<char>| (name, v),
        )
    }
}

/// The script and sentence of each fuzzy index entry of the first `n`
/// scripts.
pub open spec fn fuzzy_entries(scripts: Seq<NamedScript>, n: int) -> Seq<(Seq<char>, Seq<char>)>
    decreases n,
{
    if n <= 0 {
        seq![]
    } else {
        let sc = scripts[n - 1];
        fuzzy_entries(scripts, n - 1) + match sc.script.voice {
            Some(v) => sentence_entries(sc.name@, v.sentences@, v.sentences@.len() as int),
            None => seq![],
        }
    }
}

/// The script and sentence of fuzzy records.
pub open spec fn record_entries(v: Seq<FuzzyRecord>) -> Seq<(Seq<char>, Seq<char>)> {
    v.map_values(|r: FuzzyRecord| (r.script@, r.sentence@))
}

/// The signature of a sentence.
pub fn signature_of(sentence: &str) -> (r: String)
    ensures
        is_signature(r@, sentence@),
{
    let lower = to_lowercase(sentence);
    let ws = split_whitespace(lower.as_str());
    let sorted = sort_words(ws);
    let r = join_strings(&sorted, "|");
    assert(sorted_le(views(sorted@)) && views(sorted@).to_multiset() == words(lowercase(sentence@)).to_multiset()
        && r@ == join(views(sorted@), "|"@));
    r
}

/// The fuzzy index of the scripts that have a voice part: one entry per
/// sorted variant of each sentence, with its signature.
pub fn generate_fuzzy_index(scripts: &Vec<NamedScript>) -> (r: Vec<FuzzyRecord>)
    ensures
        record_entries(r@) == fuzzy_entries(scripts@, scripts@.len() as int),
        forall|i: int| 0 <= i < r@.len() ==> is_signature(#[trigger] r@[i].signature@, r@[i].sentence@),
{
    let mut out: Vec<FuzzyRecord> = Vec::new();
    let mut i: usize = 0;
    while i < scripts.len()
        invariant
            0 <= i <= scripts@.len(),
            record_entries(out@) == fuzzy_entries(scripts@, i as int),
            forall|q: int| 0 <= q < out@.len() ==> is_signature(#[trigger] out@[q].signature@, out@[q].sentence@),
        decreases scripts@.len() - i,
    {
        match &scripts[i].script.voice {
            Some(voice) => {
                let name = &scripts[i].name;
                let ghost base = record_entries(out@);
                let mut j: usize = 0;
                while j < voice.sentences.len()
                    invariant
                        0 <= j <= voice.sentences@.len(),
                        record_entries(out@) == base + sentence_entries(name@, voice.sentences@, j as int),
                        forall|q: int| 0 <= q < out@.len() ==> is_signature(#[trigger] out@[q].signature@, out@[q].sentence@),
                    decreases voice.sentences@.len() - j,
                {
                    let vs = sentence_variants_of(voice.sentences[j].as_str());
                    let ghost base2 = record_entries(out@);
                    let ghost vv = views(vs@);
                    let mut k: usize = 0;
                    while k < vs.len()
                        invariant
                            0 <= k <= vs@.len(),
                            vv == views(vs@),
                            record_entries(out@) == base2 + vv.take(k as int).map_values(|v: Seq<char>| (name@, v)),
                            forall|q: int| 0 <= q < out@.len() ==> is_signature(#[trigger] out@[q].signature@, out@[q].sentence@),
                        decreases vs@.len() - k,
                    {
                        let sig = signature_of(vs[k].as_str());
                        let ghost before = record_entries(out@);
                        out.push(FuzzyRecord { script: copy_string(name), sentence: copy_string(&vs[k]), signature: sig });
                        assert(record_entries(out@) =~= before.push((name@, vv[k as int])));
                        assert(vv.take(k + 1).map_values(|v: Seq<char>| (name@, v)) =~= vv.take(k as int).map_values(
                            |v: Seq<char>| (name@, v),
                        ).push((name@, vv[k as int])));
                        k = k + 1;
                    }
                    assert(vv.take(vs@.len() as int) =~= vv);
                    assert(record_entries(out@) =~= base + sentence_entries(name@, voice.sentences@, j + 1));
                    j = j + 1;
                }
            },
            None => {
                assert(record_entries(out@) =~= record_entries(out@) + seq![]);
            },
        }
        i = i + 1;
    }
    out
}

// ---------------------------------------------------------------------------
// Statistics
// ---------------------------------------------------------------------------

/// The number of compiled variants of the first `n` sentences.
pub open spec fn patterns_count(ss: Seq<String>, n: int) -> int
    decreases n,
{
    if n <= 0 {
        0
    } else {
        patterns_count(ss, n - 1) + sentence_variants(ss[n - 1]@).len()
    }
}

/// The number of sentence patterns a script generates.
pub open spec fn generated_patterns(script: Script) -> int {
    match script.voice {
        Some(v) => patterns_count(v.sentences@, v.sentences@.len() as int),
        None => 0,
    }
}

/// The number of values of a parameter's list (1 when the list or its
/// values are missing).
pub open spec fn list_size(lists: Option<Vec<NamedListSpec>>, name: Seq<char>) -> int {
    match lists {
        Some(ls) => match spec_list_pos(ls@, name) {
            Some(j) => match ls@[j].list.values {
                Some(vs) => vs@.len() as int,
                None => 1,
            },
            None => 1,
        },
        None => 1,
    }
}

/// The product of the list sizes of the first `n` names.
pub open spec fn names_product(lists: Option<Vec<NamedListSpec>>, names: Seq<Seq<char>>, n: int) -> int
    decreases n,
{
    if n <= 0 {
        1
    } else {
        names_product(lists, names, n - 1) * list_size(lists, names[n - 1])
    }
}

/// The phrases a variant stands for: 1 without parameters, else the
/// product of its parameters' list sizes.
pub open spec fn variant_phrases(lists: Option<Vec<NamedListSpec>>, v: Seq<char>) -> int {
    let names = param_names(v);
    if names.len() == 0 {
        1
    } else {
        names_product(lists, names, names.len() as int)
    }
}

/// The phrases of the first `n` variants.
pub open spec fn variants_phrases(lists: Option<Vec<NamedListSpec>>, vs: Seq<Seq<char>>, n: int) -> int
    decreases n,
{
    if n <= 0 {
        0
    } else {
        variants_phrases(lists, vs, n - 1) + variant_phrases(lists, vs[n - 1])
    }
}

/// The phrases of the first `n` sentences.
pub open spec fn sentences_phrases(lists: Option<Vec<NamedListSpec>>, ss: Seq<String>, n: int) -> int
    decreases n,
{
    if n <= 0 {
        0
    } else {
        let vs = sentence_variants(ss[n - 1]@);
        sentences_phrases(lists, ss, n - 1) + variants_phrases(lists, vs, vs.len() as int)
    }
}

/// The number of phrases a script understands.
pub open spec fn understood_phrases(script: Script) -> int {
    match script.voice {
        Some(v) => sentences_phrases(v.lists, v.sentences@, v.sentences@.len() as int),
        None => 0,
    }
}

/// Every running product of list sizes of every variant of a script fits
/// in a `usize`, and so does the number of phrases.
pub open spec fn phrases_fit(script: Script) -> bool {
    match script.voice {
        Some(v) => {
            &&& forall|j: int, k: int, m: int|
                0 <= j < v.sentences@.len() && 0 <= k < sentence_variants(v.sentences@[j]@).len()
                    && 0 <= m <= param_names(sentence_variants(v.sentences@[j]@)[k]).len() ==> #[trigger] names_product(
                    v.lists,
                    param_names(sentence_variants(v.sentences@[j]@)[k]),
                    m,
                ) <= usize::MAX
            &&& understood_phrases(script) <= usize::MAX
        },
        None => true,
    }
}

proof fn lemma_patterns_count_mono(ss: Seq<String>, a: int, b: int)
    requires
        0 <= a <= b,
    ensures
        0 <= patterns_count(ss, a) <= patterns_count(ss, b),
    decreases b,
{
    if b > a {
        lemma_patterns_count_mono(ss, a, b - 1);
    } else if a > 0 {
        lemma_patterns_count_mono(ss, a - 1, a - 1);
    }
}

/// The number of sentence patterns a script generates: the compiled
/// variants of all its sentences.
pub fn count_generated_patterns(script: &Script) -> (n: usize)
    requires
        generated_patterns(*script) <= usize::MAX,
    ensures
        n as int == generated_patterns(*script),
{
    match &script.voice {
        Some(voice) => {
            let mut total: usize = 0;
            let mut j: usize = 0;
            while j < voice.sentences.len()
                invariant
                    0 <= j <= voice.sentences@.len(),
                    patterns_count(voice.sentences@, voice.sentences@.len() as int) <= usize::MAX,
                    total as int == patterns_count(voice.sentences@, j as int),
                decreases voice.sentences@.len() - j,
            {
                let vs = sentence_variants_of(voice.sentences[j].as_str());
                proof {
                    lemma_patterns_count_mono(voice.sentences@, j + 1, voice.sentences@.len() as int);
                }
                total = total + vs.len();
                j = j + 1;
            }
            total
        },
        None => 0,
    }
}

proof fn lemma_names_product_nonneg(lists: Option<Vec<NamedListSpec>>, names: Seq<Seq<char>>, n: int)
    ensures
        names_product(lists, names, n) >= 0,
    decreases n,
{
    if n > 0 {
        lemma_names_product_nonneg(lists, names, n - 1);
        let a = names_product(lists, names, n - 1);
        let b = list_size(lists, names[n - 1]);
        assert(a * b >= 0) by (nonlinear_arith)
            requires
                a >= 0,
                b >= 0,
        ;
    }
}

proof fn lemma_variants_mono(lists: Option<Vec<NamedListSpec>>, vs: Seq<Seq<char>>, a: int, b: int)
    requires
        0 <= a <= b,
    ensures
        0 <= variants_phrases(lists, vs, a) <= variants_phrases(lists, vs, b),
    decreases b,
{
    if b > a {
        lemma_variants_mono(lists, vs, a, b - 1);
        let names = param_names(vs[b - 1]);
        lemma_names_product_nonneg(lists, names, names.len() as int);
    } else if a > 0 {
        lemma_variants_mono(lists, vs, a - 1, a - 1);
        let names = param_names(vs[a - 1]);
        lemma_names_product_nonneg(lists, names, names.len() as int);
    }
}

proof fn lemma_sentences_mono(lists: Option<Vec<NamedListSpec>>, ss: Seq<String>, a: int, b: int)
    requires
        0 <= a <= b,
    ensures
        0 <= sentences_phrases(lists, ss, a) <= sentences_phrases(lists, ss, b),
    decreases b,
{
    if b > a {
        lemma_sentences_mono(lists, ss, a, b - 1);
        let vs = sentence_variants(ss[b - 1]@);
        lemma_variants_mono(lists, vs, 0, vs.len() as int);
    } else if a > 0 {
        lemma_sentences_mono(lists, ss, a - 1, a - 1);
        let vs = sentence_variants(ss[a - 1]@);
        lemma_variants_mono(lists, vs, 0, vs.len() as int);
    }
}

/// The size of a parameter's list.
fn list_size_of(lists: &Option<Vec<NamedListSpec>>, name: &str) -> (n: usize)
    ensures
        n as int == list_size(*lists, name@),
{
    match lists {
        Some(ls) => match find_list_spec(ls, name) {
            Some(j) => match &ls[j].list.values {
                Some(vs) => vs.len(),
                None => 1,
            },
            None => 1,
        },
        None => 1,
    }
}

/// The number of phrases a script understands: for each compiled variant
/// of each sentence, 1 when it has no parameter, otherwise the product of
/// the sizes of its parameters' lists (a parameter without a list counts 1).
pub fn count_understood_phrases(script: &Script) -> (n: usize)
    requires
        phrases_fit(*script),
    ensures
        n as int == understood_phrases(*script),
{
    let voice = match &script.voice {
        Some(v) => v,
        None => return 0,
    };
    let ghost lists = voice.lists;
    let mut total: usize = 0;
    let mut j: usize = 0;
    while j < voice.sentences.len()
        invariant
            0 <= j <= voice.sentences@.len(),
            script.voice == Some(*voice),
            phrases_fit(*script),
            total as int == sentences_phrases(voice.lists, voice.sentences@, j as int),
        decreases voice.sentences@.len() - j,
    {
        let vs = sentence_variants_of(voice.sentences[j].as_str());
        let ghost vv = views(vs@);
        let ghost base = total as int;
        proof {
            lemma_sentences_mono(voice.lists, voice.sentences@, j + 1, voice.sentences@.len() as int);
        }
        let mut k: usize = 0;
        while k < vs.len()
            invariant
                0 <= k <= vs@.len(),
                j < voice.sentences@.len(),
                vv == views(vs@),
                vv == sentence_variants(voice.sentences@[j as int]@),
                script.voice == Some(*voice),
                phrases_fit(*script),
                base + variants_phrases(voice.lists, vv, vv.len() as int) <= usize::MAX,
                total as int == base + variants_phrases(voice.lists, vv, k as int),
            decreases vs@.len() - k,
        {
            let names = extract_param_names(vs[k].as_str());
            let ghost nv = views(names@);
            assert(vv[k as int] == vs@[k as int]@);
            proof {
                lemma_variants_mono(voice.lists, vv, k + 1, vv.len() as int);
            }
            if names.len() == 0 {
                total = total + 1;
            } else {
                let mut product: usize = 1;
                let mut m: usize = 0;
                while m < names.len()
                    invariant
                        0 <= m <= names@.len(),
                        nv == views(names@),
                        nv == param_names(vv[k as int]),
                        j < voice.sentences@.len(),
                        k < vv.len(),
                        vv == sentence_variants(voice.sentences@[j as int]@),
                        script.voice == Some(*voice),
                        phrases_fit(*script),
                        product as int == names_product(voice.lists, nv, m as int),
                    decreases names@.len() - m,
                {
                    let sz = list_size_of(&voice.lists, names[m].as_str());
                    assert(nv[m as int] == names@[m as int]@);
                    assert(names_product(voice.lists, param_names(sentence_variants(voice.sentences@[j as int]@)[k as int]), m + 1) <= usize::MAX);
                    product = product * sz;
                    m = m + 1;
                }
                total = total + product;
            }
            k = k + 1;
        }
        j = j + 1;
    }
    total
}

/// The number of sentence patterns all scripts generate.
pub open spec fn total_patterns(scripts: Seq<NamedScript>, n: int) -> int
    decreases n,
{
    if n <= 0 {
        0
    } else {
        total_patterns(scripts, n - 1) + generated_patterns(scripts[n - 1].script)
    }
}

/// The number of phrases all scripts understand.
pub open spec fn total_phrases(scripts: Seq<NamedScript>, n: int) -> int
    decreases n,
{
    if n <= 0 {
        0
    } else {
        total_phrases(scripts, n - 1) + understood_phrases(scripts[n - 1].script)
    }
}

proof fn lemma_total_patterns_mono(scripts: Seq<NamedScript>, a: int, b: int)
    requires
        0 <= a <= b,
    ensures
        0 <= total_patterns(scripts, a) <= total_patterns(scripts, b),
    decreases b,
{
    if b > a {
        lemma_total_patterns_mono(scripts, a, b - 1);
        match scripts[b - 1].script.voice {
            Some(v) => lemma_patterns_count_mono(v.sentences@, 0, v.sentences@.len() as int),
            None => {},
        }
    } else if a > 0 {
        lemma_total_patterns_mono(scripts, a - 1, a - 1);
        match scripts[a - 1].script.voice {
            Some(v) => lemma_patterns_count_mono(v.sentences@, 0, v.sentences@.len() as int),
            None => {},
        }
    }
}

proof fn lemma_total_phrases_mono(scripts: Seq<NamedScript>, a: int, b: int)
    requires
        0 <= a <= b,
    ensures
        0 <= total_phrases(scripts, a) <= total_phrases(scripts, b),
    decreases b,
{
    if b > a {
        lemma_total_phrases_mono(scripts, a, b - 1);
        match scripts[b - 1].script.voice {
            Some(v) => lemma_sentences_mono(v.lists, v.sentences@, 0, v.sentences@.len() as int),
            None => {},
        }
    } else if a > 0 {
        lemma_total_phrases_mono(scripts, a - 1, a - 1);
        match scripts[a - 1].script.voice {
            Some(v) => lemma_sentences_mono(v.lists, v.sentences@, 0, v.sentences@.len() as int),
            None => {},
        }
    }
}

/// The number of sentence patterns all scripts generate.
pub fn count_total_generated_patterns(scripts: &Vec<NamedScript>) -> (n: usize)
    requires
        total_patterns(scripts@, scripts@.len() as int) <= usize::MAX,
    ensures
        n as int == total_patterns(scripts@, scripts@.len() as int),
{
    let mut total: usize = 0;
    let mut i: usize = 0;
    while i < scripts.len()
        invariant
            0 <= i <= scripts@.len(),
            total_patterns(scripts@, scripts@.len() as int) <= usize::MAX,
            total as int == total_patterns(scripts@, i as int),
        decreases scripts@.len() - i,
    {
        proof {
            lemma_total_patterns_mono(scripts@, i + 1, scripts@.len() as int);
        }
        let c = count_generated_patterns(&scripts[i].script);
        total = total + c;
        i = i + 1;
    }
    total
}

/// The number of phrases all scripts understand.
pub fn count_total_understood_phrases(scripts: &Vec<NamedScript>) -> (n: usize)
    requires
        forall|i: int| 0 <= i < scripts@.len() ==> phrases_fit(#[trigger] scripts@[i].script),
        total_phrases(scripts@, scripts@.len() as int) <= usize::MAX,
    ensures
        n as int == total_phrases(scripts@, scripts@.len() as int),
{
    let mut total: usize = 0;
    let mut i: usize = 0;
    while i < scripts.len()
        invariant
            0 <= i <= scripts@.len(),
            forall|q: int| 0 <= q < scripts@.len() ==> phrases_fit(#[trigger] scripts@[q].script),
            total_phrases(scripts@, scripts@.len() as int) <= usize::MAX,
            total as int == total_phrases(scripts@, i as int),
        decreases scripts@.len() - i,
    {
        proof {
            lemma_total_phrases_mono(scripts@, i + 1, scripts@.len() as int);
        }
        let c = count_understood_phrases(&scripts[i].script);
        total = total + c;
        i = i + 1;
    }
    total
}


// ---------------------------------------------------------------------------
// Checked statistics
// ---------------------------------------------------------------------------

/// Every running product of the list sizes of a variant's parameters fits
/// in a `usize`.
pub open spec fn variant_fits(lists: Option<Vec<NamedListSpec>>, v: Seq<char>) -> bool {
    forall|m: int| 0 <= m <= param_names(v).len() ==> #[trigger] names_product(lists, param_names(v), m) <= usize::MAX
}

/// The phrases of a variant, or `None` when a running product of its list
/// sizes does not fit in a `usize`.
fn checked_variant_phrases(lists: &Option<Vec<NamedListSpec>>, v: &str) -> (r: Option<usize>)
    ensures
        r is Some <==> variant_fits(*lists, v@),
        r matches Some(p) ==> p as int == variant_phrases(*lists, v@),
{
    let names = extract_param_names(v);
    let ghost nv = views(names@);
    let mut product: usize = 1;
    let mut m: usize = 0;
    while m < names.len()
        invariant
            0 <= m <= names@.len(),
            nv == views(names@),
            nv == param_names(v@),
            product as int == names_product(*lists, nv, m as int),
            forall|q: int| 0 <= q <= m ==> #[trigger] names_product(*lists, nv, q) <= usize::MAX,
        decreases names@.len() - m,
    {
        let sz = list_size_of(lists, names[m].as_str());
        assert(nv[m as int] == names@[m as int]@);
        match product.checked_mul(sz) {
            Some(p) => {
                product = p;
                m = m + 1;
            },
            None => {
                assert(names_product(*lists, nv, m + 1) > usize::MAX);
                return None;
            },
        }
    }
    if names.len() == 0 {
        Some(1)
    } else {
        Some(product)
    }
}

/// Whether a script's phrases, and every running product of list sizes on
/// the way, fit in a `usize`.
pub fn phrases_fit_check(script: &Script) -> (b: bool)
    ensures
        b == phrases_fit(*script),
{
    let voice = match &script.voice {
        Some(v) => v,
        None => return true,
    };
    let ghost lists = voice.lists;
    let ghost ss = voice.sentences@;
    let mut total: usize = 0;
    let mut j: usize = 0;
    while j < voice.sentences.len()
        invariant
            0 <= j <= ss.len(),
            ss == voice.sentences@,
            lists == voice.lists,
            script.voice == Some(*voice),
            total as int == sentences_phrases(lists, ss, j as int),
            forall|a: int, c: int|
                0 <= a < j && 0 <= c < sentence_variants(ss[a]@).len() ==> variant_fits(
                    lists,
                    #[trigger] sentence_variants(ss[a]@)[c],
                ),
        decreases ss.len() - j,
    {
        let vs = sentence_variants_of(voice.sentences[j].as_str());
        let ghost vv = views(vs@);
        let ghost base = total as int;
        let mut k: usize = 0;
        while k < vs.len()
            invariant
                0 <= k <= vs@.len(),
                j < ss.len(),
                ss == voice.sentences@,
                lists == voice.lists,
                script.voice == Some(*voice),
                vv == views(vs@),
                vv == sentence_variants(ss[j as int]@),
                base == sentences_phrases(lists, ss, j as int),
                total as int == base + variants_phrases(lists, vv, k as int),
                forall|a: int, c: int|
                    0 <= a < j && 0 <= c < sentence_variants(ss[a]@).len() ==> variant_fits(
                        lists,
                        #[trigger] sentence_variants(ss[a]@)[c],
                    ),
                forall|c: int| 0 <= c < k ==> variant_fits(lists, #[trigger] vv[c]),
            decreases vs@.len() - k,
        {
            assert(vv[k as int] == vs@[k as int]@);
            match checked_variant_phrases(&voice.lists, vs[k].as_str()) {
                None => {
                    proof {
                        let w = choose|m: int|
                            0 <= m <= param_names(vv[k as int]).len() && names_product(
                                lists,
                                param_names(vv[k as int]),
                                m,
                            ) > usize::MAX;
                        assert(names_product(
                            lists,
                            param_names(sentence_variants(ss[j as int]@)[k as int]),
                            w,
                        ) > usize::MAX);
                    }
                    return false;
                },
                Some(p) => match total.checked_add(p) {
                    Some(t) => {
                        total = t;
                        k = k + 1;
                    },
                    None => {
                        proof {
                            lemma_variants_mono(lists, vv, k + 1, vv.len() as int);
                            lemma_sentences_mono(lists, ss, j + 1, ss.len() as int);
                        }
                        return false;
                    },
                },
            }
        }
        assert(sentences_phrases(lists, ss, j + 1) == base + variants_phrases(lists, vv, vv.len() as int));
        j = j + 1;
    }
    proof {
        assert forall|a: int, c: int, m: int|
            0 <= a < ss.len() && 0 <= c < sentence_variants(ss[a]@).len() && 0 <= m <= param_names(
                sentence_variants(ss[a]@)[c],
            ).len() implies #[trigger] names_product(
            lists,
            param_names(sentence_variants(ss[a]@)[c]),
            m,
        ) <= usize::MAX by {
            assert(variant_fits(lists, sentence_variants(ss[a]@)[c]));
        }
    }
    true
}

/// The sentence patterns all scripts generate and the phrases they
/// understand are countable without overflow.
pub open spec fn counts_fit(scripts: Seq<NamedScript>) -> bool {
    &&& total_patterns(scripts, scripts.len() as int) <= usize::MAX
    &&& forall|i: int| 0 <= i < scripts.len() ==> phrases_fit(#[trigger] scripts[i].script)
    &&& total_phrases(scripts, scripts.len() as int) <= usize::MAX
}

/// Whether the sentence patterns of all scripts can be counted in a
/// `usize`.
fn patterns_fit_check(scripts: &Vec<NamedScript>) -> (b: bool)
    ensures
        b == (total_patterns(scripts@, scripts@.len() as int) <= usize::MAX),
{
    let mut total: usize = 0;
    let mut i: usize = 0;
    while i < scripts.len()
        invariant
            0 <= i <= scripts@.len(),
            total as int == total_patterns(scripts@, i as int),
        decreases scripts@.len() - i,
    {
        match &scripts[i].script.voice {
            Some(voice) => {
                let ghost base = total as int;
                let mut j: usize = 0;
                while j < voice.sentences.len()
                    invariant
                        0 <= j <= voice.sentences@.len(),
                        i < scripts@.len(),
                        scripts@[i as int].script.voice == Some(*voice),
                        base == total_patterns(scripts@, i as int),
                        total as int == base + patterns_count(voice.sentences@, j as int),
                    decreases voice.sentences@.len() - j,
                {
                    let vs = sentence_variants_of(voice.sentences[j].as_str());
                    match total.checked_add(vs.len()) {
                        Some(t) => {
                            total = t;
                            j = j + 1;
                        },
                        None => {
                            proof {
                                lemma_patterns_count_mono(voice.sentences@, j + 1, voice.sentences@.len() as int);
                                lemma_total_patterns_mono(scripts@, i + 1, scripts@.len() as int);
                            }
                            return false;
                        },
                    }
                }
            },
            None => {},
        }
        i = i + 1;
    }
    true
}

/// The numbers of sentence patterns and of understood phrases of all
/// scripts, or `None` when they cannot be counted in a `usize`.
pub fn compile_counts(scripts: &Vec<NamedScript>) -> (r: Option<(usize, usize)>)
    ensures
        r is Some <==> counts_fit(scripts@),
        r matches Some((p, q)) ==> p as int == total_patterns(scripts@, scripts@.len() as int) && q as int
            == total_phrases(scripts@, scripts@.len() as int),
{
    if !patterns_fit_check(scripts) {
        return None;
    }
    let mut total: usize = 0;
    let mut i: usize = 0;
    while i < scripts.len()
        invariant
            0 <= i <= scripts@.len(),
            total_patterns(scripts@, scripts@.len() as int) <= usize::MAX,
            forall|q: int| 0 <= q < i ==> phrases_fit(#[trigger] scripts@[q].script),
            total as int == total_phrases(scripts@, i as int),
        decreases scripts@.len() - i,
    {
        if !phrases_fit_check(&scripts[i].script) {
            return None;
        }
        let c = count_understood_phrases(&scripts[i].script);
        match total.checked_add(c) {
            Some(t) => {
                total = t;
                i = i + 1;
            },
            None => {
                proof {
                    lemma_total_phrases_mono(scripts@, i + 1, scripts@.len() as int);
                }
                return None;
            },
        }
    }
    let p = count_total_generated_patterns(scripts);
    let q = count_total_understood_phrases(scripts);
    Some((p, q))
}

} // verus!
