//! The order in which scripts are tried: by priority (the configured one,
//! lower first, lowered by recent use, by being the last action and by
//! confirmed matches), then
//! scripts without bracketed or parameterized sentences, then by name.
use vstd::prelude::*;
use crate::intent::{NamedIntent, ScriptPriority};
use crate::matcher::YoDo;
use crate::memory::{ConfirmedMatch, RecentCommand};
use crate::text::{
    chars_of, copy_string, lemma_lex_irreflexive, lemma_lex_total, lemma_lex_transitive, lex_less,
    lex_lt, occurs_at, occurs_at_chars, str_eq,
};

verus! {

/// The ranking key of a script: priority, whether it has complex
/// sentences, name.
pub type PrioKey = (int, bool, Seq<char>);

/// Strict order of ranking keys: lower priority first, then scripts
/// without complex sentences, then by name.
pub open spec fn key_lt(a: PrioKey, b: PrioKey) -> bool {
    a.0 < b.0 || (a.0 == b.0 && ((!a.1 && b.1) || (a.1 == b.1 && lex_lt(a.2, b.2))))
}

/// The key order is transitive.
pub proof fn lemma_key_lt_transitive(a: PrioKey, b: PrioKey, c: PrioKey)
    requires
        key_lt(a, b),
        key_lt(b, c),
    ensures
        key_lt(a, c),
{
    if a.0 == b.0 && b.0 == c.0 && a.1 == b.1 && b.1 == c.1 {
        lemma_lex_transitive(a.2, b.2, c.2);
    }
}

/// Keys with different names are ordered one way or the other, and no key
/// is below itself.
pub proof fn lemma_key_lt_total(a: PrioKey, b: PrioKey)
    ensures
        a.2 != b.2 ==> key_lt(a, b) || key_lt(b, a),
        !key_lt(a, a),
{
    lemma_lex_irreflexive(a.2);
    if a.2 != b.2 {
        lemma_lex_total(a.2, b.2);
    }
}

/// How many of the first `n` recent commands ran the script.
pub open spec fn uses_of(cmds: Seq<RecentCommand>, name: Seq<char>, n: int) -> int
    decreases n,
{
    if n <= 0 {
        0
    } else {
        uses_of(cmds, name, n - 1) + if cmds[n - 1].script@ == name {
            1int
        } else {
            0int
        }
    }
}

/// How many of the first `n` confirmed matches are keyed `name:...`.
pub open spec fn confirms_of(ms: Seq<ConfirmedMatch>, name: Seq<char>, n: int) -> int
    decreases n,
{
    if n <= 0 {
        0
    } else {
        confirms_of(ms, name, n - 1) + if occurs_at(ms[n - 1].key@, 0, name + seq![':']) {
            1int
        } else {
            0int
        }
    }
}

/// The priority of a script: its configured priority, minus one per
/// recent use, minus two when it was the last action, minus one per
/// confirmed match; never below 0.
pub open spec fn priority_of(y: YoDo, it: NamedIntent) -> int {
    let name = it.name@;
    let cmds = y.memory_data.history.recent_commands@;
    let ms = y.memory_data.history.confirmed_matches@;
    let p = it.intent.priority - uses_of(cmds, name, cmds.len() as int) - (if y.memory_data.context.last_action@
        == name {
        2int
    } else {
        0int
    }) - confirms_of(ms, name, ms.len() as int);
    if p < 0 {
        0
    } else {
        p
    }
}

/// Recent commands that ran the script named `name`.
pub open spec fn ran(name: Seq<char>) -> spec_fn(RecentCommand) -> bool {
    |c: RecentCommand| c.script@ == name
}

/// Confirmed matches whose key starts with `name:`.
pub open spec fn confirms_script(name: Seq<char>) -> spec_fn(ConfirmedMatch) -> bool {
    |m: ConfirmedMatch| name.len() + 1 <= m.key@.len() && m.key@.take(name.len() + 1 as int) == name.push(':')
}

/// The rank a script is given: its configured priority, lowered by one for
/// each recent command that ran it, by two when it was the last action and
/// by one for each confirmed match keyed by it, but not below 0; then
/// whether it has complex sentences, then its name.
pub open spec fn ranked_as(y: YoDo, p: ScriptPriority, it: NamedIntent) -> bool {
    let name = it.name@;
    let raw = it.intent.priority - y.memory_data.history.recent_commands@.filter(ran(name)).len() - (if y.memory_data.context.last_action@
        == name {
        2int
    } else {
        0int
    }) - y.memory_data.history.confirmed_matches@.filter(confirms_script(name)).len();
    &&& p.name@ == name
    &&& p.priority as int == (if raw < 0 {
        0
    } else {
        raw
    })
    &&& p.has_complex_patterns == has_complex(it.intent.sentences@)
}

proof fn lemma_uses_count(cmds: Seq<RecentCommand>, name: Seq<char>, n: int)
    requires
        0 <= n <= cmds.len(),
    ensures
        uses_of(cmds, name, n) == cmds.take(n).filter(ran(name)).len(),
    decreases n,
{
    if n == 0 {
        assert(cmds.take(0) =~= Seq::<RecentCommand>::empty());
        reveal(Seq::filter);
    } else {
        lemma_uses_count(cmds, name, n - 1);
        assert(cmds.take(n) =~= cmds.take(n - 1).push(cmds[n - 1]));
        cmds.take(n - 1).lemma_filter_len_push(ran(name), cmds[n - 1]);
    }
}

proof fn lemma_confirms_count(ms: Seq<ConfirmedMatch>, name: Seq<char>, n: int)
    requires
        0 <= n <= ms.len(),
    ensures
        confirms_of(ms, name, n) == ms.take(n).filter(confirms_script(name)).len(),
    decreases n,
{
    if n == 0 {
        assert(ms.take(0) =~= Seq::<ConfirmedMatch>::empty());
        reveal(Seq::filter);
    } else {
        lemma_confirms_count(ms, name, n - 1);
        assert(ms.take(n) =~= ms.take(n - 1).push(ms[n - 1]));
        ms.take(n - 1).lemma_filter_len_push(confirms_script(name), ms[n - 1]);
        let k = ms[n - 1].key@;
        if name.len() + 1 <= k.len() {
            assert(k.subrange(0, name.len() + 1 as int) =~= k.take(name.len() + 1 as int));
            assert(name + seq![':'] =~= name.push(':'));
        }
    }
}

/// The key of an intent is the rank it is given.
proof fn lemma_key_is_rank(y: YoDo, p: ScriptPriority, it: NamedIntent)
    requires
        (p.priority as int, p.has_complex_patterns, p.name@) == intent_key(y, it),
    ensures
        ranked_as(y, p, it),
{
    let cmds = y.memory_data.history.recent_commands@;
    let ms = y.memory_data.history.confirmed_matches@;
    lemma_uses_count(cmds, it.name@, cmds.len() as int);
    lemma_confirms_count(ms, it.name@, ms.len() as int);
    assert(cmds.take(cmds.len() as int) =~= cmds);
    assert(ms.take(ms.len() as int) =~= ms);
}

/// Some intent of the list gives the entry its rank.
pub open spec fn rank_from(y: YoDo, p: ScriptPriority, data: Seq<NamedIntent>) -> bool {
    exists|i: int| 0 <= i < data.len() && #[trigger] ranked_as(y, p, data[i])
}

/// Some entry of the order has the intent's rank.
pub open spec fn rank_listed(y: YoDo, it: NamedIntent, order: Seq<ScriptPriority>) -> bool {
    exists|k: int| 0 <= k < order.len() && #[trigger] ranked_as(y, order[k], it)
}

/// A ranked order holds every intent, each with the rank it is given:
/// priorities lowered by recent use, the last action and confirmations.
pub proof fn lemma_order_ranks(y: YoDo, order: Seq<ScriptPriority>)
    requires
        order_keys(order).to_set() == y.intent_data@.map_values(|it: NamedIntent| intent_key(y, it)).to_set(),
    ensures
        forall|k: int| 0 <= k < order.len() ==> rank_from(y, #[trigger] order[k], y.intent_data@),
        forall|i: int| 0 <= i < y.intent_data@.len() ==> rank_listed(y, #[trigger] y.intent_data@[i], order),
{
    let keys = y.intent_data@.map_values(|it: NamedIntent| intent_key(y, it));
    let ok = order_keys(order);
    assert forall|k: int| 0 <= k < order.len() implies rank_from(y, #[trigger] order[k], y.intent_data@) by {
        assert(ok[k] == (order[k].priority as int, order[k].has_complex_patterns, order[k].name@));
        assert(ok.contains(ok[k]));
        assert(keys.to_set().contains(ok[k]));
        let i = choose|i: int| 0 <= i < keys.len() && keys[i] == ok[k];
        lemma_key_is_rank(y, order[k], y.intent_data@[i]);
        assert(ranked_as(y, order[k], y.intent_data@[i]));
    }
    assert forall|i: int| 0 <= i < y.intent_data@.len() implies rank_listed(y, #[trigger] y.intent_data@[i], order) by {
        assert(keys[i] == intent_key(y, y.intent_data@[i]));
        assert(keys.contains(keys[i]));
        assert(ok.to_set().contains(keys[i]));
        let k = choose|k: int| 0 <= k < ok.len() && ok[k] == keys[i];
        assert(ok[k] == (order[k].priority as int, order[k].has_complex_patterns, order[k].name@));
        lemma_key_is_rank(y, order[k], y.intent_data@[i]);
        assert(ranked_as(y, order[k], y.intent_data@[i]));
    }
}

/// A sentence with a parameter, an optional part or a group.
pub open spec fn complex_sentence(s: Seq<char>) -> bool {
    s.contains('{') || s.contains('[') || s.contains('(')
}

/// Some sentence is complex.
pub open spec fn has_complex(ss: Seq<String>) -> bool {
    exists|k: int| 0 <= k < ss.len() && complex_sentence(#[trigger] ss[k]@)
}

/// The ranking key of an intent.
pub open spec fn intent_key(y: YoDo, it: NamedIntent) -> PrioKey {
    (priority_of(y, it), has_complex(it.intent.sentences@), it.name@)
}

/// The keys of a processing order.
pub open spec fn order_keys(v: Seq<ScriptPriority>) -> Seq<PrioKey> {
    v.map_values(|p: ScriptPriority| (p.priority as int, p.has_complex_patterns, p.name@))
}

/// Keys in strictly increasing order.
pub open spec fn strictly_ordered(k: Seq<PrioKey>) -> bool {
    forall|i: int, j: int| 0 <= i < j < k.len() ==> key_lt(#[trigger] k[i], #[trigger] k[j])
}

/// No two intents share a name (they come from a map keyed by name).
pub open spec fn names_distinct(v: Seq<NamedIntent>) -> bool {
    forall|i: int, j: int| 0 <= i < j < v.len() ==> (#[trigger] v[i]).name@ != (#[trigger] v[j]).name@
}

/// Two matchers that differ at most in their processing order.
pub open spec fn same_but_order(a: YoDo, b: YoDo) -> bool {
    &&& a.intent_data == b.intent_data
    &&& a.fuzzy_index == b.fuzzy_index
    &&& a.fuzzy_entity_dict == b.fuzzy_entity_dict
    &&& a.compiled_patterns == b.compiled_patterns
    &&& a.fuzzy_threshold == b.fuzzy_threshold
    &&& a.debug == b.debug
    &&& a.memory_data == b.memory_data
    &&& a.split_words == b.split_words
    &&& a.sorry_phrases == b.sorry_phrases
}

fn key_less(a: &ScriptPriority, b: &ScriptPriority) -> (r: bool)
    ensures
        r == key_lt(
            (a.priority as int, a.has_complex_patterns, a.name@),
            (b.priority as int, b.has_complex_patterns, b.name@),
        ),
{
    if a.priority != b.priority {
        return a.priority < b.priority;
    }
    if a.has_complex_patterns != b.has_complex_patterns {
        return !a.has_complex_patterns;
    }
    let an = chars_of(a.name.as_str());
    let bn = chars_of(b.name.as_str());
    lex_less(an.as_slice(), bn.as_slice())
}

/// Inserts a script into an ordered list at its place.
fn insert_ordered(v: &mut Vec<ScriptPriority>, e: ScriptPriority)
    requires
        strictly_ordered(order_keys(old(v)@)),
        forall|k: int| 0 <= k < old(v)@.len() ==> (#[trigger] old(v)@[k]).name@ != e.name@,
    ensures
        strictly_ordered(order_keys(final(v)@)),
        order_keys(final(v)@).to_set() == order_keys(old(v)@).to_set().insert(
            (e.priority as int, e.has_complex_patterns, e.name@),
        ),
        final(v)@.len() == old(v)@.len() + 1,
{
    let ghost ke = (e.priority as int, e.has_complex_patterns, e.name@);
    let ghost ks = order_keys(v@);
    let mut pos: usize = 0;
    while pos < v.len()
        invariant
            0 <= pos <= v@.len(),
            ks == order_keys(v@),
            ke == (e.priority as int, e.has_complex_patterns, e.name@),
            strictly_ordered(ks),
            forall|k: int| 0 <= k < v@.len() ==> (#[trigger] v@[k]).name@ != e.name@,
            forall|k: int| 0 <= k < pos ==> key_lt(#[trigger] ks[k], ke),
        ensures
            0 <= pos <= v@.len(),
            forall|k: int| 0 <= k < pos ==> key_lt(#[trigger] ks[k], ke),
            pos < v@.len() ==> key_lt(ke, ks[pos as int]),
        decreases v@.len() - pos,
    {
        assert(ks[pos as int] == (v@[pos as int].priority as int, v@[pos as int].has_complex_patterns, v@[pos as int].name@));
        if key_less(&e, &v[pos]) {
            break;
        }
        proof {
            lemma_key_lt_total(ks[pos as int], ke);
            assert(ks[pos as int].2 == v@[pos as int].name@);
        }
        pos = pos + 1;
    }
    proof {
        assert forall|k: int| pos <= k < ks.len() implies key_lt(ke, #[trigger] ks[k]) by {
            if k > pos {
                assert(key_lt(ks[pos as int], ks[k]));
                lemma_key_lt_transitive(ke, ks[pos as int], ks[k]);
            }
        }
    }
    v.insert(pos, e);
    proof {
        let nk = order_keys(v@);
        assert(nk =~= ks.insert(pos as int, ke));
        assert forall|i: int, j: int| 0 <= i < j < nk.len() implies key_lt(
            #[trigger] nk[i],
            #[trigger] nk[j],
        ) by {
            if j < pos {
                assert(key_lt(ks[i], ks[j]));
            } else if j == pos {
            } else if i < pos {
                assert(key_lt(ks[i], ke));
                lemma_key_lt_transitive(ks[i], ke, ks[j - 1]);
            } else if i == pos {
            } else {
                assert(key_lt(ks[i - 1], ks[j - 1]));
            }
        }
        assert forall|x: PrioKey| #[trigger] nk.contains(x) <==> ks.contains(x) || x == ke by {
            if nk.contains(x) {
                let i = choose|i: int| 0 <= i < nk.len() && nk[i] == x;
                if i < pos {
                    assert(ks[i] == x);
                } else if i > pos {
                    assert(ks[i - 1] == x);
                }
            }
            if ks.contains(x) {
                let i = choose|i: int| 0 <= i < ks.len() && ks[i] == x;
                if i < pos {
                    assert(nk[i] == x);
                } else {
                    assert(nk[i + 1] == x);
                }
            }
            if x == ke {
                assert(nk[pos as int] == x);
            }
        }
        assert(nk.to_set() =~= ks.to_set().insert(ke));
    }
}

impl YoDo {
    /// How often the recent commands ran a script.
    fn count_uses(&self, name: &str) -> (n: usize)
        ensures
            n as int == uses_of(
                self.memory_data.history.recent_commands@,
                name@,
                self.memory_data.history.recent_commands@.len() as int,
            ),
            n <= self.memory_data.history.recent_commands@.len(),
    {
        let cmds = &self.memory_data.history.recent_commands;
        let mut n: usize = 0;
        let mut i: usize = 0;
        while i < cmds.len()
            invariant
                0 <= i <= cmds@.len(),
                n as int == uses_of(cmds@, name@, i as int),
                n <= i,
                cmds@ == self.memory_data.history.recent_commands@,
            decreases cmds@.len() - i,
        {
            if str_eq(cmds[i].script.as_str(), name) {
                n = n + 1;
            }
            i = i + 1;
        }
        n
    }

    /// How many confirmed matches are keyed `name:...`.
    fn count_confirms(&self, name: &str) -> (n: usize)
        ensures
            n as int == confirms_of(
                self.memory_data.history.confirmed_matches@,
                name@,
                self.memory_data.history.confirmed_matches@.len() as int,
            ),
            n <= self.memory_data.history.confirmed_matches@.len(),
    {
        let ms = &self.memory_data.history.confirmed_matches;
        let mut prefix = chars_of(name);
        prefix.push(':');
        let mut n: usize = 0;
        let mut i: usize = 0;
        while i < ms.len()
            invariant
                0 <= i <= ms@.len(),
                prefix@ == name@ + seq![':'],
                n as int == confirms_of(ms@, name@, i as int),
                n <= i,
                ms@ == self.memory_data.history.confirmed_matches@,
            decreases ms@.len() - i,
        {
            let kc = chars_of(ms[i].key.as_str());
            if occurs_at_chars(kc.as_slice(), 0, prefix.as_slice()) {
                n = n + 1;
            }
            i = i + 1;
        }
        n
    }

    /// Whether some sentence of an intent is complex.
    fn intent_is_complex(sentences: &Vec<String>) -> (b: bool)
        ensures
            b == has_complex(sentences@),
    {
        let mut k: usize = 0;
        while k < sentences.len()
            invariant
                0 <= k <= sentences@.len(),
                forall|m: int| 0 <= m < k ==> !complex_sentence(#[trigger] sentences@[m]@),
            decreases sentences@.len() - k,
        {
            let cs = chars_of(sentences[k].as_str());
            let mut hit = false;
            let mut q: usize = 0;
            while q < cs.len()
                invariant
                    0 <= q <= cs@.len(),
                    hit ==> complex_sentence(cs@),
                    !hit ==> forall|m: int| 0 <= m < q ==> cs@[m] != '{' && cs@[m] != '[' && cs@[m] != '(',
                decreases cs@.len() - q,
            {
                if cs[q] == '{' || cs[q] == '[' || cs[q] == '(' {
                    hit = true;
                }
                q = q + 1;
            }
            if hit {
                assert(complex_sentence(sentences@[k as int]@));
                return true;
            }
            k = k + 1;
        }
        false
    }

    /// Ranks every intent and stores the scripts in the order in which they
    /// are tried.
    pub fn calculate_processing_order(&mut self)
        requires
            names_distinct(old(self).intent_data@),
            old(self).memory_data.history.recent_commands@.len()
                + old(self).memory_data.history.confirmed_matches@.len() <= i32::MAX,
        ensures
            same_but_order(*old(self), *final(self)),
            final(self).processing_order@.len() == old(self).intent_data@.len(),
            strictly_ordered(order_keys(final(self).processing_order@)),
            order_keys(final(self).processing_order@).to_set() == old(self).intent_data@.map_values(
                |it: NamedIntent| intent_key(*old(self), it),
            ).to_set(),
            forall|k: int|
                0 <= k < final(self).processing_order@.len() ==> rank_from(
                    *old(self),
                    #[trigger] final(self).processing_order@[k],
                    old(self).intent_data@,
                ),
            forall|i: int|
                0 <= i < old(self).intent_data@.len() ==> rank_listed(
                    *old(self),
                    #[trigger] old(self).intent_data@[i],
                    final(self).processing_order@,
                ),
    {
        let ghost all_keys = self.intent_data@.map_values(|it: NamedIntent| intent_key(*self, it));
        let mut order: Vec<ScriptPriority> = Vec::new();
        let mut i: usize = 0;
        while i < self.intent_data.len()
            invariant
                0 <= i <= self.intent_data@.len(),
                names_distinct(self.intent_data@),
                self.memory_data.history.recent_commands@.len()
                    + self.memory_data.history.confirmed_matches@.len() <= i32::MAX,
                all_keys == self.intent_data@.map_values(|it: NamedIntent| intent_key(*self, it)),
                order@.len() == i,
                strictly_ordered(order_keys(order@)),
                order_keys(order@).to_set() == all_keys.take(i as int).to_set(),
            decreases self.intent_data@.len() - i,
        {
            let name = &self.intent_data[i].name;
            let uses = self.count_uses(name.as_str());
            let confirms = self.count_confirms(name.as_str());
            let last = str_eq(self.memory_data.context.last_action.as_str(), name.as_str());
            let mut p: i64 = (self.intent_data[i].intent.priority as i64) - (uses as i64) - (confirms as i64);
            if last {
                p = p - 2;
            }
            if p < 0 {
                p = 0;
            }
            let complex = Self::intent_is_complex(&self.intent_data[i].intent.sentences);
            let e = ScriptPriority { name: copy_string(name), priority: p as i32, has_complex_patterns: complex };
            proof {
                assert(p as int == priority_of(*self, self.intent_data@[i as int]));
                assert forall|k: int| 0 <= k < order@.len() implies (#[trigger] order@[k]).name@ != e.name@ by {
                    let kk = order_keys(order@)[k];
                    assert(order_keys(order@).contains(kk));
                    assert(all_keys.take(i as int).to_set().contains(kk));
                    let m = choose|m: int| 0 <= m < all_keys.take(i as int).len() && all_keys.take(i as int)[m] == kk;
                    assert(all_keys[m].2 == self.intent_data@[m].name@);
                    assert(self.intent_data@[m].name@ != self.intent_data@[i as int].name@);
                }
            }
            let ghost before = order@;
            insert_ordered(&mut order, e);
            proof {
                assert(all_keys.take(i + 1) =~= all_keys.take(i as int).push(all_keys[i as int]));
                assert(all_keys[i as int] == (p as int, complex, name@));
                all_keys.take(i as int).lemma_push_to_set_commute(all_keys[i as int]);
            }
            i = i + 1;
        }
        assert(all_keys.take(self.intent_data@.len() as int) =~= all_keys);
        let ghost before = *self;
        self.processing_order = order;
        proof {
            lemma_order_ranks(before, order@);
        }
    }
}

} // verus!
