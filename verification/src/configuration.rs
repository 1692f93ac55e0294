//! Packaged configuration: callable definitions owned by the package are
//! reconciled with the records already present, startup settings become
//! option assignments, and every model target gets a direct profile.
use crate::context::{sha256, sha256_digest, hex, hex_text};
use crate::text_map::TextMap;
use vstd::prelude::*;
use vstd::std_specs::cmp::PartialEqSpec;

verus! {

/// Why a packaged configuration was refused.
#[derive(Clone, Debug, PartialEq, Eq)]
pub enum ConfigurationError {
    DuplicateCallable { id: String },
    ChangedOutsideConfiguration { id: String },
    ForeignCallableImmutable { id: String },
    AgentOrchestrationOverlap,
}

/// The map of pairs inserted in order, a later value replacing an earlier one.
pub open spec fn pairs_map<T>(s: Seq<(String, T)>) -> Map<Seq<char>, T>
    decreases s.len(),
{
    if s.len() == 0 {
        Map::empty()
    } else {
        pairs_map(s.drop_last()).insert(s.last().0@, s.last().1)
    }
}

/// Whether the pair at `i` has an identity an earlier pair already has.
pub open spec fn repeats_before<T>(s: Seq<(String, T)>, i: int) -> bool {
    exists|j: int| 0 <= j < i && #[trigger] s[j].0@ == s[i].0@
}

/// Whether no identity repeats among the first `n` pairs.
pub open spec fn distinct_until<T>(s: Seq<(String, T)>, n: int) -> bool {
    forall|k: int, j: int| #![trigger s[j], s[k]] 0 <= j < k < n ==> s[j].0@ != s[k].0@
}

/// The index of the first pair whose identity an earlier pair already has.
pub open spec fn first_repeat<T>(s: Seq<(String, T)>) -> Option<int> {
    if exists|i: int| 0 <= i < s.len() && #[trigger] repeats_before(s, i) {
        Some(choose|i: int| 0 <= i < s.len() && #[trigger] repeats_before(s, i) && distinct_until(s, i))
    } else {
        None
    }
}

proof fn lemma_pairs_map_keys<T>(s: Seq<(String, T)>)
    ensures
        forall|k: Seq<char>| #[trigger] pairs_map(s).contains_key(k) <==> exists|i: int|
            0 <= i < s.len() && s[i].0@ == k,
    decreases s.len(),
{
    if s.len() > 0 {
        let d = s.drop_last();
        lemma_pairs_map_keys(d);
        assert forall|k: Seq<char>| #[trigger] pairs_map(s).contains_key(k) <==> exists|i: int|
            0 <= i < s.len() && s[i].0@ == k by {
            if pairs_map(s).contains_key(k) {
                if k == s.last().0@ {
                    assert(0 <= s.len() - 1 < s.len() && s[s.len() - 1].0@ == k);
                } else {
                    assert(pairs_map(d).contains_key(k));
                    let i = choose|i: int| 0 <= i < d.len() && d[i].0@ == k;
                    assert(d[i] == s[i]);
                    assert(0 <= i < s.len() && s[i].0@ == k);
                }
            }
            if exists|i: int| 0 <= i < s.len() && s[i].0@ == k {
                let i = choose|i: int| 0 <= i < s.len() && s[i].0@ == k;
                if i < s.len() - 1 {
                    assert(d[i] == s[i]);
                    assert(0 <= i < d.len() && d[i].0@ == k);
                    assert(pairs_map(d).contains_key(k));
                }
            }
        }
    }
}

/// Collects definitions by identity; an identity may occur once.
pub fn unique<T>(values: Vec<(String, T)>) -> (r: Result<TextMap<T>, ConfigurationError>)
    ensures
        match first_repeat(values@) {
            Some(i) => r matches Err(ConfigurationError::DuplicateCallable { id }) && id@ == values@[i].0@,
            None => r matches Ok(m) && m.wf() && m@ == pairs_map(values@),
        },
{
    let ghost all = values@;
    let mut result: TextMap<T> = TextMap::new();
    let mut rest = values;
    let mut i: usize = 0;
    let n = rest.len();
    while i < n
        invariant
            n == all.len(),
            all == values@,
            rest@ == all.skip(i as int),
            i <= n,
            result.wf(),
            result@ == pairs_map(all.take(i as int)),
            distinct_until(all, i as int),
        decreases n - i,
    {
        let (key, value) = rest.remove(0);
        proof {
            assert(rest@ =~= all.skip(i + 1));
            assert(all.take(i + 1).drop_last() =~= all.take(i as int));
            lemma_pairs_map_keys(all.take(i as int));
            assert(key@ == all[i as int].0@);
        }
        if result.contains_key(&key) {
            proof {
                let j = choose|j: int| 0 <= j < all.take(i as int).len() && all.take(i as int)[j].0@ == key@;
                assert(all[j].0@ == all[i as int].0@);
                assert(repeats_before(all, i as int));
                let c = choose|c: int| 0 <= c < all.len() && #[trigger] repeats_before(all, c) && distinct_until(all, c);
                assert(0 <= i < all.len() && repeats_before(all, i as int) && distinct_until(all, i as int));
                if c < i {
                    let jc = choose|jc: int| 0 <= jc < c && #[trigger] all[jc].0@ == all[c].0@;
                    assert(all[jc].0@ != all[c].0@);
                } else if c > i {
                    assert(all[j].0@ != all[i as int].0@);
                }
            }
            return Err(ConfigurationError::DuplicateCallable { id: key });
        }
        proof {
            assert forall|k: int, j: int| #![trigger all[j], all[k]] 0 <= j < k < i + 1 implies all[j].0@ != all[k].0@ by {
                if k == i {
                    if all[j].0@ == all[k].0@ {
                        assert(all.take(i as int)[j].0@ == key@);
                    }
                }
            }
        }
        result.insert(key, value);
        i = i + 1;
    }
    proof {
        assert(all.take(i as int) =~= all);
        assert forall|c: int| 0 <= c < all.len() implies !#[trigger] repeats_before(all, c) by {
            if repeats_before(all, c) {
                let jc = choose|jc: int| 0 <= jc < c && #[trigger] all[jc].0@ == all[c].0@;
                assert(all[jc].0@ != all[c].0@);
            }
        }
    }
    Ok(result)
}

// ---------------------------------------------------------------------------
// Startup settings
// ---------------------------------------------------------------------------

/// A setting's value as written in a settings file.
#[derive(Clone, Debug, PartialEq, Eq)]
pub enum SettingValue {
    Bool(bool),
    Integer(i64),
    String(String),
}

/// Where an option assignment applies.
#[derive(Clone, Debug, PartialEq, Eq)]
pub enum OptionScope {
    Global,
    Session(String),
    Agent(String),
}

/// One option value at one scope.
#[derive(Clone, Debug, PartialEq, Eq)]
pub struct OptionAssignment {
    pub key: String,
    pub scope: OptionScope,
    pub value: SettingValue,
}

/// The settings of a file: global ones, per session, and per agent.
pub struct SettingsConfiguration {
    pub global: TextMap<SettingValue>,
    pub sessions: TextMap<TextMap<SettingValue>>,
    pub agents: TextMap<TextMap<SettingValue>>,
}

pub open spec fn assignment_view(a: OptionAssignment) -> (Seq<char>, OptionScope, SettingValue) {
    (a.key@, a.scope, a.value)
}

/// The assignments of one group of settings at one scope, in key order.
pub open spec fn scoped(entries: Seq<(String, SettingValue)>, scope: OptionScope) -> Seq<
    (Seq<char>, OptionScope, SettingValue),
> {
    entries.map_values(|e: (String, SettingValue)| (e.0@, scope, e.1))
}

/// The assignments of the per-subject groups, subject by subject in order.
pub open spec fn subject_assignments(
    groups: Seq<(String, TextMap<SettingValue>)>,
    agent: bool,
) -> Seq<(Seq<char>, OptionScope, SettingValue)>
    decreases groups.len(),
{
    if groups.len() == 0 {
        Seq::empty()
    } else {
        let last = groups.last();
        subject_assignments(groups.drop_last(), agent) + scoped(
            last.1.entry_seq(),
            if agent {
                OptionScope::Agent(last.0)
            } else {
                OptionScope::Session(last.0)
            },
        )
    }
}

fn push_scoped(out: &mut Vec<OptionAssignment>, settings: &TextMap<SettingValue>, scope: &OptionScope)
    ensures
        final(out)@.map_values(|a: OptionAssignment| assignment_view(a)) == old(out)@.map_values(
            |a: OptionAssignment| assignment_view(a),
        ) + scoped(settings.entry_seq(), *scope),
{
    let ghost start = out@.map_values(|a: OptionAssignment| assignment_view(a));
    let ghost e = settings.entry_seq();
    let mut i: usize = 0;
    while i < settings.len()
        invariant
            e == settings.entry_seq(),
            i <= e.len(),
            start == old(out)@.map_values(|a: OptionAssignment| assignment_view(a)),
            out@.map_values(|a: OptionAssignment| assignment_view(a)) == start + scoped(
                e.take(i as int),
                *scope,
            ),
        decreases e.len() - i,
    {
        let (key, value) = settings.entry(i);
        let ghost before = out@;
        out.push(
            OptionAssignment { key: key.clone(), scope: clone_scope(scope), value: clone_value(value) },
        );
        proof {
            assert(out@.map_values(|a: OptionAssignment| assignment_view(a)) =~= before.map_values(
                |a: OptionAssignment| assignment_view(a),
            ).push((e[i as int].0@, *scope, e[i as int].1)));
            assert(scoped(e.take(i + 1), *scope) =~= scoped(e.take(i as int), *scope).push(
                (e[i as int].0@, *scope, e[i as int].1),
            ));
        }
        i = i + 1;
    }
    proof {
        assert(e.take(i as int) =~= e);
    }
}

fn clone_scope(s: &OptionScope) -> (r: OptionScope)
    ensures
        r == *s,
{
    match s {
        OptionScope::Global => OptionScope::Global,
        OptionScope::Session(x) => OptionScope::Session(x.clone()),
        OptionScope::Agent(x) => OptionScope::Agent(x.clone()),
    }
}

fn clone_value(v: &SettingValue) -> (r: SettingValue)
    ensures
        r == *v,
{
    match v {
        SettingValue::Bool(b) => SettingValue::Bool(*b),
        SettingValue::Integer(n) => SettingValue::Integer(*n),
        SettingValue::String(s) => SettingValue::String(s.clone()),
    }
}

fn push_subjects(out: &mut Vec<OptionAssignment>, groups: &TextMap<TextMap<SettingValue>>, agent: bool)
    ensures
        final(out)@.map_values(|a: OptionAssignment| assignment_view(a)) == old(out)@.map_values(
            |a: OptionAssignment| assignment_view(a),
        ) + subject_assignments(groups.entry_seq(), agent),
{
    let ghost start = out@.map_values(|a: OptionAssignment| assignment_view(a));
    let ghost e = groups.entry_seq();
    let mut i: usize = 0;
    while i < groups.len()
        invariant
            e == groups.entry_seq(),
            i <= e.len(),
            start == old(out)@.map_values(|a: OptionAssignment| assignment_view(a)),
            out@.map_values(|a: OptionAssignment| assignment_view(a)) == start + subject_assignments(
                e.take(i as int),
                agent,
            ),
        decreases e.len() - i,
    {
        let (subject, settings) = groups.entry(i);
        let scope = if agent {
            OptionScope::Agent(subject.clone())
        } else {
            OptionScope::Session(subject.clone())
        };
        push_scoped(out, settings, &scope);
        proof {
            assert(e.take(i + 1).drop_last() =~= e.take(i as int));
            assert(e.take(i + 1).last() == e[i as int]);
        }
        i = i + 1;
    }
    proof {
        assert(e.take(i as int) =~= e);
    }
}

/// The option assignments of a settings file: the global settings, then each
/// session's, then each agent's, every group in key order.
pub fn settings_assignments(settings: &SettingsConfiguration) -> (r: Vec<OptionAssignment>)
    ensures
        r@.map_values(|a: OptionAssignment| assignment_view(a)) == scoped(
            settings.global.entry_seq(),
            OptionScope::Global,
        ) + subject_assignments(settings.sessions.entry_seq(), false) + subject_assignments(
            settings.agents.entry_seq(),
            true,
        ),
{
    let mut values: Vec<OptionAssignment> = Vec::new();
    proof {
        assert(values@.map_values(|a: OptionAssignment| assignment_view(a)) =~= Seq::empty());
    }
    push_scoped(&mut values, &settings.global, &OptionScope::Global);
    push_subjects(&mut values, &settings.sessions, false);
    push_subjects(&mut values, &settings.agents, true);
    proof {
        assert(Seq::<(Seq<char>, OptionScope, SettingValue)>::empty() + scoped(
            settings.global.entry_seq(),
            OptionScope::Global,
        ) =~= scoped(settings.global.entry_seq(), OptionScope::Global));
    }
    values
}

// ---------------------------------------------------------------------------
// Direct profiles
// ---------------------------------------------------------------------------

/// The identity of the direct profile of a model target: `model.`, the
/// provider, `.`, the model, `.`, and the first eight bytes of the SHA-256
/// digest of the target's encoding in hexadecimal.
pub open spec fn direct_profile_name(provider: Seq<char>, model: Seq<char>, encoded: Seq<u8>) -> Seq<char> {
    "model."@ + provider + "."@ + model + "."@ + hex(sha256(encoded).take(8))
}

pub fn direct_profile_name_of(provider: &str, model: &str, encoded: &[u8]) -> (r: String)
    ensures
        r@ == direct_profile_name(provider@, model@, encoded@),
{
    let digest = sha256_digest(encoded);
    let mut out = String::from_str("model.");
    out.append(provider);
    out.append(".");
    out.append(model);
    out.append(".");
    let ghost prefix = out@;
    let mut i: usize = 0;
    while i < 8
        invariant
            digest@.len() == 32,
            i <= 8,
            out@ == prefix + hex(digest@.take(i as int)),
        decreases 8 - i,
    {
        let b = digest[i];
        out.append(hex_text(b / 16));
        out.append(hex_text(b % 16));
        proof {
            assert(digest@.take(i + 1).drop_last() =~= digest@.take(i as int));
        }
        i = i + 1;
    }
    out
}

/// The values of pairs by identity, the first pair of each identity kept.
pub open spec fn first_kept<T>(s: Seq<(String, T)>) -> Map<Seq<char>, T>
    decreases s.len(),
{
    if s.len() == 0 {
        Map::empty()
    } else {
        let m = first_kept(s.drop_last());
        if m.contains_key(s.last().0@) {
            m
        } else {
            m.insert(s.last().0@, s.last().1)
        }
    }
}

/// The model targets by their encoding, the first target of each encoding
/// kept; the map's entries come in encoding order.
pub fn distinct_targets<T>(targets: Vec<(String, T)>) -> (r: TextMap<T>)
    ensures
        r.wf(),
        r@ == first_kept(targets@),
{
    let mut kept: TextMap<T> = TextMap::new();
    let ghost all = targets@;
    let mut rest = targets;
    let n = rest.len();
    let mut i: usize = 0;
    while i < n
        invariant
            n == all.len(),
            rest@ == all.skip(i as int),
            i <= n,
            kept.wf(),
            kept@ == first_kept(all.take(i as int)),
        decreases n - i,
    {
        let (key, target) = rest.remove(0);
        proof {
            assert(rest@ =~= all.skip(i + 1));
            assert(all.take(i + 1).drop_last() =~= all.take(i as int));
        }
        if !kept.contains_key(&key) {
            kept.insert(key, target);
        }
        i = i + 1;
    }
    proof {
        assert(all.take(i as int) =~= all);
    }
    kept
}

// ---------------------------------------------------------------------------
// Ownership of packaged callables
// ---------------------------------------------------------------------------

/// Whether every owned definition is still the one recorded.
pub open spec fn owned_intact<T: PartialEq>(records: Map<Seq<char>, T>, owned: Map<Seq<char>, T>) -> bool {
    forall|k: Seq<char>| #[trigger] owned.contains_key(k) ==> records.contains_key(k) && records[k].eq_spec(
        &owned[k],
    )
}

/// Reconciles the desired packaged definitions with the records: every
/// definition the package owned must still be recorded unchanged, and a
/// desired definition may not replace a different one that the package does
/// not own. The desired definitions are then recorded and owned; their
/// identities are returned as the active ones.
pub fn reconcile<T: PartialEq + Clone>(
    records: &mut TextMap<T>,
    owned: &mut TextMap<T>,
    desired: TextMap<T>,
) -> (r: Result<Vec<String>, ConfigurationError>)
    requires
        old(records).wf(),
        old(owned).wf(),
        desired.wf(),
        T::obeys_eq_spec(),
    ensures
        final(records).wf(),
        final(owned).wf(),
        r is Err ==> final(records)@ == old(records)@ && final(owned)@ == old(owned)@,
        !owned_intact(old(records)@, old(owned)@) ==> r is Err,
        (exists|k: Seq<char>|
            #[trigger] desired@.contains_key(k) && !old(owned)@.contains_key(k) && old(records)@.contains_key(k)
                && !old(records)@[k].eq_spec(&desired@[k])) ==> r is Err,
        r matches Err(e) ==> (e is ChangedOutsideConfiguration || e is ForeignCallableImmutable),
        r matches Err(ConfigurationError::ChangedOutsideConfiguration { id }) ==> {
            &&& old(owned)@.contains_key(id@)
            &&& !(old(records)@.contains_key(id@) && old(records)@[id@].eq_spec(&old(owned)@[id@]))
        },
        r matches Err(ConfigurationError::ForeignCallableImmutable { id }) ==> {
            &&& owned_intact(old(records)@, old(owned)@)
            &&& desired@.contains_key(id@)
            &&& !old(owned)@.contains_key(id@)
            &&& old(records)@.contains_key(id@)
            &&& !old(records)@[id@].eq_spec(&desired@[id@])
        },
        r is Ok ==> {
            &&& owned_intact(old(records)@, old(owned)@)
            &&& forall|k: Seq<char>| #[trigger] desired@.contains_key(k) && !old(owned)@.contains_key(k)
                && old(records)@.contains_key(k) ==> old(records)@[k].eq_spec(&desired@[k])
            &&& final(records)@.dom() == old(records)@.dom().union(desired@.dom())
            &&& final(owned)@.dom() == old(owned)@.dom().union(desired@.dom())
            &&& forall|k: Seq<char>| #[trigger] old(records)@.contains_key(k) && !desired@.contains_key(k)
                ==> final(records)@[k] == old(records)@[k]
            &&& forall|k: Seq<char>| #[trigger] old(owned)@.contains_key(k) && !desired@.contains_key(k)
                ==> final(owned)@[k] == old(owned)@[k]
            &&& forall|k: Seq<char>| #[trigger] desired@.contains_key(k) ==> final(records)@[k] == desired@[k]
                && cloned::<T>(desired@[k], final(owned)@[k])
            &&& r matches Ok(ids) && ids@.map_values(|s: String| s@) == desired.entry_seq().map_values(
                |e: (String, T)| e.0@,
            )
        },
{
    let ghost ow = owned.entry_seq();
    proof {
        owned.lemma_entries();
    }
    let mut i: usize = 0;
    while i < owned.len()
        invariant
            owned.wf(),
            records.wf(),
            owned@ == old(owned)@,
            records@ == old(records)@,
            ow == owned.entry_seq(),
            i <= ow.len(),
            T::obeys_eq_spec(),
            forall|j: int| 0 <= j < i ==> records@.contains_key(#[trigger] ow[j].0@) && records@[ow[j].0@].eq_spec(
                &ow[j].1,
            ),
        decreases ow.len() - i,
    {
        let (id, expected) = owned.entry(i);
        let intact = match records.get(id) {
            Some(current) => current == expected,
            None => false,
        };
        if !intact {
            proof {
                owned.lemma_entries();
                crate::text_map::lemma_entry_index(ow, i as int);
            }
            return Err(ConfigurationError::ChangedOutsideConfiguration { id: id.clone() });
        }
        i = i + 1;
    }
    proof {
        owned.lemma_entries();
        assert forall|k: Seq<char>| #[trigger] owned@.contains_key(k) implies records@.contains_key(k)
            && records@[k].eq_spec(&owned@[k]) by {
            let j = choose|j: int| 0 <= j < ow.len() && #[trigger] ow[j].0@ == k;
            crate::text_map::lemma_entry_index(ow, j);
        }
    }
    let ghost de = desired.entry_seq();
    let mut i: usize = 0;
    while i < desired.len()
        invariant
            owned.wf(),
            records.wf(),
            desired.wf(),
            owned@ == old(owned)@,
            records@ == old(records)@,
            owned_intact(old(records)@, old(owned)@),
            de == desired.entry_seq(),
            i <= de.len(),
            T::obeys_eq_spec(),
            forall|j: int| 0 <= j < i ==> !owned@.contains_key(#[trigger] de[j].0@) && records@.contains_key(de[j].0@)
                ==> records@[de[j].0@].eq_spec(&de[j].1),
        decreases de.len() - i,
    {
        let (id, definition) = desired.entry(i);
        if !owned.contains_key(id) {
            let conflict = match records.get(id) {
                Some(existing) => !(existing == definition),
                None => false,
            };
            if conflict {
                proof {
                    desired.lemma_entries();
                    crate::text_map::lemma_entry_index(de, i as int);
                }
                return Err(ConfigurationError::ForeignCallableImmutable { id: id.clone() });
            }
        }
        i = i + 1;
    }
    proof {
        desired.lemma_entries();
        assert forall|k: Seq<char>| #[trigger] desired@.contains_key(k) && !old(owned)@.contains_key(k)
            && old(records)@.contains_key(k) implies old(records)@[k].eq_spec(&desired@[k]) by {
            let j = choose|j: int| 0 <= j < de.len() && #[trigger] de[j].0@ == k;
            crate::text_map::lemma_entry_index(de, j);
        }
    }
    let ghost before_records = records@;
    let ghost before_owned = owned@;
    proof {
        desired.lemma_entries();
    }
    let mut entries = desired.into_entries();
    let n = entries.len();
    let mut active: Vec<String> = Vec::new();
    let mut i: usize = 0;
    while i < n
        invariant
            owned.wf(),
            records.wf(),
            n == de.len(),
            entries@ == de.skip(i as int),
            before_records == old(records)@,
            before_owned == old(owned)@,
            i <= de.len(),
            crate::text_map::ascending(de),
            forall|k: Seq<char>| #[trigger] records@.contains_key(k) == (before_records.contains_key(k)
                || in_prefix(de, i as int, k)),
            forall|k: Seq<char>| #[trigger] owned@.contains_key(k) == (before_owned.contains_key(k)
                || in_prefix(de, i as int, k)),
            forall|k: Seq<char>| #[trigger] before_records.contains_key(k) && !in_prefix(de, i as int, k)
                ==> records@[k] == before_records[k],
            forall|k: Seq<char>| #[trigger] before_owned.contains_key(k) && !in_prefix(de, i as int, k)
                ==> owned@[k] == before_owned[k],
            forall|j: int| 0 <= j < i ==> records@[(#[trigger] de[j]).0@] == de[j].1 && cloned::<T>(
                de[j].1,
                owned@[de[j].0@],
            ),
            active@.map_values(|s: String| s@) == de.take(i as int).map_values(|e: (String, T)| e.0@),
        decreases de.len() - i,
    {
        let (id, definition) = entries.remove(0);
        proof {
            assert(id == de[i as int].0 && definition == de[i as int].1);
            assert(entries@ =~= de.skip(i + 1));
        }
        let ghost before = active@;
        owned.insert(id.clone(), definition.clone());
        active.push(id.clone());
        records.insert(id, definition);
        proof {
            assert forall|j: int| 0 <= j < i implies de[j].0@ != de[i as int].0@ by {
                crate::text_map::lemma_ascending_distinct(de, j, i as int);
            }
            assert forall|k: Seq<char>| in_prefix(de, i + 1, k) == (in_prefix(de, i as int, k) || k
                == de[i as int].0@) by {
                if in_prefix(de, i + 1, k) {
                    let j = choose|j: int| 0 <= j < i + 1 && #[trigger] de[j].0@ == k;
                    if j < i {
                        assert(in_prefix(de, i as int, k));
                    }
                }
                if k == de[i as int].0@ {
                    assert(de[i as int].0@ == k);
                }
                if in_prefix(de, i as int, k) {
                    let j = choose|j: int| 0 <= j < i && #[trigger] de[j].0@ == k;
                    assert(0 <= j < i + 1 && de[j].0@ == k);
                }
            }
            assert(active@.map_values(|s: String| s@) =~= before.map_values(|s: String| s@).push(de[i as int].0@));
            assert(de.take(i + 1).map_values(|e: (String, T)| e.0@) =~= de.take(i as int).map_values(
                |e: (String, T)| e.0@,
            ).push(de[i as int].0@));
        }
        i = i + 1;
    }
    proof {
        assert(de.take(i as int) =~= de);
        assert forall|k: Seq<char>| in_prefix(de, i as int, k) == desired@.contains_key(k) by {
            if in_prefix(de, i as int, k) {
                let j = choose|j: int| 0 <= j < i && #[trigger] de[j].0@ == k;
                crate::text_map::lemma_entry_index(de, j);
            }
        }
        assert(records@.dom() =~= old(records)@.dom().union(desired@.dom()));
        assert(owned@.dom() =~= old(owned)@.dom().union(desired@.dom()));
        assert forall|k: Seq<char>| #[trigger] desired@.contains_key(k) implies records@[k] == desired@[k]
            && cloned::<T>(desired@[k], owned@[k]) by {
            let j = choose|j: int| 0 <= j < de.len() && #[trigger] de[j].0@ == k;
            crate::text_map::lemma_entry_index(de, j);
        }
    }
    Ok(active)
}

/// Whether one of the first `n` entries has identity `k`.
pub open spec fn in_prefix<T>(de: Seq<(String, T)>, n: int, k: Seq<char>) -> bool {
    exists|j: int| 0 <= j < n && #[trigger] de[j].0@ == k
}

// ---------------------------------------------------------------------------
// One packaged configuration
// ---------------------------------------------------------------------------

/// Collects the packaged agents and orchestrations by identity: each
/// identity once in each, and no identity both an agent and an orchestration.
pub fn packaged_definitions<A, O>(agents: Vec<(String, A)>, orchestrations: Vec<(String, O)>) -> (r: Result<
    (TextMap<A>, TextMap<O>),
    ConfigurationError,
>)
    ensures
        match first_repeat(agents@) {
            Some(i) => r matches Err(ConfigurationError::DuplicateCallable { id }) && id@ == agents@[i].0@,
            None => match first_repeat(orchestrations@) {
                Some(i) => r matches Err(ConfigurationError::DuplicateCallable { id }) && id@
                    == orchestrations@[i].0@,
                None => if exists|k: Seq<char>|
                    #[trigger] pairs_map(agents@).contains_key(k) && pairs_map(orchestrations@).contains_key(k) {
                    r == Err::<(TextMap<A>, TextMap<O>), _>(ConfigurationError::AgentOrchestrationOverlap)
                } else {
                    r matches Ok((a, o)) && a.wf() && o.wf() && a@ == pairs_map(agents@) && o@ == pairs_map(
                        orchestrations@,
                    )
                },
            },
        },
{
    let ghost ag = agents@;
    let ghost og = orchestrations@;
    let agent_map = match unique(agents) {
        Err(e) => {
            return Err(e);
        },
        Ok(m) => m,
    };
    let orchestration_map = match unique(orchestrations) {
        Err(e) => {
            return Err(e);
        },
        Ok(m) => m,
    };
    proof {
        agent_map.lemma_entries();
        orchestration_map.lemma_entries();
    }
    let mut i: usize = 0;
    while i < agent_map.len()
        invariant
            agent_map.wf(),
            orchestration_map.wf(),
            ag == agents@,
            og == orchestrations@,
            first_repeat(ag) is None,
            first_repeat(og) is None,
            agent_map@ == pairs_map(ag),
            orchestration_map@ == pairs_map(og),
            i <= agent_map.entry_seq().len(),
            forall|j: int| 0 <= j < i ==> !orchestration_map@.contains_key((#[trigger] agent_map.entry_seq()[j]).0@),
        decreases agent_map.entry_seq().len() - i,
    {
        let (id, _) = agent_map.entry(i);
        if orchestration_map.contains_key(id) {
            proof {
                agent_map.lemma_entries();
                crate::text_map::lemma_entry_index(agent_map.entry_seq(), i as int);
                assert(agent_map@.contains_key(id@));
                assert(pairs_map(ag).contains_key(id@) && pairs_map(og).contains_key(id@));
            }
            return Err(ConfigurationError::AgentOrchestrationOverlap);
        }
        i = i + 1;
    }
    proof {
        agent_map.lemma_entries();
        assert forall|k: Seq<char>| #[trigger] agent_map@.contains_key(k) implies !orchestration_map@.contains_key(k) by {
            let j = crate::text_map::entry_index(agent_map.entry_seq(), k);
            crate::text_map::lemma_entry_index(agent_map.entry_seq(), j);
        }
    }
    Ok((agent_map, orchestration_map))
}

/// The agents orchestrations may use: every recorded agent that the package
/// does not own, and the owned ones that are active; in identity order.
pub fn available_agent_ids<T>(records: &TextMap<T>, owned: &TextMap<T>, active: &Vec<String>) -> (r: Vec<String>)
    requires
        records.wf(),
        owned.wf(),
    ensures
        forall|i: int, j: int|
            0 <= i < j < r@.len() ==> crate::text::bytes_lt(
                crate::text_map::key_bytes(#[trigger] r@[i]@),
                crate::text_map::key_bytes(#[trigger] r@[j]@),
            ),
        forall|k: Seq<char>|
            (exists|i: int| 0 <= i < r@.len() && (#[trigger] r@[i])@ == k) <==> (records@.contains_key(k)
                && (!owned@.contains_key(k) || exists|j: int| 0 <= j < active@.len() && (#[trigger] active@[j])@ == k)),
{
    proof {
        records.lemma_entries();
    }
    let ghost es = records.entry_seq();
    let mut out: Vec<String> = Vec::new();
    let ghost picked: Seq<int> = Seq::empty();
    let mut i: usize = 0;
    while i < records.len()
        invariant
            records.wf(),
            owned.wf(),
            es == records.entry_seq(),
            i <= es.len(),
            out@.len() == picked.len(),
            forall|a: int| 0 <= a < picked.len() ==> 0 <= #[trigger] picked[a] < i && out@[a]@ == es[picked[a]].0@,
            forall|a: int, b: int| 0 <= a < b < picked.len() ==> #[trigger] picked[a] < #[trigger] picked[b],
            forall|x: int| 0 <= x < i ==> (available_at(es, owned@, active@, x) <==> exists|a: int|
                0 <= a < picked.len() && #[trigger] picked[a] == x),
        decreases es.len() - i,
    {
        let (id, _) = records.entry(i);
        let mut listed = false;
        let mut j: usize = 0;
        while j < active.len()
            invariant
                j <= active@.len(),
                listed == exists|b: int| 0 <= b < j && (#[trigger] active@[b])@ == id@,
            decreases active@.len() - j,
        {
            if active[j] == *id {
                listed = true;
            }
            j = j + 1;
        }
        let ghost old_picked = picked;
        if !owned.contains_key(id) || listed {
            out.push(id.clone());
            proof {
                picked = picked.push(i as int);
            }
        }
        proof {
            assert(id@ == es[i as int].0@);
            assert forall|x: int| 0 <= x < i + 1 implies (available_at(es, owned@, active@, x) <==> exists|a: int|
                0 <= a < picked.len() && #[trigger] picked[a] == x) by {
                if x < i {
                    if exists|a: int| 0 <= a < old_picked.len() && #[trigger] old_picked[a] == x {
                        let a = choose|a: int| 0 <= a < old_picked.len() && #[trigger] old_picked[a] == x;
                        assert(picked[a] == x);
                    }
                    if exists|a: int| 0 <= a < picked.len() && #[trigger] picked[a] == x {
                        let a = choose|a: int| 0 <= a < picked.len() && #[trigger] picked[a] == x;
                        assert(a < old_picked.len());
                        assert(old_picked[a] == x);
                    }
                } else {
                    if available_at(es, owned@, active@, x) {
                        assert(picked[old_picked.len() as int] == x);
                    }
                    if exists|a: int| 0 <= a < picked.len() && #[trigger] picked[a] == x {
                        let a = choose|a: int| 0 <= a < picked.len() && #[trigger] picked[a] == x;
                        assert(a == old_picked.len());
                    }
                }
            }
        }
        i = i + 1;
    }
    proof {
        records.lemma_entries();
        assert forall|a: int, b: int| 0 <= a < b < out@.len() implies crate::text::bytes_lt(
            crate::text_map::key_bytes(#[trigger] out@[a]@),
            crate::text_map::key_bytes(#[trigger] out@[b]@),
        ) by {
            assert(picked[a] < picked[b]);
        }
        assert forall|k: Seq<char>|
            (exists|a: int| 0 <= a < out@.len() && (#[trigger] out@[a])@ == k) <==> (records@.contains_key(k)
                && (!owned@.contains_key(k) || exists|j: int| 0 <= j < active@.len() && (#[trigger] active@[j])@ == k)) by {
            if exists|a: int| 0 <= a < out@.len() && (#[trigger] out@[a])@ == k {
                let a = choose|a: int| 0 <= a < out@.len() && (#[trigger] out@[a])@ == k;
                let x = picked[a];
                assert(available_at(es, owned@, active@, x));
                crate::text_map::lemma_entry_index(es, x);
            }
            if records@.contains_key(k) && (!owned@.contains_key(k) || exists|j: int| 0 <= j < active@.len() && (#[trigger] active@[j])@ == k) {
                let x = crate::text_map::entry_index(es, k);
                crate::text_map::lemma_entry_index(es, x);
                assert(available_at(es, owned@, active@, x));
                let a = choose|a: int| 0 <= a < picked.len() && #[trigger] picked[a] == x;
                assert(out@[a]@ == k);
            }
        }
    }
    out
}

/// Whether the record at position `x` is available to orchestrations.
pub open spec fn available_at<T>(es: Seq<(String, T)>, owned: Map<Seq<char>, T>, active: Seq<String>, x: int) -> bool {
    !owned.contains_key(es[x].0@) || exists|j: int| 0 <= j < active.len() && (#[trigger] active[j])@ == es[x].0@
}

} // verus!
