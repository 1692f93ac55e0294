//! A map keyed by text whose entries stay in ascending key order, as a
//! `BTreeMap<String, V>` walks them.
use crate::text::{bytes_lt, lemma_bytes_lt_irreflexive, lemma_bytes_lt_total, lemma_bytes_lt_transitive, str_less};
use vstd::prelude::*;
use vstd::utf8::encode_utf8;

verus! {

pub open spec fn key_bytes(k: Seq<char>) -> Seq<u8> {
    encode_utf8(k)
}

/// Entries in strictly ascending key order.
pub open spec fn ascending<V>(s: Seq<(String, V)>) -> bool {
    forall|i: int, j: int|
        0 <= i < j < s.len() ==> bytes_lt(key_bytes(#[trigger] s[i].0@), key_bytes(#[trigger] s[j].0@))
}

pub open spec fn has_entry<V>(s: Seq<(String, V)>, k: Seq<char>) -> bool {
    exists|i: int| 0 <= i < s.len() && #[trigger] s[i].0@ == k
}

pub open spec fn entry_index<V>(s: Seq<(String, V)>, k: Seq<char>) -> int {
    choose|i: int| 0 <= i < s.len() && #[trigger] s[i].0@ == k
}

pub open spec fn entries_map<V>(s: Seq<(String, V)>) -> Map<Seq<char>, V> {
    Map::new(|k: Seq<char>| has_entry(s, k), |k: Seq<char>| s[entry_index(s, k)].1)
}

pub proof fn lemma_ascending_distinct<V>(s: Seq<(String, V)>, i: int, j: int)
    requires
        ascending(s),
        0 <= i < s.len(),
        0 <= j < s.len(),
        i != j,
    ensures
        s[i].0@ != s[j].0@,
{
    if i < j {
        assert(bytes_lt(key_bytes(s[i].0@), key_bytes(s[j].0@)));
    } else {
        assert(bytes_lt(key_bytes(s[j].0@), key_bytes(s[i].0@)));
    }
    if s[i].0@ == s[j].0@ {
        lemma_bytes_lt_irreflexive(key_bytes(s[i].0@));
    }
}

pub proof fn lemma_entry_index<V>(s: Seq<(String, V)>, i: int)
    requires
        ascending(s),
        0 <= i < s.len(),
    ensures
        has_entry(s, s[i].0@),
        entry_index(s, s[i].0@) == i,
        entries_map(s)[s[i].0@] == s[i].1,
{
    let k = s[i].0@;
    assert(has_entry(s, k));
    let j = entry_index(s, k);
    if j != i {
        lemma_ascending_distinct(s, i, j);
    }
}

/// A text-keyed map in ascending key order.
#[derive(Clone, Debug, PartialEq, Eq)]
pub struct TextMap<V> {
    entries: Vec<(String, V)>,
}

impl<V> TextMap<V> {
    pub closed spec fn wf(self) -> bool {
        ascending(self.entries@)
    }

    pub closed spec fn view(self) -> Map<Seq<char>, V> {
        entries_map(self.entries@)
    }

    /// The entries, in ascending key order.
    pub closed spec fn entry_seq(self) -> Seq<(String, V)> {
        self.entries@
    }

    pub proof fn lemma_entries(self)
        requires
            self.wf(),
        ensures
            ascending(self.entry_seq()),
            self.view() == entries_map(self.entry_seq()),
            forall|k: Seq<char>| #[trigger] self.view().contains_key(k) <==> has_entry(self.entry_seq(), k),
    {
    }

    pub fn new() -> (m: Self)
        ensures
            m.wf(),
            m.view() == Map::<Seq<char>, V>::empty(),
            m.entry_seq() == Seq::<(String, V)>::empty(),
    {
        let m = TextMap { entries: Vec::new() };
        assert(m.view() =~= Map::<Seq<char>, V>::empty());
        m
    }

    /// The entries, in ascending key order, taking the map apart.
    pub fn into_entries(self) -> (r: Vec<(String, V)>)
        ensures
            r@ == self.entry_seq(),
    {
        self.entries
    }

    pub fn len(&self) -> (n: usize)
        ensures
            n == self.entry_seq().len(),
    {
        self.entries.len()
    }

    /// The entry at position `i` in key order.
    pub fn entry(&self, i: usize) -> (r: (&String, &V))
        requires
            i < self.entry_seq().len(),
        ensures
            *r.0 == self.entry_seq()[i as int].0,
            *r.1 == self.entry_seq()[i as int].1,
    {
        let e = &self.entries[i];
        (&e.0, &e.1)
    }

    fn find(&self, key: &String) -> (r: Option<usize>)
        requires
            self.wf(),
        ensures
            match r {
                Some(i) => i < self.entries@.len() && self.entries@[i as int].0@ == key@,
                None => !has_entry(self.entries@, key@),
            },
    {
        let mut i: usize = 0;
        while i < self.entries.len()
            invariant
                i <= self.entries@.len(),
                forall|j: int| 0 <= j < i ==> #[trigger] self.entries@[j].0@ != key@,
            decreases self.entries@.len() - i,
        {
            if self.entries[i].0 == *key {
                return Some(i);
            }
            i = i + 1;
        }
        None
    }

    pub fn contains_key(&self, key: &String) -> (r: bool)
        requires
            self.wf(),
        ensures
            r == self.view().contains_key(key@),
    {
        self.find(key).is_some()
    }

    pub fn get(&self, key: &String) -> (r: Option<&V>)
        requires
            self.wf(),
        ensures
            match r {
                Some(v) => self.view().contains_key(key@) && self.view()[key@] == *v,
                None => !self.view().contains_key(key@),
            },
    {
        match self.find(key) {
            Some(i) => {
                proof {
                    lemma_entry_index(self.entries@, i as int);
                }
                Some(&self.entries[i].1)
            },
            None => None,
        }
    }

    /// Sets the value of a key, keeping the entries in key order.
    pub fn insert(&mut self, key: String, value: V)
        requires
            old(self).wf(),
        ensures
            final(self).wf(),
            final(self).view() == old(self).view().insert(key@, value),
    {
        let ghost k = key@;
        let ghost before = self.entries@;
        let ghost kb = key_bytes(k);
        let mut p: usize = 0;
        while p < self.entries.len() && str_less(self.entries[p].0.as_str(), key.as_str())
            invariant
                p <= self.entries@.len(),
                self.entries@ == before,
                kb == key_bytes(key@),
                forall|j: int| 0 <= j < p ==> bytes_lt(key_bytes(#[trigger] self.entries@[j].0@), kb),
            decreases self.entries@.len() - p,
        {
            p = p + 1;
        }
        let replace = p < self.entries.len() && self.entries[p].0 == key;
        if replace {
            self.entries.set(p, (key, value));
        } else {
            self.entries.insert(p, (key, value));
        }
        proof {
            let after = self.entries@;
            vstd::utf8::encode_utf8_decode_utf8(k);
            if p < before.len() && !replace {
                lemma_bytes_lt_total(key_bytes(before[p as int].0@), kb);
                vstd::utf8::encode_utf8_decode_utf8(before[p as int].0@);
                assert(bytes_lt(kb, key_bytes(before[p as int].0@)));
            }
            assert forall|i: int, j: int| 0 <= i < j < after.len() implies bytes_lt(
                key_bytes(#[trigger] after[i].0@),
                key_bytes(#[trigger] after[j].0@),
            ) by {
                if replace {
                    if i == p {
                        assert(key_bytes(before[i].0@) == kb);
                        assert(bytes_lt(key_bytes(before[i].0@), key_bytes(before[j].0@)));
                    } else if j == p {
                        assert(key_bytes(before[j].0@) == kb);
                        assert(bytes_lt(key_bytes(before[i].0@), key_bytes(before[j].0@)));
                    } else {
                        assert(after[i] == before[i] && after[j] == before[j]);
                    }
                } else {
                    if j < p {
                        assert(after[i] == before[i] && after[j] == before[j]);
                    } else if j == p {
                        assert(after[i] == before[i]);
                    } else if i > p {
                        assert(after[i] == before[i - 1] && after[j] == before[j - 1]);
                    } else if i == p {
                        assert(after[j] == before[j - 1]);
                        if j - 1 > p {
                            assert(bytes_lt(key_bytes(before[p as int].0@), key_bytes(before[j - 1].0@)));
                            lemma_bytes_lt_transitive(kb, key_bytes(before[p as int].0@), key_bytes(before[j - 1].0@));
                        }
                    } else {
                        assert(after[i] == before[i] && after[j] == before[j - 1]);
                        assert(bytes_lt(key_bytes(before[i].0@), kb));
                        if j - 1 > p {
                            assert(bytes_lt(key_bytes(before[p as int].0@), key_bytes(before[j - 1].0@)));
                            lemma_bytes_lt_transitive(kb, key_bytes(before[p as int].0@), key_bytes(before[j - 1].0@));
                        }
                        lemma_bytes_lt_transitive(key_bytes(before[i].0@), kb, key_bytes(before[j - 1].0@));
                    }
                }
            }
            assert forall|x: Seq<char>| #![auto] entries_map(after).contains_key(x) == entries_map(before).insert(k, value).contains_key(x) by {
                if has_entry(before, x) {
                    let j = entry_index(before, x);
                    if replace && j == p {
                        assert(after[p as int].0@ == x);
                    } else if replace || j < p {
                        assert(after[j] == before[j]);
                    } else {
                        assert(after[j + 1] == before[j]);
                    }
                }
                if x == k {
                    assert(after[p as int].0@ == k);
                }
                if has_entry(after, x) {
                    let j = entry_index(after, x);
                    if replace {
                        if j != p {
                            assert(after[j] == before[j]);
                        }
                    } else if j < p {
                        assert(after[j] == before[j]);
                    } else if j > p {
                        assert(after[j] == before[j - 1]);
                    }
                }
            }
            assert forall|x: Seq<char>| #![auto] entries_map(after).contains_key(x) implies entries_map(after)[x] == entries_map(before).insert(k, value)[x] by {
                let j = entry_index(after, x);
                lemma_entry_index(after, j);
                if j == p {
                    assert(x == k);
                } else {
                    let bj = if replace || j < p { j } else { j - 1 };
                    assert(after[j] == before[bj]);
                    lemma_entry_index(before, bj);
                    lemma_ascending_distinct(after, j, p as int);
                }
            }
            assert(entries_map(after) =~= entries_map(before).insert(k, value));
        }
    }
}

impl<V> TextMap<V> {
    /// Drops a key and its value, if the key is present.
    pub fn remove(&mut self, key: &String) -> (r: Option<V>)
        requires
            old(self).wf(),
        ensures
            final(self).wf(),
            final(self).view() == old(self).view().remove(key@),
            match r {
                Some(v) => old(self).view().contains_key(key@) && old(self).view()[key@] == v,
                None => !old(self).view().contains_key(key@),
            },
    {
        let ghost before = self.entries@;
        match self.find(key) {
            None => {
                proof {
                    assert(entries_map(before).remove(key@) =~= entries_map(before));
                }
                None
            },
            Some(p) => {
                proof {
                    lemma_entry_index(before, p as int);
                }
                let (_, v) = self.entries.remove(p);
                proof {
                    let after = self.entries@;
                    assert forall|i: int, j: int| 0 <= i < j < after.len() implies bytes_lt(
                        key_bytes(#[trigger] after[i].0@),
                        key_bytes(#[trigger] after[j].0@),
                    ) by {
                        let bi = if i < p { i } else { i + 1 };
                        let bj = if j < p { j } else { j + 1 };
                        assert(after[i] == before[bi] && after[j] == before[bj]);
                    }
                    assert forall|x: Seq<char>| #![auto] entries_map(after).contains_key(x)
                        == entries_map(before).remove(key@).contains_key(x) by {
                        if has_entry(before, x) {
                            let j = entry_index(before, x);
                            if j < p {
                                assert(after[j] == before[j]);
                            } else if j > p {
                                assert(after[j - 1] == before[j]);
                            }
                        }
                        if has_entry(after, x) {
                            let j = entry_index(after, x);
                            let bj = if j < p { j } else { j + 1 };
                            assert(after[j] == before[bj]);
                            lemma_ascending_distinct(before, bj, p as int);
                        }
                    }
                    assert forall|x: Seq<char>| #![auto] entries_map(after).contains_key(x) implies
                        entries_map(after)[x] == entries_map(before).remove(key@)[x] by {
                        let j = entry_index(after, x);
                        lemma_entry_index(after, j);
                        let bj = if j < p { j } else { j + 1 };
                        assert(after[j] == before[bj]);
                        lemma_entry_index(before, bj);
                    }
                    assert(entries_map(after) =~= entries_map(before).remove(key@));
                }
                Some(v)
            },
        }
    }
}

} // verus!
