//! Last-writer-wins replicated values: a single register, and a map whose
//! keys each behave as a register that may also hold a tombstone.

use vstd::prelude::*;
use crate::sync::hlc::{HlcTimestamp, hlc_lt, hlc_same};
use crate::text::same_text;

verus! {

/// The order of timestamps is strict and total on timestamps that differ.
pub proof fn lemma_hlc_order(a: HlcTimestamp, b: HlcTimestamp, c: HlcTimestamp)
    ensures
        !hlc_lt(a, a),
        !(hlc_lt(a, b) && hlc_lt(b, a)),
        hlc_lt(a, b) && hlc_lt(b, c) ==> hlc_lt(a, c),
        !hlc_same(a, b) ==> hlc_lt(a, b) || hlc_lt(b, a),
        hlc_same(a, b) ==> !hlc_lt(a, b) && !hlc_lt(b, a),
{
    crate::sync::node::lemma_name_order(a.node_id.name(), b.node_id.name(), c.node_id.name());
    crate::sync::node::lemma_name_order(b.node_id.name(), a.node_id.name(), c.node_id.name());
    crate::sync::node::lemma_name_order(a.node_id.name(), a.node_id.name(), a.node_id.name());
}

/// A last-writer-wins register: a value and the timestamp of its write.
#[derive(Clone, Debug)]
pub struct LWWRegister<T> {
    pub value: T,
    pub timestamp: HlcTimestamp,
}

/// `r` is what merging `other` into `mine` leaves: a clone of the other's
/// value with its timestamp when that timestamp is strictly later, else
/// `mine` unchanged.
pub open spec fn register_merged<T: Clone>(mine: LWWRegister<T>, other: LWWRegister<T>, r: LWWRegister<T>) -> bool {
    if hlc_lt(mine.timestamp, other.timestamp) {
        &&& cloned(other.value, r.value)
        &&& hlc_same(r.timestamp, other.timestamp)
    } else {
        r == mine
    }
}

impl<T: Clone> LWWRegister<T> {
    pub fn new(value: T, timestamp: HlcTimestamp) -> (r: LWWRegister<T>)
        ensures
            r.value == value,
            r.timestamp == timestamp,
    {
        LWWRegister { value, timestamp }
    }

    /// Write the value if its timestamp is strictly later than the current
    /// one; `true` when it was written.
    pub fn set(&mut self, value: T, timestamp: HlcTimestamp) -> (r: bool)
        ensures
            r == hlc_lt(old(self).timestamp, timestamp),
            r ==> final(self).value == value && final(self).timestamp == timestamp,
            !r ==> *final(self) == *old(self),
    {
        if self.timestamp.is_before(&timestamp) {
            self.value = value;
            self.timestamp = timestamp;
            true
        } else {
            false
        }
    }

    /// Take the other register's value if its timestamp is strictly later.
    pub fn merge(&mut self, other: &LWWRegister<T>)
        ensures
            register_merged(*old(self), *other, *final(self)),
    {
        if self.timestamp.is_before(&other.timestamp) {
            self.value = other.value.clone();
            self.timestamp = other.timestamp.copy();
        }
    }

    /// The current value.
    pub fn get(&self) -> (r: &T)
        ensures
            *r == self.value,
    {
        &self.value
    }
}

/// One key of an LWW map: a value, or a tombstone, and its timestamp.
#[derive(Clone, Debug)]
pub struct LWWEntry<V> {
    pub value: Option<V>,
    pub timestamp: HlcTimestamp,
}

/// A last-writer-wins map from text keys: each key keeps the write (or
/// removal) with the latest timestamp.
#[derive(Clone, Debug)]
pub struct LWWMap<V> {
    entries: Vec<(String, LWWEntry<V>)>,
}

/// No key occurs twice.
pub open spec fn keys_distinct<V>(s: Seq<(String, LWWEntry<V>)>) -> bool {
    forall|i: int, j: int| 0 <= i < j < s.len() ==> #[trigger] s[i].0@ != #[trigger] s[j].0@
}

/// The map that the entries describe.
pub open spec fn entry_map<V>(s: Seq<(String, LWWEntry<V>)>) -> Map<Seq<char>, LWWEntry<V>> {
    Map::new(
        |k: Seq<char>| exists|i: int| 0 <= i < s.len() && #[trigger] s[i].0@ == k,
        |k: Seq<char>| s[choose|i: int| 0 <= i < s.len() && #[trigger] s[i].0@ == k].1,
    )
}

/// A write with timestamp `t` is applied to key `k`: the key is absent or
/// holds a strictly earlier timestamp.
pub open spec fn write_applies<V>(m: Map<Seq<char>, LWWEntry<V>>, k: Seq<char>, t: HlcTimestamp) -> bool {
    !m.contains_key(k) || hlc_lt(m[k].timestamp, t)
}

proof fn lemma_entry_map_at<V>(s: Seq<(String, LWWEntry<V>)>, i: int)
    requires
        keys_distinct(s),
        0 <= i < s.len(),
    ensures
        entry_map(s).contains_key(s[i].0@),
        entry_map(s)[s[i].0@] == s[i].1,
{
    let k = s[i].0@;
    let j = choose|j: int| 0 <= j < s.len() && #[trigger] s[j].0@ == k;
    if j != i {
        if j < i {
            assert(s[j].0@ != s[i].0@);
        } else {
            assert(s[i].0@ != s[j].0@);
        }
    }
}

/// The pair is a live entry among the first `n`.
pub open spec fn from_live_entry<V>(es: Seq<(String, LWWEntry<V>)>, n: int, e: (&String, &V)) -> bool {
    exists|b: int| 0 <= b < n && #[trigger] es[b].0@ == e.0@ && es[b].1.value == Some(*e.1)
}

/// The keys of the first `n` entries.
pub open spec fn prefix_keys<V>(s: Seq<(String, LWWEntry<V>)>, n: int) -> Set<Seq<char>> {
    Set::new(|q: Seq<char>| exists|j: int| 0 <= j < n && #[trigger] s[j].0@ == q)
}

proof fn lemma_prefix_keys_step<V>(s: Seq<(String, LWWEntry<V>)>, n: int)
    requires
        0 <= n < s.len(),
    ensures
        prefix_keys(s, n + 1) == prefix_keys(s, n).insert(s[n].0@),
{
    assert forall|q: Seq<char>| prefix_keys(s, n + 1).contains(q) <==> prefix_keys(s, n).insert(s[n].0@).contains(q) by {
        if prefix_keys(s, n + 1).contains(q) {
            let j = choose|j: int| 0 <= j < n + 1 && #[trigger] s[j].0@ == q;
            if j < n {
                assert(prefix_keys(s, n).contains(q));
            }
        }
        if prefix_keys(s, n).contains(q) {
            let j = choose|j: int| 0 <= j < n && #[trigger] s[j].0@ == q;
            assert(s[j].0@ == q);
        }
        if q == s[n].0@ {
            assert(s[n].0@ == q);
        }
    }
    assert(prefix_keys(s, n + 1) =~= prefix_keys(s, n).insert(s[n].0@));
}

/// What key `k` holds after merging `other` into `mine`: the other's entry
/// (its timestamp, and a clone of its value) where its write applies, else
/// the entry it had.
pub open spec fn merged_entry<V: Clone>(
    mine: Map<Seq<char>, LWWEntry<V>>,
    other: Map<Seq<char>, LWWEntry<V>>,
    k: Seq<char>,
    e: LWWEntry<V>,
) -> bool {
    if other.contains_key(k) && write_applies(mine, k, other[k].timestamp) {
        &&& hlc_same(e.timestamp, other[k].timestamp)
        &&& match (other[k].value, e.value) {
            (Some(a), Some(b)) => cloned(a, b),
            (None, None) => true,
            _ => false,
        }
    } else {
        e == mine[k]
    }
}

impl<V: Clone> LWWMap<V> {
    /// No key occurs twice.
    pub closed spec fn wf(&self) -> bool {
        keys_distinct(self.entries@)
    }

    /// Each key's latest write or tombstone.
    pub closed spec fn view(&self) -> Map<Seq<char>, LWWEntry<V>> {
        entry_map(self.entries@)
    }

    pub fn new() -> (r: LWWMap<V>)
        ensures
            r.wf(),
            r.view() == Map::<Seq<char>, LWWEntry<V>>::empty(),
    {
        let r = LWWMap { entries: Vec::new() };
        proof {
            assert(r.view() =~= Map::<Seq<char>, LWWEntry<V>>::empty());
        }
        r
    }

    fn find(&self, key: &str) -> (r: Option<usize>)
        requires
            self.wf(),
        ensures
            match r {
                Some(i) => i < self.entries@.len() && self.entries@[i as int].0@ == key@,
                None => !self.view().contains_key(key@),
            },
    {
        let mut i: usize = 0;
        while i < self.entries.len()
            invariant
                i <= self.entries.len(),
                forall|j: int| 0 <= j < i ==> #[trigger] self.entries@[j].0@ != key@,
            decreases self.entries.len() - i,
        {
            if same_text(self.entries[i].0.as_str(), key) {
                return Some(i);
            }
            i = i + 1;
        }
        None
    }

    /// Put an entry for a key, replacing the one it has.
    fn put(&mut self, key: String, entry: LWWEntry<V>)
        requires
            old(self).wf(),
        ensures
            final(self).wf(),
            final(self).view() == old(self).view().insert(key@, entry),
    {
        let ghost k = key@;
        let ghost old_map = self.view();
        match self.find(key.as_str()) {
            Some(i) => {
                let ghost before = self.entries@;
                self.entries.set(i, (key, entry));
                proof {
                    assert forall|a: int, b: int| 0 <= a < b < self.entries@.len() implies
                        #[trigger] self.entries@[a].0@ != #[trigger] self.entries@[b].0@ by {
                        if a != i as int && b != i as int {
                            assert(before[a].0@ != before[b].0@);
                        } else if a == i as int {
                            assert(before[a].0@ != before[b].0@);
                        } else {
                            assert(before[a].0@ != before[b].0@);
                        }
                    }
                    assert forall|q: Seq<char>| #[trigger] self.view().contains_key(q) <==> old_map.insert(k, entry).contains_key(q) by {
                        if old_map.contains_key(q) {
                            let j = choose|j: int| 0 <= j < before.len() && #[trigger] before[j].0@ == q;
                            assert(self.entries@[j].0@ == q);
                        }
                        if self.view().contains_key(q) {
                            let j = choose|j: int| 0 <= j < self.entries@.len() && #[trigger] self.entries@[j].0@ == q;
                            if j != i as int {
                                assert(before[j].0@ == q);
                            }
                        }
                    }
                    assert forall|q: Seq<char>| #[trigger] self.view().contains_key(q) implies self.view()[q] == old_map.insert(k, entry)[q] by {
                        let j = choose|j: int| 0 <= j < self.entries@.len() && #[trigger] self.entries@[j].0@ == q;
                        lemma_entry_map_at(self.entries@, j);
                        if j != i as int {
                            lemma_entry_map_at(before, j);
                        }
                    }
                    assert(self.view() =~= old_map.insert(k, entry));
                }
            },
            None => {
                let ghost before = self.entries@;
                self.entries.push((key, entry));
                proof {
                    let n = before.len() as int;
                    assert forall|a: int, b: int| 0 <= a < b < self.entries@.len() implies
                        #[trigger] self.entries@[a].0@ != #[trigger] self.entries@[b].0@ by {
                        if b == n {
                            assert(before[a].0@ != k) by {
                                if before[a].0@ == k {
                                    assert(old_map.contains_key(k));
                                }
                            }
                        } else {
                            assert(before[a].0@ != before[b].0@);
                        }
                    }
                    assert forall|q: Seq<char>| #[trigger] self.view().contains_key(q) <==> old_map.insert(k, entry).contains_key(q) by {
                        if old_map.contains_key(q) {
                            let j = choose|j: int| 0 <= j < before.len() && #[trigger] before[j].0@ == q;
                            assert(self.entries@[j].0@ == q);
                        }
                        if q == k {
                            assert(self.entries@[n].0@ == q);
                        }
                        if self.view().contains_key(q) {
                            let j = choose|j: int| 0 <= j < self.entries@.len() && #[trigger] self.entries@[j].0@ == q;
                            if j != n {
                                assert(before[j].0@ == q);
                            }
                        }
                    }
                    assert forall|q: Seq<char>| #[trigger] self.view().contains_key(q) implies self.view()[q] == old_map.insert(k, entry)[q] by {
                        let j = choose|j: int| 0 <= j < self.entries@.len() && #[trigger] self.entries@[j].0@ == q;
                        lemma_entry_map_at(self.entries@, j);
                        if j != n {
                            lemma_entry_map_at(before, j);
                        }
                    }
                    assert(self.view() =~= old_map.insert(k, entry));
                }
            },
        }
    }

    /// Write a value for a key unless the key holds a timestamp at or after
    /// `timestamp`; `true` when it was written.
    pub fn set(&mut self, key: String, value: V, timestamp: HlcTimestamp) -> (r: bool)
        requires
            old(self).wf(),
        ensures
            final(self).wf(),
            r == write_applies(old(self).view(), key@, timestamp),
            r ==> final(self).view() == old(self).view().insert(key@, LWWEntry { value: Some(value), timestamp }),
            !r ==> final(self).view() == old(self).view(),
    {
        match self.find(key.as_str()) {
            Some(i) => {
                proof {
                    lemma_entry_map_at(self.entries@, i as int);
                }
                if !self.entries[i].1.timestamp.is_before(&timestamp) {
                    return false;
                }
            },
            None => {},
        }
        self.put(key, LWWEntry { value: Some(value), timestamp });
        true
    }

    /// Tombstone a key unless it holds a timestamp at or after `timestamp`;
    /// `true` when the tombstone was written.
    pub fn remove(&mut self, key: &str, timestamp: HlcTimestamp) -> (r: bool)
        requires
            old(self).wf(),
        ensures
            final(self).wf(),
            r == write_applies(old(self).view(), key@, timestamp),
            r ==> final(self).view() == old(self).view().insert(key@, LWWEntry { value: None, timestamp }),
            !r ==> final(self).view() == old(self).view(),
    {
        match self.find(key) {
            Some(i) => {
                proof {
                    lemma_entry_map_at(self.entries@, i as int);
                }
                if !self.entries[i].1.timestamp.is_before(&timestamp) {
                    return false;
                }
            },
            None => {},
        }
        let k = crate::text::owned(key);
        self.put(k, LWWEntry { value: None, timestamp });
        true
    }

    /// The live value of a key: `None` if absent or tombstoned.
    pub fn get(&self, key: &str) -> (r: Option<&V>)
        requires
            self.wf(),
        ensures
            match r {
                Some(v) => self.view().contains_key(key@) && self.view()[key@].value == Some(*v),
                None => !self.view().contains_key(key@) || self.view()[key@].value is None,
            },
    {
        match self.find(key) {
            Some(i) => {
                proof {
                    lemma_entry_map_at(self.entries@, i as int);
                }
                match &self.entries[i].1.value {
                    Some(v) => Some(v),
                    None => None,
                }
            },
            None => None,
        }
    }

    /// Merge another map: per key, the other's entry is taken where this map
    /// lacks the key or holds a strictly earlier timestamp.
    pub fn merge(&mut self, other: &LWWMap<V>)
        requires
            old(self).wf(),
            other.wf(),
        ensures
            final(self).wf(),
            final(self).view().dom() == old(self).view().dom().union(other.view().dom()),
            forall|k: Seq<char>| #[trigger] final(self).view().contains_key(k) ==>
                merged_entry(old(self).view(), other.view(), k, final(self).view()[k]),
    {
        let ghost m0 = self.view();
        let ghost om = other.view();
        let mut i: usize = 0;
        proof {
            assert(prefix_keys(other.entries@, 0) =~= Set::<Seq<char>>::empty());
            assert(m0.dom().union(prefix_keys(other.entries@, 0)) =~= m0.dom());
        }
        while i < other.entries.len()
            invariant
                self.wf(),
                other.wf(),
                m0 == old(self).view(),
                om == other.view(),
                i <= other.entries.len(),
                self.view().dom() =~= m0.dom().union(prefix_keys(other.entries@, i as int)),
                forall|k: Seq<char>| #[trigger] self.view().contains_key(k) ==> {
                    if prefix_keys(other.entries@, i as int).contains(k) {
                        merged_entry(m0, om, k, self.view()[k])
                    } else {
                        self.view()[k] == m0[k]
                    }
                },
            decreases other.entries.len() - i,
        {
            let key = &other.entries[i].0;
            let oe = &other.entries[i].1;
            let ghost k = key@;
            let ghost before = self.view();
            proof {
                lemma_entry_map_at(other.entries@, i as int);
                lemma_prefix_keys_step(other.entries@, i as int);
                if prefix_keys(other.entries@, i as int).contains(k) {
                    let j = choose|j: int| 0 <= j < i && #[trigger] other.entries@[j].0@ == k;
                    assert(other.entries@[j].0@ != other.entries@[i as int].0@);
                }
                assert(before.contains_key(k) == m0.contains_key(k));
                if m0.contains_key(k) {
                    assert(before[k] == m0[k]);
                }
            }
            let take = match self.find(key.as_str()) {
                Some(j) => {
                    proof {
                        lemma_entry_map_at(self.entries@, j as int);
                    }
                    self.entries[j].1.timestamp.is_before(&oe.timestamp)
                },
                None => true,
            };
            assert(take == write_applies(m0, k, om[k].timestamp));
            if take {
                let v = match &oe.value {
                    Some(v) => Some(v.clone()),
                    None => None,
                };
                let entry = LWWEntry { value: v, timestamp: oe.timestamp.copy() };
                self.put(key.clone(), entry);
            }
            proof {
                assert forall|k2: Seq<char>| #[trigger] self.view().contains_key(k2) implies {
                    if prefix_keys(other.entries@, i + 1).contains(k2) {
                        merged_entry(m0, om, k2, self.view()[k2])
                    } else {
                        self.view()[k2] == m0[k2]
                    }
                } by {
                    if k2 != k {
                        assert(before.contains_key(k2));
                    }
                }
                assert(self.view().dom() =~= m0.dom().union(prefix_keys(other.entries@, i + 1)));
            }
            i = i + 1;
        }
        proof {
            assert(prefix_keys(other.entries@, other.entries@.len() as int) =~= om.dom());
        }
    }

    /// The live entries, as keys and values.
    pub fn entries(&self) -> (r: Vec<(&String, &V)>)
        requires
            self.wf(),
        ensures
            forall|i: int| 0 <= i < r@.len() ==> #[trigger] self.view().contains_key(r@[i].0@)
                && self.view()[r@[i].0@].value == Some(*r@[i].1),
            forall|k: Seq<char>| #[trigger] self.view().contains_key(k) && self.view()[k].value is Some ==>
                exists|i: int| 0 <= i < r@.len() && #[trigger] r@[i].0@ == k,
            forall|i: int, j: int| 0 <= i < j < r@.len() ==> #[trigger] r@[i].0@ != #[trigger] r@[j].0@,
    {
        let mut r: Vec<(&String, &V)> = Vec::new();
        let mut i: usize = 0;
        while i < self.entries.len()
            invariant
                self.wf(),
                i <= self.entries.len(),
                forall|a: int| 0 <= a < r@.len() ==> from_live_entry(self.entries@, i as int, #[trigger] r@[a]),
                forall|b: int| 0 <= b < i && (#[trigger] self.entries@[b]).1.value is Some ==>
                    exists|a: int| 0 <= a < r@.len() && #[trigger] r@[a].0@ == self.entries@[b].0@,
                forall|a: int, c: int| 0 <= a < c < r@.len() ==> #[trigger] r@[a].0@ != #[trigger] r@[c].0@,
            decreases self.entries.len() - i,
        {
            let e = &self.entries[i];
            let ghost before = r@;
            match &e.1.value {
                Some(v) => {
                    r.push((&e.0, v));
                },
                None => {},
            }
            proof {
                assert forall|a: int| 0 <= a < r@.len() implies from_live_entry(self.entries@, i + 1, #[trigger] r@[a]) by {
                    if a < before.len() {
                        assert(r@[a] == before[a]);
                        assert(from_live_entry(self.entries@, i as int, before[a]));
                        let b = choose|b: int| 0 <= b < i && #[trigger] self.entries@[b].0@ == before[a].0@
                            && self.entries@[b].1.value == Some(*before[a].1);
                        assert(self.entries@[b].0@ == r@[a].0@);
                    } else {
                        assert(self.entries@[i as int].0@ == r@[a].0@);
                    }
                }
                assert forall|a: int, c: int| 0 <= a < c < r@.len() implies #[trigger] r@[a].0@ != #[trigger] r@[c].0@ by {
                    if c == before.len() {
                        assert(r@[a] == before[a]);
                        assert(from_live_entry(self.entries@, i as int, before[a]));
                        let b = choose|b: int| 0 <= b < i && #[trigger] self.entries@[b].0@ == before[a].0@
                            && self.entries@[b].1.value == Some(*before[a].1);
                        assert(self.entries@[b].0@ != self.entries@[i as int].0@);
                    } else {
                        assert(r@[a] == before[a] && r@[c] == before[c]);
                    }
                }
                assert forall|b: int| 0 <= b < i + 1 && (#[trigger] self.entries@[b]).1.value is Some implies
                    exists|a: int| 0 <= a < r@.len() && #[trigger] r@[a].0@ == self.entries@[b].0@ by {
                    if b == i as int {
                        assert(r@[before.len() as int].0@ == self.entries@[b].0@);
                    } else {
                        let a = choose|a: int| 0 <= a < before.len() && #[trigger] before[a].0@ == self.entries@[b].0@;
                        assert(r@[a] == before[a]);
                    }
                }
            }
            i = i + 1;
        }
        proof {
            assert forall|a: int| 0 <= a < r@.len() implies #[trigger] self.view().contains_key(r@[a].0@)
                && self.view()[r@[a].0@].value == Some(*r@[a].1) by {
                assert(from_live_entry(self.entries@, self.entries@.len() as int, r@[a]));
                let b = choose|b: int| 0 <= b < self.entries@.len() && #[trigger] self.entries@[b].0@ == r@[a].0@
                    && self.entries@[b].1.value == Some(*r@[a].1);
                lemma_entry_map_at(self.entries@, b);
            }
            assert forall|k: Seq<char>| #[trigger] self.view().contains_key(k) && self.view()[k].value is Some implies
                exists|a: int| 0 <= a < r@.len() && #[trigger] r@[a].0@ == k by {
                let b = choose|b: int| 0 <= b < self.entries@.len() && #[trigger] self.entries@[b].0@ == k;
                lemma_entry_map_at(self.entries@, b);
            }
        }
        r
    }

    /// Number of live (not tombstoned) keys.
    pub fn len(&self) -> (r: usize)
        requires
            self.wf(),
        ensures
            r == self.view().dom().filter(|k: Seq<char>| self.view()[k].value is Some).len(),
    {
        let live = self.entries();
        proof {
            let m = self.view();
            let s = m.dom().filter(|k: Seq<char>| m[k].value is Some);
            let keys = live@.map_values(|e: (&String, &V)| e.0@);
            assert forall|a: int, c: int| 0 <= a < c < keys.len() implies keys[a] != keys[c] by {
                assert(live@[a].0@ != live@[c].0@);
            }
            assert(keys.no_duplicates());
            assert(keys.to_set() =~= s) by {
                assert forall|k: Seq<char>| keys.to_set().contains(k) <==> s.contains(k) by {
                    if s.contains(k) {
                        let a = choose|a: int| 0 <= a < live@.len() && #[trigger] live@[a].0@ == k;
                        assert(keys[a] == k);
                    }
                    if keys.to_set().contains(k) {
                        let a = choose|a: int| 0 <= a < keys.len() && keys[a] == k;
                        assert(live@[a].0@ == k);
                    }
                }
            }
            keys.unique_seq_to_set();
        }
        live.len()
    }

    /// No key is live.
    pub fn is_empty(&self) -> (r: bool)
        requires
            self.wf(),
        ensures
            r == (self.view().dom().filter(|k: Seq<char>| self.view()[k].value is Some).len() == 0),
    {
        self.len() == 0
    }
}

impl<V: Clone> Default for LWWMap<V> {
    /// The empty map.
    fn default() -> (r: LWWMap<V>)
        ensures
            r.wf(),
            r.view() == Map::<Seq<char>, LWWEntry<V>>::empty(),
    {
        LWWMap::new()
    }
}

} // verus!
