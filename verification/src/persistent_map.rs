//! Keyed persistent stores. Each store is an association list with distinct
//! keys whose abstract view is a [`Map`], so contracts speak of map
//! insertions and removals while the code does linear search.

use vstd::prelude::*;

use crate::storage::{Allowance, Txn};

verus! {

/// The map described by a sequence of key-value entries; later entries win.
pub open spec fn assoc_map<K, V>(s: Seq<(K, V)>) -> Map<K, V>
    decreases s.len(),
{
    if s.len() == 0 {
        Map::empty()
    } else {
        assoc_map(s.drop_last()).insert(s.last().0, s.last().1)
    }
}

/// Distinctness of the keys of an entry sequence.
pub open spec fn distinct_keys<K, V>(s: Seq<(K, V)>) -> bool {
    forall|i: int, j: int| 0 <= i < j < s.len() ==> s[i].0 != s[j].0
}

proof fn lemma_assoc_map_finite<K, V>(s: Seq<(K, V)>)
    ensures
        assoc_map(s).dom().finite(),
    decreases s.len(),
{
    if s.len() > 0 {
        lemma_assoc_map_finite(s.drop_last());
    }
}

proof fn lemma_assoc_map_contains<K, V>(s: Seq<(K, V)>, k: K)
    ensures
        assoc_map(s).contains_key(k) <==> exists|i: int| 0 <= i < s.len() && s[i].0 == k,
    decreases s.len(),
{
    if s.len() > 0 {
        lemma_assoc_map_contains(s.drop_last(), k);
        if s.last().0 == k {
            assert(s[s.len() - 1].0 == k);
        } else {
            if assoc_map(s).contains_key(k) {
                let i = choose|i: int| 0 <= i < s.drop_last().len() && s.drop_last()[i].0 == k;
                assert(s[i].0 == k);
            }
            if exists|i: int| 0 <= i < s.len() && s[i].0 == k {
                let i = choose|i: int| 0 <= i < s.len() && s[i].0 == k;
                assert(i < s.len() - 1);
                assert(s.drop_last()[i].0 == k);
            }
        }
    }
}

proof fn lemma_assoc_map_index<K, V>(s: Seq<(K, V)>, i: int)
    requires
        distinct_keys(s),
        0 <= i < s.len(),
    ensures
        assoc_map(s).contains_key(s[i].0),
        assoc_map(s)[s[i].0] == s[i].1,
    decreases s.len(),
{
    if i == s.len() - 1 {
    } else {
        assert(s.drop_last()[i] == s[i]);
        lemma_assoc_map_index(s.drop_last(), i);
        assert(s.last().0 != s[i].0);
    }
}

proof fn lemma_assoc_map_update<K, V>(s: Seq<(K, V)>, i: int, v: V)
    requires
        distinct_keys(s),
        0 <= i < s.len(),
    ensures
        assoc_map(s.update(i, (s[i].0, v))) =~= assoc_map(s).insert(s[i].0, v),
    decreases s.len(),
{
    let k = s[i].0;
    let s2 = s.update(i, (k, v));
    if i == s.len() - 1 {
        assert(s2.drop_last() =~= s.drop_last());
        assert(s2.last() == (k, v));
    } else {
        assert(s2.drop_last() =~= s.drop_last().update(i, (k, v)));
        assert(s.drop_last()[i] == s[i]);
        lemma_assoc_map_update(s.drop_last(), i, v);
        assert(s.last().0 != k);
        assert(s2.last() == s.last());
    }
}

proof fn lemma_assoc_map_push<K, V>(s: Seq<(K, V)>, k: K, v: V)
    ensures
        assoc_map(s.push((k, v))) =~= assoc_map(s).insert(k, v),
{
    assert(s.push((k, v)).drop_last() =~= s);
    assert(s.push((k, v)).last() == (k, v));
}

proof fn lemma_assoc_map_remove_at<K, V>(s: Seq<(K, V)>, i: int)
    requires
        distinct_keys(s),
        0 <= i < s.len(),
    ensures
        assoc_map(s.remove(i)) =~= assoc_map(s).remove(s[i].0),
    decreases s.len(),
{
    let k = s[i].0;
    lemma_assoc_map_finite(s.remove(i));
    lemma_assoc_map_finite(s);
    if i == s.len() - 1 {
        assert(s.remove(i) =~= s.drop_last());
        lemma_assoc_map_contains(s.drop_last(), k);
        assert(forall|j: int| 0 <= j < s.drop_last().len() ==> s.drop_last()[j] == s[j]);
        assert(!assoc_map(s.drop_last()).contains_key(k));
    } else {
        assert(s.remove(i).drop_last() =~= s.drop_last().remove(i));
        assert(s.drop_last()[i] == s[i]);
        lemma_assoc_map_remove_at(s.drop_last(), i);
        assert(s.remove(i).last() == s.last());
        assert(s.last().0 != k);
    }
}

/// A persistent keyed record store with `u64` keys.
pub struct PersistentMap<V> {
    entries: Vec<(u64, V)>,
}

impl<V> PersistentMap<V> {
    #[verifier::type_invariant]
    spec fn inv(self) -> bool {
        distinct_keys(self.entries@)
    }
}

impl<V: Copy> PersistentMap<V> {
    /// An empty store.
    pub fn new() -> (r: Self)
        ensures
            r@ == Map::<u64, V>::empty(),
    {
        PersistentMap { entries: Vec::new() }
    }

    /// Whether a record is stored under `key`.
    pub fn has(&self, key: u64) -> (r: bool)
        ensures
            r == self@.contains_key(key),
    {
        self.get(key).is_some()
    }

    /// The record stored under `key`, if any.
    pub fn get(&self, key: u64) -> (r: Option<V>)
        ensures
            match r {
                Some(v) => self@.contains_key(key) && self@[key] == v,
                None => !self@.contains_key(key),
            },
    {
        let n = self.entries.len();
        let mut i: usize = 0;
        while i < n
            invariant
                n == self.entries.len(),
                forall|j: int| 0 <= j < i ==> self.entries@[j].0 != key,
            decreases n - i,
        {
            if self.entries[i].0 == key {
                proof {
                    use_type_invariant(self);
                    lemma_assoc_map_index(self.entries@, i as int);
                }
                return Some(self.entries[i].1);
            }
            i = i + 1;
        }
        proof {
            lemma_assoc_map_contains(self.entries@, key);
        }
        None
    }

    /// Store `value` under `key`, replacing any previous record.
    pub fn set(&mut self, key: u64, value: V)
        ensures
            final(self)@ == old(self)@.insert(key, value),
    {
        let n = self.entries.len();
        let mut i: usize = 0;
        while i < n
            invariant
                self == old(self),
                n == self.entries.len(),
                forall|j: int| 0 <= j < i ==> self.entries@[j].0 != key,
            decreases n - i,
        {
            if self.entries[i].0 == key {
                proof {
                    use_type_invariant(&*self);
                    lemma_assoc_map_update(self.entries@, i as int, value);
                    assert(forall|j: int|
                        0 <= j < self.entries@.len() && j != i ==> self.entries@.update(
                            i as int,
                            (key, value),
                        )[j] == self.entries@[j]);
                    assert(distinct_keys(self.entries@.update(i as int, (key, value))));
                }
                let mut entries: Vec<(u64, V)> = Vec::new();
                core::mem::swap(&mut self.entries, &mut entries);
                entries[i] = (key, value);
                core::mem::swap(&mut self.entries, &mut entries);
                return ;
            }
            i = i + 1;
        }
        proof {
            use_type_invariant(&*self);
            lemma_assoc_map_push(self.entries@, key, value);
        }
        let mut entries: Vec<(u64, V)> = Vec::new();
        core::mem::swap(&mut self.entries, &mut entries);
        entries.push((key, value));
        core::mem::swap(&mut self.entries, &mut entries);
    }

    /// Remove the record under `key`, if any.
    pub fn remove(&mut self, key: u64)
        ensures
            final(self)@ == old(self)@.remove(key),
    {
        let n = self.entries.len();
        let mut i: usize = 0;
        while i < n
            invariant
                self == old(self),
                n == self.entries.len(),
                forall|j: int| 0 <= j < i ==> self.entries@[j].0 != key,
            decreases n - i,
        {
            if self.entries[i].0 == key {
                proof {
                    use_type_invariant(&*self);
                    lemma_assoc_map_remove_at(self.entries@, i as int);
                }
                let mut entries: Vec<(u64, V)> = Vec::new();
                core::mem::swap(&mut self.entries, &mut entries);
                entries.remove(i);
                core::mem::swap(&mut self.entries, &mut entries);
                return ;
            }
            i = i + 1;
        }
        proof {
            lemma_assoc_map_contains(self.entries@, key);
            lemma_assoc_map_finite(self.entries@);
            assert(self@ =~= self@.remove(key));
        }
    }
}

impl<V: Copy> View for PersistentMap<V> {
    type V = Map<u64, V>;

    closed spec fn view(&self) -> Map<u64, V> {
        assoc_map(self.entries@)
    }
}

/// The view of a store has a finite domain.
pub broadcast proof fn lemma_persistent_map_view_finite<V: Copy>(m: PersistentMap<V>)
    ensures
        #[trigger] m@.dom().finite(),
{
    lemma_assoc_map_finite(m.entries@);
}

/// A persistent allowance store keyed by granter and spender.
pub struct TxnMap {
    entries: Vec<(Txn, Allowance)>,
}

impl TxnMap {
    #[verifier::type_invariant]
    spec fn inv(self) -> bool {
        distinct_keys(self.entries@)
    }

    /// An empty store.
    pub fn new() -> (r: Self)
        ensures
            r@ == Map::<Txn, Allowance>::empty(),
    {
        TxnMap { entries: Vec::new() }
    }

    /// The allowance stored under `key`, if any.
    pub fn get(&self, key: Txn) -> (r: Option<Allowance>)
        ensures
            match r {
                Some(v) => self@.contains_key(key) && self@[key] == v,
                None => !self@.contains_key(key),
            },
    {
        let n = self.entries.len();
        let mut i: usize = 0;
        while i < n
            invariant
                n == self.entries.len(),
                forall|j: int| 0 <= j < i ==> self.entries@[j].0 != key,
            decreases n - i,
        {
            if self.entries[i].0 == key {
                proof {
                    use_type_invariant(self);
                    lemma_assoc_map_index(self.entries@, i as int);
                }
                return Some(self.entries[i].1);
            }
            i = i + 1;
        }
        proof {
            lemma_assoc_map_contains(self.entries@, key);
        }
        None
    }

    /// Store `value` under `key`, replacing any previous allowance.
    pub fn set(&mut self, key: Txn, value: Allowance)
        ensures
            final(self)@ == old(self)@.insert(key, value),
    {
        let n = self.entries.len();
        let mut i: usize = 0;
        while i < n
            invariant
                self == old(self),
                n == self.entries.len(),
                forall|j: int| 0 <= j < i ==> self.entries@[j].0 != key,
            decreases n - i,
        {
            if self.entries[i].0 == key {
                proof {
                    use_type_invariant(&*self);
                    lemma_assoc_map_update(self.entries@, i as int, value);
                    assert(forall|j: int|
                        0 <= j < self.entries@.len() && j != i ==> self.entries@.update(
                            i as int,
                            (key, value),
                        )[j] == self.entries@[j]);
                    assert(distinct_keys(self.entries@.update(i as int, (key, value))));
                }
                let mut entries: Vec<(Txn, Allowance)> = Vec::new();
                core::mem::swap(&mut self.entries, &mut entries);
                entries[i] = (key, value);
                core::mem::swap(&mut self.entries, &mut entries);
                return ;
            }
            i = i + 1;
        }
        proof {
            use_type_invariant(&*self);
            lemma_assoc_map_push(self.entries@, key, value);
        }
        let mut entries: Vec<(Txn, Allowance)> = Vec::new();
        core::mem::swap(&mut self.entries, &mut entries);
        entries.push((key, value));
        core::mem::swap(&mut self.entries, &mut entries);
    }
}

impl View for TxnMap {
    type V = Map<Txn, Allowance>;

    closed spec fn view(&self) -> Map<Txn, Allowance> {
        assoc_map(self.entries@)
    }
}

} // verus!
