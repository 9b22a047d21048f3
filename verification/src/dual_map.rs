//! A map with two keys per value.

use std::collections::hash_map::Entry;
use std::collections::HashMap;
use std::hash::Hash;
use vstd::prelude::*;
use vstd::std_specs::hash::obeys_key_model;

verus! {

broadcast use vstd::std_specs::hash::group_hash_axioms;

/// A map where each value can be retrieved by two independent keys.
/// Lookups for a primary key are faster than those for a secondary key.
#[derive(Debug, Clone)]
pub struct DualHashMap<K1, K2, V> {
    sec_to_prim: HashMap<K2, K1>,
    prim_to_val: HashMap<K1, (K2, V)>,
}

/// Whether cloning a key gives the same key.
pub open spec fn clones_exactly<K: Clone>() -> bool {
    forall|a: K, b: K| #[trigger] cloned(a, b) ==> a == b
}

impl<K1, K2, V> View for DualHashMap<K1, K2, V> {
    type V = Map<K1, (K2, V)>;

    /// The secondary key and the value of each primary key.
    closed spec fn view(&self) -> Map<K1, (K2, V)> {
        self.prim_to_val@
    }
}

/// `m` without the entries of `k1` and of `k2`, and with an entry for both of them.
pub open spec fn inserted<K1, K2, V>(
    m: Map<K1, (K2, V)>,
    k1: K1,
    k2: K2,
    value: V,
) -> Map<K1, (K2, V)> {
    without_sec(m, k2).insert(k1, (k2, value))
}

/// `m` without the entry of the secondary key `k2`.
pub open spec fn without_sec<K1, K2, V>(m: Map<K1, (K2, V)>, k2: K2) -> Map<K1, (K2, V)> {
    m.restrict(m.dom().filter(|k1: K1| m[k1].0 != k2))
}

/// Whether `k1` is the primary key of the entry with the secondary key `k2`.
pub open spec fn paired<K1, K2, V>(m: Map<K1, (K2, V)>, k1: K1, k2: K2) -> bool {
    m.contains_key(k1) && m[k1].0 == k2
}

impl<K1, K2, V> DualHashMap<K1, K2, V> where K1: Eq + Hash + Clone, K2: Eq + Hash + Clone {
    /// Both types of keys can be told apart by hash and equality, and are cloned faithfully.
    pub open spec fn valid_keys() -> bool {
        &&& obeys_key_model::<K1>()
        &&& obeys_key_model::<K2>()
        &&& clones_exactly::<K1>()
        &&& clones_exactly::<K2>()
    }

    /// The two maps are inverse to each other.
    pub closed spec fn wf(&self) -> bool {
        &&& Self::valid_keys()
        &&& self.prim_to_val@.dom().finite()
        &&& forall|k1: K1| #[trigger]
            self.prim_to_val@.contains_key(k1) ==> self.sec_to_prim@.contains_key(
                self.prim_to_val@[k1].0,
            ) && self.sec_to_prim@[self.prim_to_val@[k1].0] == k1
        &&& forall|k2: K2| #[trigger]
            self.sec_to_prim@.contains_key(k2) ==> self.prim_to_val@.contains_key(
                self.sec_to_prim@[k2],
            ) && self.prim_to_val@[self.sec_to_prim@[k2]].0 == k2
    }

    /// Whether some entry has the secondary key `k2`.
    pub open spec fn spec_contains_sec(&self, k2: K2) -> bool {
        exists|k1: K1| #[trigger] paired(self@, k1, k2)
    }

    pub fn new() -> (m: Self)
        requires
            Self::valid_keys(),
        ensures
            m.wf(),
            m@ == Map::<K1, (K2, V)>::empty(),
    {
        DualHashMap { sec_to_prim: HashMap::new(), prim_to_val: HashMap::new() }
    }

    pub fn with_capacity(capacity: usize) -> (m: Self)
        requires
            Self::valid_keys(),
        ensures
            m.wf(),
            m@ == Map::<K1, (K2, V)>::empty(),
    {
        DualHashMap {
            sec_to_prim: HashMap::with_capacity(capacity),
            prim_to_val: HashMap::with_capacity(capacity),
        }
    }

    /// No secondary key belongs to two entries.
    pub proof fn law_secondary_keys_are_unique(&self)
        requires
            self.wf(),
        ensures
            forall|a: K1, b: K1|
                self@.contains_key(a) && self@.contains_key(b) && #[trigger] self@[a].0
                    == #[trigger] self@[b].0 ==> a == b,
    {
    }

    /// Removes the entry corresponding to the primary key `k1`, returning its previous value and secondary key.
    pub fn remove_prim(&mut self, k1: &K1) -> (r: Option<(K2, V)>)
        requires
            old(self).wf(),
        ensures
            final(self).wf(),
            final(self)@ == old(self)@.remove(*k1),
            r == (if old(self)@.contains_key(*k1) {
                Some(old(self)@[*k1])
            } else {
                None
            }),
    {
        match self.prim_to_val.remove(k1) {
            Some((k2, v)) => {
                self.sec_to_prim.remove(&k2);
                Some((k2, v))
            },
            None => {
                proof {
                    assert(self.prim_to_val@ =~= old(self).prim_to_val@);
                }
                None
            },
        }
    }

    /// Removes the entry corresponding to the secondary key `k2`, returning its previous value and primary key.
    pub fn remove_sec(&mut self, k2: &K2) -> (r: Option<(K1, V)>)
        requires
            old(self).wf(),
        ensures
            final(self).wf(),
            final(self)@ == without_sec(old(self)@, *k2),
            match r {
                Some((k1, v)) => paired(old(self)@, k1, *k2) && v == old(self)@[k1].1 && final(self)@
                    == old(self)@.remove(k1),
                None => !old(self).spec_contains_sec(*k2) && final(self)@ == old(self)@,
            },
    {
        match self.sec_to_prim.remove(k2) {
            Some(k1) => match self.prim_to_val.remove(&k1) {
                Some((_, v)) => {
                    proof {
                        assert(paired(old(self)@, k1, *k2));
                        assert(self@ =~= without_sec(old(self)@, *k2));
                    }
                    Some((k1, v))
                },
                None => None,
            },
            None => {
                proof {
                    assert(self.sec_to_prim@ =~= old(self).sec_to_prim@);
                    assert forall|k1: K1| !#[trigger] paired(old(self)@, k1, *k2) by {}
                    assert(self@ =~= without_sec(old(self)@, *k2));
                }
                None
            },
        }
    }

    /// Inserts a value mapped to both `k1` and `k2`.
    /// If either key already exists, their respective previous entries are removed.
    pub fn insert(&mut self, k1: K1, k2: K2, value: V)
        requires
            old(self).wf(),
        ensures
            final(self).wf(),
            final(self)@ == inserted(old(self)@, k1, k2, value),
    {
        // Remove any related old entries from both maps. Just inserting into both maps could leave orphaned entries.
        self.remove_prim(&k1);
        self.remove_sec(&k2);

        let sec: K2 = k2.clone();
        let prim: K1 = k1.clone();
        proof {
            assert(cloned(k2, sec));
            assert(cloned(k1, prim));
        }
        let ghost before = *self;
        proof {
            assert forall|k: K1| #[trigger] before@.contains_key(k) implies before@[k].0 != k2 && k
                != k1 by {}
            assert(!before.sec_to_prim@.contains_key(k2));
        }
        self.sec_to_prim.insert(sec, prim);
        self.prim_to_val.insert(k1, (k2, value));
        proof {
            assert(self@ =~= inserted(old(self)@, k1, k2, value));
        }
    }

    /// Returns a reference to the value corresponding to the primary key `k1`.
    pub fn get_prim(&self, k1: &K1) -> (r: Option<(&K2, &V)>)
        requires
            self.wf(),
        ensures
            match r {
                Some((k2, v)) => self@.contains_key(*k1) && self@[*k1] == (*k2, *v),
                None => !self@.contains_key(*k1),
            },
    {
        match self.prim_to_val.get(k1) {
            Some(entry) => Some((&entry.0, &entry.1)),
            None => None,
        }
    }

    /// Returns a reference to the value corresponding to the secondary key `k2`.
    pub fn get_sec(&self, k2: &K2) -> (r: Option<(&K1, &V)>)
        requires
            self.wf(),
        ensures
            match r {
                Some((k1, v)) => paired(self@, *k1, *k2) && self@[*k1].1 == *v,
                None => !self.spec_contains_sec(*k2),
            },
    {
        match self.sec_to_prim.get(k2) {
            Some(k1) => match self.prim_to_val.get(k1) {
                Some(entry) => Some((k1, &entry.1)),
                None => None,
            },
            None => None,
        }
    }

    /// Returns a mutable reference to the value corresponding to the primary key `k1`.
    pub fn get_prim_mut(&mut self, k1: &K1) -> (r: Option<(&K2, &mut V)>)
        requires
            old(self).wf(),
        ensures
            final(self).wf(),
            match r {
                Some((k2, v)) => {
                    &&& old(self)@.contains_key(*k1)
                    &&& old(self)@[*k1] == (*k2, *v)
                    &&& final(self)@ == old(self)@.insert(*k1, (*k2, *final(v)))
                },
                None => !old(self)@.contains_key(*k1) && final(self)@ == old(self)@,
            },
    {
        let key: K1 = k1.clone();
        proof {
            assert(cloned(*k1, key));
        }
        match self.prim_to_val.entry(key) {
            Entry::Occupied(entry) => {
                let r: &mut (K2, V) = entry.into_mut();
                Some((&r.0, &mut r.1))
            },
            Entry::Vacant(_) => None,
        }
    }

    /// Returns a mutable reference to the value corresponding to the secondary key `k2`.
    pub fn get_sec_mut(&mut self, k2: &K2) -> (r: Option<(&K1, &mut V)>)
        requires
            old(self).wf(),
        ensures
            final(self).wf(),
            match r {
                Some((k1, v)) => {
                    &&& paired(old(self)@, *k1, *k2)
                    &&& old(self)@[*k1].1 == *v
                    &&& final(self)@ == old(self)@.insert(*k1, (*k2, *final(v)))
                },
                None => !old(self).spec_contains_sec(*k2) && final(self)@ == old(self)@,
            },
    {
        match self.sec_to_prim.get(k2) {
            Some(k1) => {
                let key: K1 = k1.clone();
                proof {
                    assert(cloned(*k1, key));
                }
                match self.prim_to_val.entry(key) {
                    Entry::Occupied(entry) => {
                        let r: &mut (K2, V) = entry.into_mut();
                        Some((k1, &mut r.1))
                    },
                    Entry::Vacant(_) => None,
                }
            },
            None => None,
        }
    }

    /// All primary keys, in arbitrary order.
    pub(crate) fn prim_keys(&self) -> (keys: Vec<K1>)
        requires
            self.wf(),
        ensures
            keys@.no_duplicates(),
            keys@.to_set() == self@.dom(),
            keys@.len() == self@.len(),
    {
        let mut keys: Vec<K1> = Vec::new();
        for k in it: self.prim_to_val.keys()
            invariant
                Self::valid_keys(),
                keys@.len() == it.index(),
                forall|i: int| 0 <= i < keys@.len() ==> #[trigger] keys@[i] == *it.seq()[i],
        {
            let key: K1 = k.clone();
            proof {
                assert(cloned(*k, key));
            }
            keys.push(key);
        }
        proof {
            let all = vstd::std_specs::iter::IteratorSpec::remaining(
                &vstd::std_specs::hash::spec_keys_iter(&self.prim_to_val),
            );
            assert(keys@ =~= all.unref());
            assert forall|i: int, j: int| 0 <= i < j < keys@.len() implies keys@[i] != keys@[j] by {
                assert(all[i] != all[j]);
            }
        }
        keys
    }

    /// Retains only the elements specified by the predicate.
    pub fn retain<F>(&mut self, mut f: F) where F: FnMut(&K1, &K2, &mut V) -> bool
        requires
            old(self).wf(),
            forall|k1: K1, k2: K2, v: &mut V| call_requires(f, (&k1, &k2, v)),
        ensures
            final(self).wf(),
            forall|k: K1| #[trigger]
                final(self)@.contains_key(k) ==> old(self)@.contains_key(k) && final(self)@[k].0
                    == old(self)@[k].0 && exists|v: &mut V|
                    *v == old(self)@[k].1 && *final(v) == final(self)@[k].1
                        && #[trigger] call_ensures(f, (&k, &old(self)@[k].0, v), true),
            forall|k: K1| #[trigger]
                old(self)@.contains_key(k) && !final(self)@.contains_key(k) ==> exists|v: &mut V|
                    *v == old(self)@[k].1 && #[trigger] call_ensures(
                        f,
                        (&k, &old(self)@[k].0, v),
                        false,
                    ),
    {
        let keys: Vec<K1> = self.prim_keys();
        let ghost f0 = f;
        let mut i: usize = 0;
        while i < keys.len()
            invariant
                f == f0,
                self.wf(),
                i <= keys@.len(),
                keys@.no_duplicates(),
                keys@.to_set() == old(self)@.dom(),
                forall|k1: K1, k2: K2, v: &mut V| call_requires(f, (&k1, &k2, v)),
                forall|j: int| i <= j < keys@.len() ==> self@.contains_key(#[trigger] keys@[j]) && self@[keys@[j]] == old(self)@[keys@[j]],
                forall|k: K1| #[trigger] self@.contains_key(k) ==> old(self)@.contains_key(k) && self@[k].0 == old(self)@[k].0,
                forall|j: int| 0 <= j < i && self@.contains_key(#[trigger] keys@[j]) ==> 
                    exists|v: &mut V|
                    *v == old(self)@[keys@[j]].1 && *final(v) == self@[keys@[j]].1
                        && #[trigger] call_ensures(f, (&keys@[j], &old(self)@[keys@[j]].0, v), true),
                forall|j: int| 0 <= j < i && !self@.contains_key(#[trigger] keys@[j]) ==> 
                    exists|v: &mut V|
                    *v == old(self)@[keys@[j]].1 
                        && #[trigger] call_ensures(f, (&keys@[j], &old(self)@[keys@[j]].0, v), false),
            decreases keys@.len() - i,
        {
            let keep: bool = match self.get_prim_mut(&keys[i]) {
                Some((k2, v)) => f(&keys[i], k2, v),
                None => true,
            };
            if !keep {
                self.remove_prim(&keys[i]);
            }
            i = i + 1;
        }
        proof {
            assert forall|k: K1| #[trigger] old(self)@.contains_key(k) implies exists|j: int|
                0 <= j < keys@.len() && #[trigger] keys@[j] == k by {
                assert(keys@.to_set().contains(k));
            }
        }
    }

    /// Returns `true` if the map contains a value for the specified primary key `k1`.
    pub fn contains_prim(&self, k1: &K1) -> (b: bool)
        requires
            self.wf(),
        ensures
            b == self@.contains_key(*k1),
    {
        self.prim_to_val.contains_key(k1)
    }

    /// Returns `true` if the map contains a value for the secondary key `k2`.
    pub fn contains_sec(&self, k2: &K2) -> (b: bool)
        requires
            self.wf(),
        ensures
            b == self.spec_contains_sec(*k2),
    {
        let b: bool = self.sec_to_prim.contains_key(k2);
        proof {
            if b {
                assert(paired(self@, self.sec_to_prim@[*k2], *k2));
            }
        }
        b
    }

    /// Returns the number of elements in the map.
    pub fn len(&self) -> (n: usize)
        requires
            self.wf(),
        ensures
            n == self@.len(),
    {
        self.prim_to_val.len()
    }

    /// Returns `true` if the map contains no elements.
    pub fn is_empty(&self) -> (b: bool)
        requires
            self.wf(),
        ensures
            b == (self@ == Map::<K1, (K2, V)>::empty()),
            b == (self@.len() == 0),
    {
        let b: bool = self.prim_to_val.is_empty();
        proof {
            if self@.len() == 0 {
                assert(self@.dom() =~= Set::empty());
            }
            if b {
                assert(self@ =~= Map::empty());
            }
        }
        b
    }

    /// Clears the map, removing all entries.
    pub fn clear(&mut self)
        requires
            old(self).wf(),
        ensures
            final(self).wf(),
            final(self)@ == Map::<K1, (K2, V)>::empty(),
    {
        self.sec_to_prim.clear();
        self.prim_to_val.clear();
    }

    // ==========================================

    /// All entries `(&K1, &K2, &V)` in arbitrary order.
    pub fn iter(&self) -> (entries: Vec<(&K1, &K2, &V)>)
        requires
            self.wf(),
        ensures
            entries@.len() == self@.len(),
            forall|i: int|
                0 <= i < entries@.len() ==> self@.contains_key(*(#[trigger] entries@[i]).0)
                    && self@[*entries@[i].0] == (*entries@[i].1, *entries@[i].2),
            forall|i: int, j: int|
                0 <= i < j < entries@.len() ==> *(#[trigger] entries@[i]).0 != *(
                #[trigger] entries@[j]).0,
            forall|k: K1| #[trigger]
                self@.contains_key(k) ==> exists|i: int|
                    0 <= i < entries@.len() && *(#[trigger] entries@[i]).0 == k,
    {
        let ghost all = vstd::std_specs::iter::IteratorSpec::remaining(
            &vstd::std_specs::hash::spec_keys_iter(&self.prim_to_val),
        );
        proof {
            assert forall|i: int| 0 <= i < all.len() implies self@.contains_key(
                *#[trigger] all[i],
            ) by {
                assert(all.unref()[i] == *all[i]);
                assert(all.unref().to_set().contains(*all[i]));
            }
        }
        let mut entries: Vec<(&K1, &K2, &V)> = Vec::new();
        for k in it: self.prim_to_val.keys()
            invariant
                Self::valid_keys(),
                it.seq() == all,
                forall|i: int| 0 <= i < all.len() ==> self@.contains_key(*#[trigger] all[i]),
                entries@.len() == it.index(),
                forall|i: int|
                    0 <= i < entries@.len() ==> (#[trigger] entries@[i]).0 == all[i]
                        && self@.contains_key(*entries@[i].0) && self@[*entries@[i].0] == (
                        *entries@[i].1,
                        *entries@[i].2,
                    ),
        {
            proof {
                assert(self@.contains_key(*all[it.index()]));
            }
            if let Some(entry) = self.prim_to_val.get(k) {
                entries.push((k, &entry.0, &entry.1));
            }
        }
        proof {
            assert forall|i: int, j: int| 0 <= i < j < entries@.len() implies *(
            #[trigger] entries@[i]).0 != *(#[trigger] entries@[j]).0 by {
                assert(all[i] != all[j]);
            }
            assert forall|k: K1| #[trigger] self@.contains_key(k) implies exists|i: int|
                0 <= i < entries@.len() && *(#[trigger] entries@[i]).0 == k by {
                assert(all.unref().to_set().contains(k));
                let i = choose|i: int| 0 <= i < all.unref().len() && all.unref()[i] == k;
                assert(*entries@[i].0 == k);
            }
        }
        entries
    }

    /// All key pairs `(&K1, &K2)` in arbitrary order.
    pub fn keys(&self) -> (keys: Vec<(&K1, &K2)>)
        requires
            self.wf(),
        ensures
            keys@.len() == self@.len(),
            forall|i: int|
                0 <= i < keys@.len() ==> paired(self@, *(#[trigger] keys@[i]).0, *keys@[i].1),
            forall|i: int, j: int|
                0 <= i < j < keys@.len() ==> *(#[trigger] keys@[i]).0 != *(#[trigger] keys@[j]).0,
            forall|k: K1| #[trigger]
                self@.contains_key(k) ==> exists|i: int|
                    0 <= i < keys@.len() && *(#[trigger] keys@[i]).0 == k,
    {
        let entries: Vec<(&K1, &K2, &V)> = self.iter();
        let mut keys: Vec<(&K1, &K2)> = Vec::new();
        let mut i: usize = 0;
        while i < entries.len()
            invariant
                i <= entries@.len(),
                keys@.len() == i,
                forall|k: int|
                    0 <= k < i ==> (#[trigger] keys@[k]).0 == entries@[k].0 && keys@[k].1
                        == entries@[k].1,
            decreases entries@.len() - i,
        {
            keys.push((entries[i].0, entries[i].1));
            i = i + 1;
        }
        proof {
            assert forall|k: int| 0 <= k < keys@.len() implies paired(
                self@,
                *(#[trigger] keys@[k]).0,
                *keys@[k].1,
            ) by {
                assert(self@.contains_key(*entries@[k].0));
            }
            assert forall|a: int, b: int| 0 <= a < b < keys@.len() implies *(
            #[trigger] keys@[a]).0 != *(#[trigger] keys@[b]).0 by {
                assert(*entries@[a].0 != *entries@[b].0);
            }
            assert forall|k: K1| #[trigger] self@.contains_key(k) implies exists|j: int|
                0 <= j < keys@.len() && *(#[trigger] keys@[j]).0 == k by {
                let j = choose|j: int| 0 <= j < entries@.len() && *(#[trigger] entries@[j]).0 == k;
                assert(*keys@[j].0 == k);
            }
        }
        keys
    }

    /// All values in arbitrary order.
    pub fn values(&self) -> (values: Vec<&V>)
        requires
            self.wf(),
        ensures
            exists|keys: Seq<K1>| #[trigger]
                keys.to_set() == self@.dom() && keys.no_duplicates() && keys.len() == values@.len()
                    && forall|i: int|
                    0 <= i < keys.len() ==> *#[trigger] values@[i] == self@[keys[i]].1,
    {
        let entries: Vec<(&K1, &K2, &V)> = self.iter();
        let mut values: Vec<&V> = Vec::new();
        let mut i: usize = 0;
        while i < entries.len()
            invariant
                i <= entries@.len(),
                values@.len() == i,
                forall|k: int| 0 <= k < i ==> #[trigger] values@[k] == entries@[k].2,
            decreases entries@.len() - i,
        {
            values.push(entries[i].2);
            i = i + 1;
        }
        proof {
            let keys = Seq::new(entries@.len(), |k: int| *entries@[k].0);
            assert(keys.to_set() =~= self@.dom()) by {
                assert forall|k: K1| self@.dom().contains(k) implies keys.to_set().contains(k) by {
                    assert(self@.contains_key(k));
                    let j = choose|j: int|
                        0 <= j < entries@.len() && *(#[trigger] entries@[j]).0 == k;
                    assert(keys[j] == k);
                }
                assert forall|k: K1| keys.to_set().contains(k) implies self@.dom().contains(k) by {
                    let j = choose|j: int| 0 <= j < keys.len() && keys[j] == k;
                    assert(self@.contains_key(*entries@[j].0));
                }
            }
            assert forall|a: int, b: int| 0 <= a < b < keys.len() implies keys[a] != keys[b] by {
                assert(*entries@[a].0 != *entries@[b].0);
            }
            assert forall|k: int| 0 <= k < keys.len() implies *#[trigger] values@[k]
                == self@[keys[k]].1 by {
                assert(self@.contains_key(*entries@[k].0));
            }
        }
        values
    }

    /// Visits all entries `(&K1, &K2, &mut V)` in arbitrary order, with a mutable reference to the value.
    pub fn iter_mut<F>(&mut self, mut f: F) where F: FnMut(&K1, &K2, &mut V)
        requires
            old(self).wf(),
            forall|k1: K1, k2: K2, v: &mut V| call_requires(f, (&k1, &k2, v)),
        ensures
            final(self).wf(),
            final(self)@.dom() == old(self)@.dom(),
            forall|k: K1| #[trigger]
                old(self)@.contains_key(k) ==> final(self)@[k].0 == old(self)@[k].0
                    && exists|v: &mut V|
                    *v == old(self)@[k].1 && *final(v) == final(self)@[k].1
                        && #[trigger] call_ensures(f, (&k, &old(self)@[k].0, v), ()),
    {
        let keys: Vec<K1> = self.prim_keys();
        let ghost f0 = f;
        let mut i: usize = 0;
        while i < keys.len()
            invariant
                f == f0,
                self.wf(),
                i <= keys@.len(),
                keys@.no_duplicates(),
                keys@.to_set() == old(self)@.dom(),
                self@.dom() == old(self)@.dom(),
                forall|k1: K1, k2: K2, v: &mut V| call_requires(f, (&k1, &k2, v)),
                forall|j: int|
                    i <= j < keys@.len() ==> self@.contains_key(#[trigger] keys@[j])
                        && self@[keys@[j]] == old(self)@[keys@[j]],
                forall|j: int|
                    0 <= j < i ==> self@[#[trigger] keys@[j]].0 == old(self)@[keys@[j]].0
                        && exists|v: &mut V|
                        *v == old(self)@[keys@[j]].1 && *final(v) == self@[keys@[j]].1
                            && #[trigger] call_ensures(f, (&keys@[j], &old(self)@[keys@[j]].0, v), ()),
            decreases keys@.len() - i,
        {
            if let Some((k2, v)) = self.get_prim_mut(&keys[i]) {
                f(&keys[i], k2, v);
            }
            i = i + 1;
            proof {
                assert(self@.dom() =~= old(self)@.dom());
            }
        }
        proof {
            assert forall|k: K1| #[trigger] old(self)@.contains_key(k) implies exists|j: int|
                0 <= j < keys@.len() && #[trigger] keys@[j] == k by {
                assert(keys@.to_set().contains(k));
            }
        }
    }

    /// Visits all values mutably in arbitrary order.
    pub fn values_mut<F>(&mut self, mut f: F) where F: FnMut(&mut V)
        requires
            old(self).wf(),
            forall|v: &mut V| call_requires(f, (v,)),
        ensures
            final(self).wf(),
            final(self)@.dom() == old(self)@.dom(),
            forall|k: K1| #[trigger]
                old(self)@.contains_key(k) ==> final(self)@[k].0 == old(self)@[k].0
                    && exists|v: &mut V|
                    *v == old(self)@[k].1 && *final(v) == final(self)@[k].1
                        && #[trigger] call_ensures(f, (v,), ()),
    {
        let keys: Vec<K1> = self.prim_keys();
        let ghost f0 = f;
        let mut i: usize = 0;
        while i < keys.len()
            invariant
                f == f0,
                self.wf(),
                i <= keys@.len(),
                keys@.no_duplicates(),
                keys@.to_set() == old(self)@.dom(),
                self@.dom() == old(self)@.dom(),
                forall|v: &mut V| call_requires(f, (v,)),
                forall|j: int|
                    i <= j < keys@.len() ==> self@.contains_key(#[trigger] keys@[j])
                        && self@[keys@[j]] == old(self)@[keys@[j]],
                forall|j: int|
                    0 <= j < i ==> self@[#[trigger] keys@[j]].0 == old(self)@[keys@[j]].0
                        && exists|v: &mut V|
                        *v == old(self)@[keys@[j]].1 && *final(v) == self@[keys@[j]].1
                            && #[trigger] call_ensures(f, (v,), ()),
            decreases keys@.len() - i,
        {
            if let Some((_k2, v)) = self.get_prim_mut(&keys[i]) {
                f(v);
            }
            i = i + 1;
            proof {
                assert(self@.dom() =~= old(self)@.dom());
            }
        }
        proof {
            assert forall|k: K1| #[trigger] old(self)@.contains_key(k) implies exists|j: int|
                0 <= j < keys@.len() && #[trigger] keys@[j] == k by {
                assert(keys@.to_set().contains(k));
            }
        }
    }
}

impl<K1, K2, V> Default for DualHashMap<K1, K2, V> where
    K1: Eq + Hash + Clone,
    K2: Eq + Hash + Clone,
 {
    fn default() -> (m: Self)
        ensures
            m@ == Map::<K1, (K2, V)>::empty(),
            Self::valid_keys() ==> m.wf(),
    {
        DualHashMap { sec_to_prim: HashMap::new(), prim_to_val: HashMap::new() }
    }
}

/// After an insertion both keys lead to the new value, no other entry has either of the keys, and
/// the entries that have neither are unchanged.
pub proof fn law_insert<K1, K2, V>(m: Map<K1, (K2, V)>, k1: K1, k2: K2, value: V)
    ensures
        inserted(m, k1, k2, value)[k1] == (k2, value),
        forall|a: K1| #[trigger] paired(inserted(m, k1, k2, value), a, k2) <==> a == k1,
        forall|a: K1|
            a != k1 ==> (#[trigger] inserted(m, k1, k2, value).contains_key(a) <==> m.contains_key(a)
                && m[a].0 != k2),
        forall|a: K1|
            a != k1 && #[trigger] inserted(m, k1, k2, value).contains_key(a) ==> inserted(
                m,
                k1,
                k2,
                value,
            )[a] == m[a],
{
}

/// Removing an entry right after inserting it leaves the map without any entry of the two keys.
pub proof fn law_insert_remove<K1, K2, V>(m: Map<K1, (K2, V)>, k1: K1, k2: K2, value: V)
    ensures
        without_sec(inserted(m, k1, k2, value), k2) == without_sec(m, k2).remove(k1),
        inserted(m, k1, k2, value).remove(k1) == without_sec(m, k2).remove(k1),
{
    assert(without_sec(inserted(m, k1, k2, value), k2) =~= without_sec(m, k2).remove(k1));
    assert(inserted(m, k1, k2, value).remove(k1) =~= without_sec(m, k2).remove(k1));
}

/// Removing by a secondary key takes the entry of that key, and leaves all others as they are.
pub proof fn law_remove_secondary<K1, K2, V>(m: Map<K1, (K2, V)>, k2: K2)
    ensures
        forall|a: K1| #[trigger]
            without_sec(m, k2).contains_key(a) <==> m.contains_key(a) && m[a].0 != k2,
        forall|a: K1| #[trigger]
            without_sec(m, k2).contains_key(a) ==> without_sec(m, k2)[a] == m[a],
{
}

} // verus!
