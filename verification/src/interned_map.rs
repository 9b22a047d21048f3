//! A [DualHashMap] whose secondary keys are compared by their contents.
//!
//! Each secondary key gets a number as long as it is in use, and the numbers are the secondary keys
//! of an ordinary [DualHashMap].

use crate::dual_map::{inserted, paired, without_sec, DualHashMap};
use crate::transceivers::address::RobotTransceiverAddress;
use std::hash::Hash;
use vstd::prelude::*;

verus! {

broadcast use vstd::std_specs::hash::group_hash_axioms;

/// Types that can be compared by their contents.
pub trait SameContents: View + Sized {
    fn same_contents(&self, other: &Self) -> (b: bool)
        ensures
            b == (self@ == other@),
    ;
}

impl SameContents for RobotTransceiverAddress {
    fn same_contents(&self, other: &Self) -> (b: bool) {
        self.same(other)
    }
}

impl SameContents for String {
    fn same_contents(&self, other: &Self) -> (b: bool) {
        *self == *other
    }
}

/// Values with numbers.
#[derive(Debug)]
pub struct Interner<T> {
    slots: Vec<Option<T>>,
}

impl<T: SameContents> Interner<T> {
    /// The contents of the value with the number `i`, if it is in use.
    pub closed spec fn slot(&self, i: int) -> Option<T::V> {
        if 0 <= i < self.slots@.len() {
            match self.slots@[i] {
                Some(t) => Some(t@),
                None => None,
            }
        } else {
            None
        }
    }

    /// The value with the number `i`.
    pub closed spec fn value(&self, i: int) -> T {
        self.slots@[i]->0
    }

    /// No value has two numbers.
    pub open spec fn wf(&self) -> bool {
        forall|i: int, j: int|
            #![trigger self.slot(i), self.slot(j)]
            self.slot(i) is Some && self.slot(i) == self.slot(j) ==> i == j
    }

    pub fn new() -> (n: Self)
        ensures
            n.wf(),
            forall|i: int| n.slot(i) is None,
    {
        Interner { slots: Vec::new() }
    }

    /// The number of a value.
    pub fn find(&self, t: &T) -> (r: Option<usize>)
        requires
            self.wf(),
        ensures
            match r {
                Some(i) => self.slot(i as int) == Some(t@),
                None => forall|i: int| self.slot(i) != Some(t@),
            },
    {
        let mut i: usize = 0;
        while i < self.slots.len()
            invariant
                i <= self.slots@.len(),
                forall|k: int| 0 <= k < i ==> self.slot(k) != Some(t@),
            decreases self.slots@.len() - i,
        {
            if let Some(s) = &self.slots[i] {
                if s.same_contents(t) {
                    return Some(i);
                }
            }
            i = i + 1;
        }
        None
    }

    /// Gives a number to a value that has none.
    pub fn add_new(&mut self, t: T) -> (n: usize)
        requires
            old(self).wf(),
            forall|i: int| old(self).slot(i) != Some(t@),
        ensures
            final(self).wf(),
            old(self).slot(n as int) is None,
            final(self).slot(n as int) == Some(t@),
            final(self).value(n as int) == t,
            forall|i: int| i != n ==> #[trigger] final(self).slot(i) == old(self).slot(i),
            forall|i: int|
                old(self).slot(i) is Some ==> #[trigger] final(self).value(i) == old(self).value(i),
    {
        let mut i: usize = 0;
        while i < self.slots.len()
            invariant
                i <= self.slots@.len(),
                *self == *old(self),
                old(self).wf(),
                forall|i: int| old(self).slot(i) != Some(t@),
            decreases self.slots@.len() - i,
        {
            if self.slots[i].is_none() {
                self.slots.set(i, Some(t));
                proof {
                    assert forall|k: int| k != i implies #[trigger] self.slot(k) == old(self).slot(k) by {}
                    lemma_one_slot(*old(self), *self, i as int);
                }
                return i;
            }
            i = i + 1;
        }
        self.slots.push(Some(t));
        proof {
            assert forall|k: int| k != i implies #[trigger] self.slot(k) == old(self).slot(k) by {}
            lemma_one_slot(*old(self), *self, i as int);
        }
        i
    }

    /// Forgets the value with the number `n`.
    pub fn release(&mut self, n: usize)
        requires
            old(self).wf(),
            old(self).slot(n as int) is Some,
        ensures
            final(self).wf(),
            final(self).slot(n as int) is None,
            forall|i: int| i != n ==> #[trigger] final(self).slot(i) == old(self).slot(i),
            forall|i: int|
                i != n && old(self).slot(i) is Some ==> #[trigger] final(self).value(i) == old(
                    self,
                ).value(i),
    {
        self.slots.set(n, None);
        proof {
            assert forall|k: int| k != n implies #[trigger] self.slot(k) == old(self).slot(k) by {}
            lemma_one_slot(*old(self), *self, n as int);
        }
    }

    /// The value with the number `n`.
    pub fn get(&self, n: usize) -> (t: &T)
        requires
            self.slot(n as int) is Some,
        ensures
            Some(t@) == self.slot(n as int),
            *t == self.value(n as int),
    {
        self.slots[n].as_ref().unwrap()
    }
}

/// Changing one number to a value without a number keeps the numbers unique.
proof fn lemma_one_slot<T: SameContents>(before: Interner<T>, after: Interner<T>, n: int)
    requires
        before.wf(),
        forall|k: int| k != n ==> #[trigger] after.slot(k) == before.slot(k),
        after.slot(n) is Some ==> forall|k: int| #[trigger] before.slot(k) != after.slot(n),
    ensures
        after.wf(),
{
    assert forall|i: int, j: int|
        #![trigger after.slot(i), after.slot(j)]
        after.slot(i) is Some && after.slot(i) == after.slot(j) implies i == j by {
        if i != n && j != n {
            assert(before.slot(i) == before.slot(j));
        } else if i == n && j != n {
            assert(before.slot(j) != after.slot(n));
        } else if j == n && i != n {
            assert(before.slot(i) != after.slot(n));
        }
    }
}

/// Changing the value of an entry keeps all pairs of keys.
proof fn lemma_pairs_kept<K1, V>(m: Map<K1, (usize, V)>, k1: K1, v: V)
    requires
        m.contains_key(k1),
    ensures
        forall|k: K1, i: usize| #[trigger]
            paired(m, k, i) ==> paired(m.insert(k1, (m[k1].0, v)), k, i),
{
}

/// A map where each value can be retrieved by a primary key, or by a secondary key that is compared
/// by its contents.
#[derive(Debug)]
pub struct InternedDualMap<K1, T, V> {
    names: Interner<T>,
    map: DualHashMap<K1, usize, V>,
}

impl<K1: Eq + Hash + Clone, T: SameContents, V> InternedDualMap<K1, T, V> {
    /// The contents of the secondary key, and the value, of each primary key.
    pub closed spec fn view(&self) -> Map<K1, (T::V, V)> {
        Map::new(
            |k: K1| self.map@.contains_key(k),
            |k: K1| (self.names.slot(self.map@[k].0 as int)->0, self.map@[k].1),
        )
    }

    /// The secondary key of a primary key.
    pub closed spec fn name(&self, k: K1) -> T {
        self.names.value(self.map@[k].0 as int)
    }

    pub open spec fn valid_keys() -> bool {
        DualHashMap::<K1, usize, V>::valid_keys()
    }

    /// Exactly the secondary keys that are in use have a number.
    pub closed spec fn wf(&self) -> bool {
        &&& self.names.wf()
        &&& self.map.wf()
        &&& forall|k: K1| #[trigger]
            self.map@.contains_key(k) ==> self.names.slot(self.map@[k].0 as int) is Some
        &&& forall|i: int| #[trigger]
            self.names.slot(i) is Some ==> 0 <= i <= usize::MAX && self.map.spec_contains_sec(
                i as usize,
            )
    }

    pub fn new() -> (m: Self)
        requires
            Self::valid_keys(),
        ensures
            m.wf(),
            m@ == Map::<K1, (T::V, V)>::empty(),
    {
        let m = InternedDualMap { names: Interner::new(), map: DualHashMap::new() };
        proof {
            assert(m@ =~= Map::<K1, (T::V, V)>::empty());
        }
        m
    }

    /// No secondary key belongs to two entries.
    pub proof fn law_secondary_keys_are_unique(&self)
        requires
            self.wf(),
        ensures
            forall|a: K1, b: K1|
                self@.contains_key(a) && self@.contains_key(b) && #[trigger] self@[a].0
                    == #[trigger] self@[b].0 ==> a == b,
    {
        self.map.law_secondary_keys_are_unique();
    }

    /// Removes the entry of a primary key.
    pub fn remove_prim(&mut self, k1: &K1) -> (r: Option<V>)
        requires
            old(self).wf(),
        ensures
            final(self).wf(),
            final(self)@ == old(self)@.remove(*k1),
            r == (if old(self)@.contains_key(*k1) {
                Some(old(self)@[*k1].1)
            } else {
                None
            }),
    {
        proof {
            self.map.law_secondary_keys_are_unique();
        }
        match self.map.remove_prim(k1) {
            Some((n, v)) => {
                self.names.release(n);
                proof {
                    assert forall|i: int| #[trigger] self.names.slot(i) is Some implies 0 <= i
                        <= usize::MAX && self.map.spec_contains_sec(i as usize) by {
                        assert(old(self).names.slot(i) is Some);
                        let k = choose|k: K1| #[trigger] paired(old(self).map@, k, i as usize);
                        assert(paired(self.map@, k, i as usize));
                    }
                    assert(self@ =~= old(self)@.remove(*k1));
                }
                Some(v)
            },
            None => {
                proof {
                    assert(self.map@ =~= old(self).map@);
                    assert forall|i: int| #[trigger] self.names.slot(i) is Some implies 0 <= i
                        <= usize::MAX && self.map.spec_contains_sec(i as usize) by {
                        let k = choose|k: K1| #[trigger] paired(old(self).map@, k, i as usize);
                        assert(paired(self.map@, k, i as usize));
                    }
                    assert(self@ =~= old(self)@.remove(*k1));
                }
                None
            },
        }
    }

    /// Removes the entry of a secondary key.
    pub fn remove_sec(&mut self, name: &T) -> (r: Option<(K1, V)>)
        requires
            old(self).wf(),
        ensures
            final(self).wf(),
            final(self)@ == without_sec(old(self)@, name@),
            match r {
                Some((k1, v)) => paired(old(self)@, k1, name@) && v == old(self)@[k1].1
                    && final(self)@ == old(self)@.remove(k1),
                None => (forall|k1: K1| !paired(old(self)@, k1, name@)) && final(self)@ == old(
                    self,
                )@,
            },
    {
        proof {
            self.map.law_secondary_keys_are_unique();
        }
        match self.names.find(name) {
            Some(n) => match self.map.remove_sec(&n) {
                Some((k1, v)) => {
                    self.names.release(n);
                    proof {
                        assert forall|i: int| #[trigger] self.names.slot(i) is Some implies 0 <= i
                            <= usize::MAX && self.map.spec_contains_sec(i as usize) by {
                            assert(old(self).names.slot(i) is Some);
                            let k = choose|k: K1| #[trigger] paired(old(self).map@, k, i as usize);
                            assert(paired(self.map@, k, i as usize));
                        }
                        assert(self@ =~= old(self)@.remove(k1));
                        assert(self@ =~= without_sec(old(self)@, name@));
                    }
                    Some((k1, v))
                },
                None => {
                    proof {
                        assert(old(self).map.spec_contains_sec(n));
                        assert(false);
                    }
                    None
                },
            },
            None => {
                proof {
                    assert forall|k1: K1| !paired(old(self)@, k1, name@) by {
                        if old(self).map@.contains_key(k1) {
                            assert(old(self).names.slot(old(self).map@[k1].0 as int) is Some);
                        }
                    }
                    assert(self@ =~= without_sec(old(self)@, name@)) by {
                        assert forall|k1: K1| old(self)@.contains_key(k1) implies old(self)@[k1].0
                            != name@ by {
                            assert(!paired(old(self)@, k1, name@));
                        }
                    }
                }
                None
            },
        }
    }

    /// Inserts a value mapped to both keys.
    /// If either key already exists, their respective previous entries are removed.
    pub fn insert(&mut self, k1: K1, name: T, value: V)
        requires
            old(self).wf(),
        ensures
            final(self).wf(),
            final(self)@ == inserted(old(self)@, k1, name@, value),
            final(self).name(k1) == name,
    {
        self.remove_prim(&k1);
        self.remove_sec(&name);
        let ghost mid = *self;
        proof {
            assert forall|i: int| self.names.slot(i) != Some(name@) by {
                if self.names.slot(i) is Some {
                    assert(self.map.spec_contains_sec(i as usize));
                    let k = choose|k: K1| #[trigger] paired(self.map@, k, i as usize);
                    assert(self@.contains_key(k));
                    assert(self@[k].0 == self.names.slot(i)->0);
                }
            }
            assert(!mid@.contains_key(k1));
            assert(!mid.map@.contains_key(k1));
        }
        let n: usize = self.names.add_new(name);
        self.map.insert(k1, n, value);
        proof {
            assert forall|k: K1| #[trigger] mid.map@.contains_key(k) implies mid.map@[k].0 != n by {
                assert(mid.names.slot(mid.map@[k].0 as int) is Some);
            }
            assert(self.map@ =~= mid.map@.insert(k1, (n, value)));
            assert forall|i: int| #[trigger] self.names.slot(i) is Some implies 0 <= i <= usize::MAX
                && self.map.spec_contains_sec(i as usize) by {
                if i == n {
                    assert(paired(self.map@, k1, n));
                } else {
                    assert(mid.names.slot(i) is Some);
                    let k = choose|k: K1| #[trigger] paired(mid.map@, k, i as usize);
                    assert(paired(self.map@, k, i as usize));
                }
            }
            assert forall|k: K1| #[trigger] mid@.contains_key(k) implies self@[k] == mid@[k] by {
                assert(mid.names.slot(mid.map@[k].0 as int) is Some);
            }
            assert(self@ =~= mid@.insert(k1, (name@, value)));
            assert(mid@ =~= without_sec(old(self)@.remove(k1), name@));
            assert(self@ =~= inserted(old(self)@, k1, name@, value));
        }
    }

    /// Returns the secondary key and the value of a primary key.
    pub fn get_prim(&self, k1: &K1) -> (r: Option<(&T, &V)>)
        requires
            self.wf(),
        ensures
            match r {
                Some((name, v)) => self@.contains_key(*k1) && self@[*k1] == (name@, *v) && *name
                    == self.name(*k1),
                None => !self@.contains_key(*k1),
            },
    {
        match self.map.get_prim(k1) {
            Some((n, v)) => Some((self.names.get(*n), v)),
            None => None,
        }
    }

    /// Returns a mutable reference to the value of a primary key.
    pub fn get_prim_mut(&mut self, k1: &K1) -> (r: Option<(&T, &mut V)>)
        requires
            old(self).wf(),
        ensures
            final(self).wf(),
            match r {
                Some((name, v)) => {
                    &&& old(self)@.contains_key(*k1)
                    &&& old(self)@[*k1] == (name@, *v)
                    &&& *name == old(self).name(*k1)
                    &&& final(self)@ == old(self)@.insert(*k1, (name@, *final(v)))
                    &&& forall|k: K1| #[trigger]
                        old(self)@.contains_key(k) ==> final(self).name(k) == old(self).name(k)
                },
                None => !old(self)@.contains_key(*k1) && final(self)@ == old(self)@,
            },
    {
        match self.map.get_prim_mut(k1) {
            Some((n, v)) => {
                proof {
                    lemma_pairs_kept(old(self).map@, *k1, *final(v));
                }
                let name: &T = self.names.get(*n);
                Some((name, v))
            },
            None => None,
        }
    }

    /// Returns the primary key, and a mutable reference to the value, of a secondary key.
    pub fn get_sec_mut(&mut self, name: &T) -> (r: Option<(&K1, &mut V)>)
        requires
            old(self).wf(),
        ensures
            final(self).wf(),
            match r {
                Some((k1, v)) => {
                    &&& paired(old(self)@, *k1, name@)
                    &&& old(self)@[*k1].1 == *v
                    &&& final(self)@ == old(self)@.insert(*k1, (name@, *final(v)))
                    &&& forall|k: K1| #[trigger]
                        old(self)@.contains_key(k) ==> final(self).name(k) == old(self).name(k)
                },
                None => (forall|k1: K1| !paired(old(self)@, k1, name@)) && final(self)@ == old(
                    self,
                )@,
            },
    {
        match self.names.find(name) {
            Some(n) => match self.map.get_sec_mut(&n) {
                Some((k1, v)) => {
                    proof {
                        lemma_pairs_kept(old(self).map@, *k1, *final(v));
                    }
                    Some((k1, v))
                },
                None => {
                    proof {
                        assert(old(self).map.spec_contains_sec(n));
                        assert(false);
                    }
                    None
                },
            },
            None => {
                proof {
                    assert forall|k1: K1| !paired(old(self)@, k1, name@) by {
                        if old(self).map@.contains_key(k1) {
                            assert(old(self).names.slot(old(self).map@[k1].0 as int) is Some);
                        }
                    }
                }
                None
            },
        }
    }

    /// Whether some entry has the primary key.
    pub fn contains_prim(&self, k1: &K1) -> (b: bool)
        requires
            self.wf(),
        ensures
            b == self@.contains_key(*k1),
    {
        self.map.contains_prim(k1)
    }

    /// Whether some entry has the secondary key.
    pub fn contains_sec(&self, name: &T) -> (b: bool)
        requires
            self.wf(),
        ensures
            b == exists|k1: K1| paired(self@, k1, name@),
    {
        match self.names.find(name) {
            Some(n) => {
                proof {
                    assert(self.map.spec_contains_sec(n));
                    let k = choose|k: K1| #[trigger] paired(self.map@, k, n);
                    assert(paired(self@, k, name@));
                }
                true
            },
            None => {
                proof {
                    assert forall|k1: K1| !paired(self@, k1, name@) by {
                        if self.map@.contains_key(k1) {
                            assert(self.names.slot(self.map@[k1].0 as int) is Some);
                        }
                    }
                }
                false
            },
        }
    }

    /// All primary keys, in arbitrary order.
    pub fn prim_keys(&self) -> (keys: Vec<K1>)
        requires
            self.wf(),
        ensures
            keys@.no_duplicates(),
            keys@.to_set() == self@.dom(),
            keys@.len() == self@.len(),
    {
        let keys: Vec<K1> = self.map.prim_keys();
        proof {
            assert(self.map@.dom() =~= self@.dom());
        }
        keys
    }
}

} // verus!
