//! The timeouts of connections that are known by their socket address.

use crate::time::Instant;
use crate::transceivers::address::SocketAddr;
use vstd::prelude::*;

verus! {

/// The timeout of each address.
#[derive(Debug)]
pub struct TimeoutTable {
    entries: Vec<(SocketAddr, Instant)>,
}

/// Whether `t` is the closest of all timeouts.
pub open spec fn is_closest_timeout(timeouts: Map<SocketAddr, Instant>, t: Option<Instant>) -> bool {
    match t {
        Some(t) => {
            &&& exists|a: SocketAddr| #[trigger] timeouts.contains_key(a) && timeouts[a] == t
            &&& forall|a: SocketAddr| #[trigger]
                timeouts.contains_key(a) ==> t.nanos <= timeouts[a].nanos
        },
        None => forall|a: SocketAddr| !timeouts.contains_key(a),
    }
}

/// The timeouts that have not passed.
pub open spec fn not_passed(timeouts: Map<SocketAddr, Instant>, now: Instant) -> Map<
    SocketAddr,
    Instant,
> {
    timeouts.restrict(timeouts.dom().filter(|a: SocketAddr| timeouts[a].nanos >= now.nanos))
}

spec fn entry_at(entries: Seq<(SocketAddr, Instant)>, a: SocketAddr, i: int) -> bool {
    0 <= i < entries.len() && entries[i].0 == a
}

spec fn table(entries: Seq<(SocketAddr, Instant)>) -> Map<SocketAddr, Instant> {
    Map::new(
        |a: SocketAddr| exists|i: int| entry_at(entries, a, i),
        |a: SocketAddr| entries[choose|i: int| entry_at(entries, a, i)].1,
    )
}

/// Whether the timeout of `a` is one of the first `n`, and has passed.
spec fn passed_before(
    entries: Seq<(SocketAddr, Instant)>,
    n: int,
    a: SocketAddr,
    now: Instant,
) -> bool {
    exists|j: int| 0 <= j < n && (#[trigger] entries[j]).0 == a && entries[j].1.nanos < now.nanos
}

/// Whether `entry` is one of the first `n`, and its timeout has not passed.
spec fn kept_before(
    entries: Seq<(SocketAddr, Instant)>,
    n: int,
    entry: (SocketAddr, Instant),
    now: Instant,
) -> bool {
    exists|j: int| 0 <= j < n && #[trigger] entries[j] == entry && entry.1.nanos >= now.nanos
}

spec fn unique(entries: Seq<(SocketAddr, Instant)>) -> bool {
    forall|i: int, j: int|
        0 <= i < j < entries.len() ==> (#[trigger] entries[i]).0 != (#[trigger] entries[j]).0
}

proof fn lemma_entry(entries: Seq<(SocketAddr, Instant)>, i: int)
    requires
        unique(entries),
        0 <= i < entries.len(),
    ensures
        table(entries).contains_key(entries[i].0),
        table(entries)[entries[i].0] == entries[i].1,
{
    let a = entries[i].0;
    assert(entry_at(entries, a, i));
    let j = choose|j: int| entry_at(entries, a, j);
    assert(i == j) by {
        if i < j {
            assert(entries[i].0 != entries[j].0);
        }
        if j < i {
            assert(entries[j].0 != entries[i].0);
        }
    }
}

impl TimeoutTable {
    pub closed spec fn view(&self) -> Map<SocketAddr, Instant> {
        table(self.entries@)
    }

    /// No address has two timeouts.
    pub closed spec fn wf(&self) -> bool {
        unique(self.entries@)
    }

    pub fn new() -> (t: TimeoutTable)
        ensures
            t.wf(),
            t@ == Map::<SocketAddr, Instant>::empty(),
    {
        let t = TimeoutTable { entries: Vec::new() };
        proof {
            assert(t@ =~= Map::<SocketAddr, Instant>::empty());
        }
        t
    }

    fn position(&self, addr: SocketAddr) -> (r: Option<usize>)
        requires
            self.wf(),
        ensures
            match r {
                Some(i) => i < self.entries@.len() && self.entries@[i as int].0 == addr
                    && self@.contains_key(addr) && self@[addr] == self.entries@[i as int].1,
                None => !self@.contains_key(addr),
            },
    {
        let mut i: usize = 0;
        while i < self.entries.len()
            invariant
                i <= self.entries@.len(),
                self.wf(),
                forall|k: int| 0 <= k < i ==> (#[trigger] self.entries@[k]).0 != addr,
            decreases self.entries@.len() - i,
        {
            if self.entries[i].0 == addr {
                proof {
                    lemma_entry(self.entries@, i as int);
                }
                return Some(i);
            }
            i = i + 1;
        }
        None
    }

    pub fn contains(&self, addr: SocketAddr) -> (b: bool)
        requires
            self.wf(),
        ensures
            b == self@.contains_key(addr),
    {
        self.position(addr).is_some()
    }

    /// Sets the timeout of an address.
    pub fn set(&mut self, addr: SocketAddr, timeout: Instant)
        requires
            old(self).wf(),
        ensures
            final(self).wf(),
            final(self)@ == old(self)@.insert(addr, timeout),
    {
        let ghost mut at: int = self.entries@.len() as int;
        match self.position(addr) {
            Some(i) => {
                self.entries.set(i, (addr, timeout));
                proof {
                    at = i as int;
                }
            },
            None => {
                proof {
                    assert forall|k: int| 0 <= k < self.entries@.len() implies (
                    #[trigger] self.entries@[k]).0 != addr by {
                        lemma_entry(self.entries@, k);
                    }
                }
                self.entries.push((addr, timeout));
            },
        }
        proof {
            let new = self.entries@;
            let old_entries = old(self).entries@;
            assert(unique(new));
            assert forall|a: SocketAddr| (#[trigger] self@.contains_key(a)) == (old(
                self,
            )@.contains_key(a) || a == addr) by {
                if self@.contains_key(a) {
                    let i = choose|i: int| entry_at(new, a, i);
                    if a != addr {
                        lemma_entry(old_entries, i);
                    }
                }
                if old(self)@.contains_key(a) {
                    let i = choose|i: int| entry_at(old_entries, a, i);
                    lemma_entry(new, i);
                }
                if a == addr {
                    lemma_entry(new, at);
                }
            }
            assert forall|a: SocketAddr| #[trigger] self@.contains_key(a) implies self@[a] == old(
                self,
            )@.insert(addr, timeout)[a] by {
                let i = choose|i: int| entry_at(new, a, i);
                lemma_entry(new, i);
                if a != addr {
                    lemma_entry(old_entries, i);
                }
            }
            assert(self@ =~= old(self)@.insert(addr, timeout));
        }
    }

    /// All addresses, in arbitrary order.
    pub fn addresses(&self) -> (addrs: Vec<SocketAddr>)
        requires
            self.wf(),
        ensures
            addrs@.no_duplicates(),
            addrs@.to_set() == self@.dom(),
    {
        let mut addrs: Vec<SocketAddr> = Vec::new();
        let mut i: usize = 0;
        while i < self.entries.len()
            invariant
                i <= self.entries@.len(),
                addrs@.len() == i,
                forall|k: int| 0 <= k < i ==> #[trigger] addrs@[k] == self.entries@[k].0,
            decreases self.entries@.len() - i,
        {
            addrs.push(self.entries[i].0);
            i = i + 1;
        }
        proof {
            assert forall|a: SocketAddr| addrs@.to_set().contains(a) == self@.dom().contains(a) by {
                if addrs@.contains(a) {
                    let k = choose|k: int| 0 <= k < addrs@.len() && addrs@[k] == a;
                    lemma_entry(self.entries@, k);
                }
                if self@.contains_key(a) {
                    let k = choose|k: int| entry_at(self.entries@, a, k);
                    assert(addrs@[k] == a);
                }
            }
            assert(addrs@.to_set() =~= self@.dom());
            assert forall|j: int, k: int| 0 <= j < k < addrs@.len() implies addrs@[j] != addrs@[k] by {
                assert(self.entries@[j].0 != self.entries@[k].0);
            }
        }
        addrs
    }

    /// The closest of all timeouts.
    pub fn closest(&self) -> (t: Option<Instant>)
        requires
            self.wf(),
        ensures
            is_closest_timeout(self@, t),
    {
        let mut closest: Option<Instant> = None;
        let ghost mut first: int = 0;
        let mut i: usize = 0;
        while i < self.entries.len()
            invariant
                i <= self.entries@.len(),
                self.wf(),
                match closest {
                    Some(c) => {
                        &&& 0 <= first < i
                        &&& self.entries@[first].1 == c
                        &&& forall|k: int|
                            0 <= k < i ==> c.nanos <= (#[trigger] self.entries@[k]).1.nanos
                    },
                    None => i == 0,
                },
            decreases self.entries@.len() - i,
        {
            let t: Instant = self.entries[i].1;
            match closest {
                Some(c) => {
                    if t.nanos < c.nanos {
                        closest = Some(t);
                        proof {
                            first = i as int;
                        }
                    }
                },
                None => {
                    closest = Some(t);
                    proof {
                        first = i as int;
                    }
                },
            }
            i = i + 1;
        }
        proof {
            if closest is Some {
                lemma_entry(self.entries@, first);
                assert forall|a: SocketAddr| #[trigger] self@.contains_key(a) implies
                    closest->0.nanos <= self@[a].nanos by {
                    let k = choose|k: int| entry_at(self.entries@, a, k);
                    lemma_entry(self.entries@, k);
                }
            }
        }
        closest
    }

    /// Removes the timeouts that have passed. Returns their addresses.
    pub fn remove_passed(&mut self, now: Instant) -> (gone: Vec<SocketAddr>)
        requires
            old(self).wf(),
        ensures
            final(self).wf(),
            final(self)@ == not_passed(old(self)@, now),
            gone@.no_duplicates(),
            gone@.to_set() == old(self)@.dom().difference(final(self)@.dom()),
    {
        let mut kept: Vec<(SocketAddr, Instant)> = Vec::new();
        let mut gone: Vec<SocketAddr> = Vec::new();
        let ghost all = self.entries@;
        let mut i: usize = 0;
        while i < self.entries.len()
            invariant
                i <= self.entries@.len(),
                all == self.entries@,
                unique(all),
                unique(kept@),
                gone@.no_duplicates(),
                forall|k: int|
                    0 <= k < kept@.len() ==> kept_before(all, i as int, #[trigger] kept@[k], now),
                forall|k: int|
                    0 <= k < gone@.len() ==> passed_before(all, i as int, #[trigger] gone@[k], now),
                forall|j: int|
                    0 <= j < i && (#[trigger] all[j]).1.nanos >= now.nanos ==> kept@.contains(all[j]),
                forall|j: int|
                    0 <= j < i && (#[trigger] all[j]).1.nanos < now.nanos ==> gone@.contains(
                        all[j].0,
                    ),
            decreases self.entries@.len() - i,
        {
            let entry: (SocketAddr, Instant) = self.entries[i];
            let ghost kept_old = kept@;
            let ghost gone_before = gone@;
            if entry.1.nanos < now.nanos {
                gone.push(entry.0);
                proof {
                    assert(gone@[gone_before.len() as int] == entry.0);
                    assert forall|k: int| 0 <= k < gone_before.len() implies gone_before[k]
                        != entry.0 by {
                        let j = choose|j: int|
                            0 <= j < i && (#[trigger] all[j]).0 == gone_before[k]
                                && all[j].1.nanos < now.nanos;
                        assert(all[j].0 != all[i as int].0);
                    }
                    assert forall|j: int|
                        0 <= j < i + 1 && (#[trigger] all[j]).1.nanos < now.nanos implies gone@.contains(
                    all[j].0) by {
                        if j < i {
                            let k = choose|k: int|
                                0 <= k < gone_before.len() && gone_before[k] == all[j].0;
                            assert(gone@[k] == all[j].0);
                        }
                    }
                    assert forall|k: int| 0 <= k < gone@.len() implies passed_before(
                        all,
                        i + 1,
                        #[trigger] gone@[k],
                        now,
                    ) by {
                        if k < gone_before.len() {
                            let j = choose|j: int|
                                0 <= j < i && (#[trigger] all[j]).0 == gone_before[k]
                                    && all[j].1.nanos < now.nanos;
                            assert(all[j].0 == gone@[k]);
                        } else {
                            assert(all[i as int].0 == gone@[k]);
                        }
                    }
                }
            } else {
                kept.push(entry);
                proof {
                    assert(kept@[kept_old.len() as int] == entry);
                    assert forall|k: int| 0 <= k < kept_old.len() implies kept_old[k].0
                        != entry.0 by {
                        let j = choose|j: int|
                            0 <= j < i && #[trigger] all[j] == kept_old[k]
                                && kept_old[k].1.nanos >= now.nanos;
                        assert(all[j].0 != all[i as int].0);
                    }
                    assert forall|j: int|
                        0 <= j < i + 1 && (#[trigger] all[j]).1.nanos >= now.nanos implies kept@.contains(
                    all[j]) by {
                        if j < i {
                            let k = choose|k: int|
                                0 <= k < kept_old.len() && kept_old[k] == all[j];
                            assert(kept@[k] == all[j]);
                        }
                    }
                    assert forall|k: int| 0 <= k < gone@.len() implies passed_before(
                        all,
                        i + 1,
                        #[trigger] gone@[k],
                        now,
                    ) by {
                        let j = choose|j: int|
                            0 <= j < i && (#[trigger] all[j]).0 == gone@[k] && all[j].1.nanos
                                < now.nanos;
                        assert(all[j].0 == gone@[k]);
                    }
                }
            }
            proof {
                assert forall|k: int| 0 <= k < kept@.len() implies kept_before(
                    all,
                    i + 1,
                    #[trigger] kept@[k],
                    now,
                ) by {
                    if k < kept_old.len() {
                        let j = choose|j: int|
                            0 <= j < i && #[trigger] all[j] == kept_old[k]
                                && kept_old[k].1.nanos >= now.nanos;
                        assert(all[j] == kept@[k]);
                    } else {
                        assert(all[i as int] == kept@[k]);
                    }
                }
            }
            i = i + 1;
        }
        self.entries = kept;
        proof {
            let new = self.entries@;
            assert forall|a: SocketAddr| (#[trigger] self@.contains_key(a)) == not_passed(
                old(self)@,
                now,
            ).contains_key(a) by {
                if self@.contains_key(a) {
                    let k = choose|k: int| entry_at(new, a, k);
                    let j = choose|j: int|
                        0 <= j < i && #[trigger] all[j] == new[k] && new[k].1.nanos >= now.nanos;
                    lemma_entry(all, j);
                }
                if old(self)@.contains_key(a) && old(self)@[a].nanos >= now.nanos {
                    let j = choose|j: int| entry_at(all, a, j);
                    lemma_entry(all, j);
                    assert(new.contains(all[j]));
                    let k = choose|k: int| 0 <= k < new.len() && new[k] == all[j];
                    lemma_entry(new, k);
                }
            }
            assert forall|a: SocketAddr| #[trigger] self@.contains_key(a) implies self@[a] == old(
                self,
            )@[a] by {
                let k = choose|k: int| entry_at(new, a, k);
                lemma_entry(new, k);
                let j = choose|j: int|
                    0 <= j < i && #[trigger] all[j] == new[k] && new[k].1.nanos >= now.nanos;
                lemma_entry(all, j);
            }
            assert(self@ =~= not_passed(old(self)@, now));
            assert forall|a: SocketAddr| gone@.to_set().contains(a) == (old(self)@.contains_key(a)
                && !self@.contains_key(a)) by {
                if gone@.contains(a) {
                    let k = choose|k: int| 0 <= k < gone@.len() && gone@[k] == a;
                    let j = choose|j: int|
                        0 <= j < i && (#[trigger] all[j]).0 == gone@[k] && all[j].1.nanos
                            < now.nanos;
                    lemma_entry(all, j);
                }
                if old(self)@.contains_key(a) && !self@.contains_key(a) {
                    let j = choose|j: int| entry_at(all, a, j);
                    lemma_entry(all, j);
                    assert(gone@.contains(all[j].0));
                }
            }
            assert(gone@.to_set() =~= old(self)@.dom().difference(self@.dom()));
        }
        gone
    }
}

} // verus!
