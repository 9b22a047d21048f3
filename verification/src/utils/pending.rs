//! Packets that were sent and not answered yet.

use crate::time::Instant;
use crate::utils::maps::keys_of;
use std::collections::HashMap;
use vstd::prelude::*;

verus! {

broadcast use vstd::std_specs::hash::group_hash_axioms;

/// The packets that wait for a response, by counter.
#[derive(Debug)]
pub struct PendingPackets {
    max_pending: usize,
    sent_times: HashMap<u32, Instant>,
}

/// Whether `k` is among the packets that were sent first.
pub open spec fn is_oldest(pending: Map<u32, Instant>, k: u32) -> bool {
    &&& pending.contains_key(k)
    &&& forall|j: u32| #[trigger] pending.contains_key(j) ==> pending[k].nanos <= pending[j].nanos
}

proof fn lemma_keys(keys: Seq<u32>, m: Map<u32, Instant>)
    requires
        keys.to_set() == m.dom(),
    ensures
        forall|k: int| 0 <= k < keys.len() ==> m.contains_key(#[trigger] keys[k]),
{
    assert forall|k: int| 0 <= k < keys.len() implies m.contains_key(#[trigger] keys[k]) by {
        assert(keys.to_set().contains(keys[k]));
    }
}

impl PendingPackets {
    /// When each waiting packet was sent.
    pub closed spec fn view(&self) -> Map<u32, Instant> {
        self.sent_times@
    }

    /// The number of packets that can wait at once. The packet that was sent last always can.
    pub closed spec fn limit(&self) -> nat {
        self.max_pending as nat
    }

    pub open spec fn wf(&self) -> bool {
        &&& self@.dom().finite()
        &&& self@.len() <= self.limit() || self@.len() <= 1
    }

    /// Whether the next packet displaces one that waits.
    pub open spec fn full(&self) -> bool {
        self@.len() > 0 && self@.len() >= self.limit()
    }

    pub fn new(max_pending: usize) -> (p: PendingPackets)
        ensures
            p.wf(),
            p@ == Map::<u32, Instant>::empty(),
            p.limit() == max_pending,
    {
        PendingPackets { max_pending, sent_times: HashMap::new() }
    }

    /// A packet that was sent first.
    fn oldest(&self) -> (oldest: u32)
        requires
            self.wf(),
            self@.len() > 0,
        ensures
            is_oldest(self@, oldest),
    {
        let keys: Vec<u32> = keys_of(&self.sent_times);
        proof {
            assert(keys@.to_set().len() > 0);
            lemma_keys(keys@, self@);
        }
        let mut best: u32 = keys[0];
        let mut i: usize = 1;
        while i < keys.len()
            invariant
                1 <= i <= keys@.len(),
                self@.contains_key(best),
                forall|k: int| 0 <= k < keys@.len() ==> self@.contains_key(#[trigger] keys@[k]),
                forall|k: int|
                    0 <= k < i ==> self@[best].nanos <= self@[#[trigger] keys@[k]].nanos,
            decreases keys@.len() - i,
        {
            let key: u32 = keys[i];
            assert(self@.contains_key(keys@[i as int]));
            if let (Some(t), Some(b)) = (self.sent_times.get(&key), self.sent_times.get(&best)) {
                if t.nanos < b.nanos {
                    best = key;
                }
            }
            i = i + 1;
        }
        proof {
            assert forall|j: u32| #[trigger] self@.contains_key(j) implies self@[best].nanos
                <= self@[j].nanos by {
                assert(keys@.to_set().contains(j));
                let k = choose|k: int| 0 <= k < keys@.len() && keys@[k] == j;
                assert(keys@[k] == j);
            }
        }
        best
    }

    /// Remembers a packet. If too many packets wait, one that was sent first is given up and its
    /// time of sending is returned.
    pub fn sent(&mut self, counter: u32, time: Instant) -> (lost: Option<Instant>)
        requires
            old(self).wf(),
        ensures
            final(self).wf(),
            final(self).limit() == old(self).limit(),
            match lost {
                None => !old(self).full() && final(self)@ == old(self)@.insert(counter, time),
                Some(t) => old(self).full() && exists|k: u32| #[trigger]
                    is_oldest(old(self)@, k) && old(self)@[k] == t && final(self)@ == old(
                        self,
                    )@.remove(k).insert(counter, time),
            },
    {
        let mut lost: Option<Instant> = None;
        if self.sent_times.len() > 0 && self.sent_times.len() >= self.max_pending {
            let k: u32 = self.oldest();
            lost = self.sent_times.remove(&k);
        }
        self.sent_times.insert(counter, time);
        lost
    }

    /// Stops waiting for a packet and returns when it was sent.
    pub fn received(&mut self, counter: u32) -> (sent: Option<Instant>)
        requires
            old(self).wf(),
        ensures
            final(self).wf(),
            final(self).limit() == old(self).limit(),
            final(self)@ == old(self)@.remove(counter),
            sent == (if old(self)@.contains_key(counter) {
                Some(old(self)@[counter])
            } else {
                None
            }),
    {
        self.sent_times.remove(&counter)
    }
}

} // verus!
