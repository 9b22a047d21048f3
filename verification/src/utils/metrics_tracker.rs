//! Round trip times of single packets.

use crate::time::{Duration, Instant};
use crate::utils::pending::{is_oldest, PendingPackets};
use vstd::prelude::*;

verus! {

#[derive(Clone, Copy, Debug, PartialEq, Eq, Structural)]
pub struct MetricsSample {
    /// When the command packet was sent. Used to reorder the events for plotting,
    /// since losses can only be emitted with a significant delay, after the timeout.
    pub sent_time: Instant,
    /// Measured round trip time, None if the packet or the response was lost
    pub rtt: Option<Duration>,
}

/// Helper struct for protocol implementations that tracks the RTT (or loss)
/// of sent packets, assuming each packet shares a counter with its response.
/// Each call returns the samples that it completes.
#[derive(Debug)]
pub struct MetricsTracker {
    /// All currently sent packets by counter and when they were sent
    pending: PendingPackets,
}

impl MetricsTracker {
    /// When the packets that wait for a response were sent.
    pub closed spec fn pending(&self) -> Map<u32, Instant> {
        self.pending@
    }

    /// The maximum number of simultaneous pending packets before the oldest one is considered lost
    pub closed spec fn max_pending(&self) -> nat {
        self.pending.limit()
    }

    pub closed spec fn wf(&self) -> bool {
        self.pending.wf()
    }

    /// Whether the next packet displaces one that waits.
    pub open spec fn full(&self) -> bool {
        self.pending().len() > 0 && self.pending().len() >= self.max_pending()
    }

    /// The effect of a sent packet: if too many packets wait, one that was sent first is given up.
    pub open spec fn on_sent(
        before: MetricsTracker,
        counter: u32,
        time: Instant,
        lost: Option<MetricsSample>,
        after: MetricsTracker,
    ) -> bool {
        &&& after.max_pending() == before.max_pending()
        &&& match lost {
            None => !before.full() && after.pending() == before.pending().insert(counter, time),
            Some(sample) => {
                &&& before.full()
                &&& sample.rtt is None
                &&& exists|k: u32| #[trigger]
                    is_oldest(before.pending(), k) && before.pending()[k] == sample.sent_time
                        && after.pending() == before.pending().remove(k).insert(counter, time)
            },
        }
    }

    /// The effect of a response.
    pub open spec fn on_received(
        before: MetricsTracker,
        counter: u32,
        curr_time: Instant,
        sample: Option<MetricsSample>,
        after: MetricsTracker,
    ) -> bool {
        &&& after.max_pending() == before.max_pending()
        &&& after.pending() == before.pending().remove(counter)
        &&& sample == (if before.pending().contains_key(counter) {
            let sent_time = before.pending()[counter];
            Some(
                MetricsSample {
                    sent_time,
                    rtt: Some(Instant::spec_since(curr_time, sent_time)),
                },
            )
        } else {
            None
        })
    }

    /// The effect of a call.
    pub open spec fn on_call(
        before: MetricsTracker,
        call: TrackerCall,
        sample: Option<MetricsSample>,
        after: MetricsTracker,
    ) -> bool {
        match call {
            TrackerCall::Sent(counter, time) => Self::on_sent(before, counter, time, sample, after),
            TrackerCall::Received(counter, time) => Self::on_received(
                before,
                counter,
                time,
                sample,
                after,
            ),
        }
    }

    pub fn new(max_pending: usize) -> (t: MetricsTracker)
        ensures
            t.wf(),
            t.pending() == Map::<u32, Instant>::empty(),
            t.max_pending() == max_pending,
    {
        MetricsTracker { pending: PendingPackets::new(max_pending) }
    }

    /// Remembers a sent packet. When necessary, one of the oldest pending packets is given up and
    /// returned as lost.
    pub fn sent(&mut self, counter: u32, time: Instant) -> (lost: Option<MetricsSample>)
        requires
            old(self).wf(),
        ensures
            final(self).wf(),
            MetricsTracker::on_sent(*old(self), counter, time, lost, *final(self)),
    {
        match self.pending.sent(counter, time) {
            Some(sent_time) => Some(MetricsSample { sent_time, rtt: None }),
            None => None,
        }
    }

    /// Takes the round trip time of a packet. Unknown counters are ignored.
    pub fn received(&mut self, counter: u32, curr_time: Instant) -> (sample: Option<MetricsSample>)
        requires
            old(self).wf(),
        ensures
            final(self).wf(),
            MetricsTracker::on_received(*old(self), counter, curr_time, sample, *final(self)),
    {
        match self.pending.received(counter) {
            Some(sent_time) => Some(
                MetricsSample {
                    sent_time,
                    rtt: Some(curr_time.saturating_duration_since(sent_time)),
                },
            ),
            None => None,
        }
    }
}

/// A call that changes a tracker.
pub ghost enum TrackerCall {
    Sent(u32, Instant),
    Received(u32, Instant),
}

/// The number of packets that some calls sent.
pub open spec fn sent_count(calls: Seq<TrackerCall>) -> nat
    decreases calls.len(),
{
    if calls.len() == 0 {
        0
    } else {
        sent_count(calls.drop_last()) + if calls.last() is Sent {
            1nat
        } else {
            0
        }
    }
}

/// The number of samples among the results of some calls.
pub open spec fn sample_count(samples: Seq<Option<MetricsSample>>) -> nat
    decreases samples.len(),
{
    if samples.len() == 0 {
        0
    } else {
        sample_count(samples.drop_last()) + if samples.last() is Some {
            1nat
        } else {
            0
        }
    }
}

/// Whether one of the first `n` calls sent this packet.
pub open spec fn was_sent(calls: Seq<TrackerCall>, n: int, counter: u32, time: Instant) -> bool {
    exists|j: int| 0 <= j < n && #[trigger] calls[j] == TrackerCall::Sent(counter, time)
}

/// No counter is used for two packets.
pub open spec fn distinct_counters(calls: Seq<TrackerCall>) -> bool {
    forall|i: int, j: int|
        0 <= i < j < calls.len() && (#[trigger] calls[i]) is Sent && (#[trigger] calls[j]) is Sent
            ==> calls[i]->Sent_0 != calls[j]->Sent_0
}

/// The calls and their results lead from state to state.
pub open spec fn tracker_run(
    states: Seq<MetricsTracker>,
    calls: Seq<TrackerCall>,
    samples: Seq<Option<MetricsSample>>,
) -> bool {
    &&& states.len() == calls.len() + 1
    &&& samples.len() == calls.len()
    &&& forall|i: int|
        0 <= i < calls.len() ==> #[trigger] MetricsTracker::on_call(
            states[i],
            calls[i],
            samples[i],
            states[i + 1],
        )
}

/// A sample of call `i` that belongs to the packet `owner`.
pub open spec fn explained(
    before: MetricsTracker,
    calls: Seq<TrackerCall>,
    i: int,
    sample: MetricsSample,
    owner: u32,
) -> bool {
    &&& was_sent(calls, i, owner, sample.sent_time)
    &&& match calls[i] {
        TrackerCall::Sent(..) => {
            &&& sample.rtt is None
            &&& before.full()
            &&& is_oldest(before.pending(), owner)
        },
        TrackerCall::Received(counter, time) => {
            &&& counter == owner
            &&& sample.rtt == Some(Instant::spec_since(time, sample.sent_time))
        },
    }
}

/// The number of packets that wait never exceeds the limit, and the packet that was sent last can
/// wait even if the limit is 0.
pub proof fn law_waiting_bounded(t: MetricsTracker)
    requires
        t.wf(),
    ensures
        t.pending().dom().finite(),
        t.max_pending() > 0 ==> t.pending().len() <= t.max_pending(),
        t.max_pending() == 0 ==> t.pending().len() <= 1,
{
}

/// Whatever calls a new tracker gets, as long as no counter is used twice:
/// - the packets that wait are those that were sent less those that got a sample,
/// - each sample belongs to a packet that was sent before, whose counter is returned, and carries
///   the time at which that packet was sent,
/// - no packet gets two samples,
/// - a packet is reported as lost only by sending another while the tracker is full, and then it is
///   one that was sent first,
/// - a round trip is reported only by a response to that packet, and runs to that response.
pub proof fn law_samples(
    states: Seq<MetricsTracker>,
    calls: Seq<TrackerCall>,
    samples: Seq<Option<MetricsSample>>,
) -> (owners: Seq<u32>)
    requires
        tracker_run(states, calls, samples),
        states[0].pending() == Map::<u32, Instant>::empty(),
        distinct_counters(calls),
    ensures
        owners.len() == calls.len(),
        states.last().max_pending() == states[0].max_pending(),
        states.last().pending().dom().finite(),
        sent_count(calls) == sample_count(samples) + states.last().pending().len(),
        states[0].max_pending() > 0 ==> states.last().pending().len() <= states[0].max_pending(),
        forall|k: u32| #[trigger]
            states.last().pending().contains_key(k) ==> was_sent(
                calls,
                calls.len() as int,
                k,
                states.last().pending()[k],
            ),
        forall|i: int|
            0 <= i < calls.len() && (#[trigger] samples[i]) is Some ==> explained(
                states[i],
                calls,
                i,
                samples[i]->0,
                owners[i],
            ) && !states.last().pending().contains_key(owners[i]),
        forall|i: int, j: int|
            #![trigger samples[i], samples[j]]
            0 <= i < j < calls.len() && samples[i] is Some && samples[j] is Some ==> owners[i]
                != owners[j],
    decreases calls.len(),
{
    if calls.len() == 0 {
        Seq::empty()
    } else {
        let n = calls.len() - 1;
        let calls0 = calls.drop_last();
        let samples0 = samples.drop_last();
        let states0 = states.drop_last();
        assert forall|i: int| 0 <= i < calls0.len() implies #[trigger] MetricsTracker::on_call(
            states0[i],
            calls0[i],
            samples0[i],
            states0[i + 1],
        ) by {
            assert(MetricsTracker::on_call(states[i], calls[i], samples[i], states[i + 1]));
        }
        assert(distinct_counters(calls0)) by {
            assert forall|i: int, j: int|
                0 <= i < j < calls0.len() && (#[trigger] calls0[i]) is Sent && (
                #[trigger] calls0[j]) is Sent implies calls0[i]->Sent_0 != calls0[j]->Sent_0 by {
                assert(calls[i] == calls0[i] && calls[j] == calls0[j]);
            }
        }
        let owners0 = law_samples(states0, calls0, samples0);
        assert(MetricsTracker::on_call(states[n], calls[n], samples[n], states[n + 1]));
        assert(states0.last() == states[n]);
        let before = states[n].pending();
        let after = states[n + 1].pending();
        assert forall|k: u32, i: int, t: Instant|
            0 <= i <= n && was_sent(calls0, i, k, t) implies #[trigger] was_sent(calls, i, k, t) by {
            let j = choose|j: int|
                0 <= j < i && #[trigger] calls0[j] == TrackerCall::Sent(k, t);
            assert(calls[j] == TrackerCall::Sent(k, t));
        }
        assert forall|k: u32, t: Instant| was_sent(calls, n as int, k, t) implies #[trigger] was_sent(
            calls,
            n + 1,
            k,
            t,
        ) by {
            let j = choose|j: int| 0 <= j < n && #[trigger] calls[j] == TrackerCall::Sent(k, t);
            assert(calls[j] == TrackerCall::Sent(k, t));
        }
        let owner: u32 = match (calls[n], samples[n]) {
            (TrackerCall::Received(counter, _), _) => counter,
            (TrackerCall::Sent(counter, time), Some(sample)) => choose|k: u32| #[trigger]
                is_oldest(before, k) && before[k] == sample.sent_time && after == before.remove(
                    k,
                ).insert(counter, time),
            (TrackerCall::Sent(counter, _), None) => counter,
        };
        let owners = owners0.push(owner);
        if let TrackerCall::Sent(counter, time) = calls[n] {
            assert(was_sent(calls, n + 1, counter, time));
            assert forall|i: int, t: Instant| 0 <= i <= n implies !#[trigger] was_sent(
                calls,
                i,
                counter,
                t,
            ) by {
                if was_sent(calls, i, counter, t) {
                    let j = choose|j: int|
                        0 <= j < i && #[trigger] calls[j] == TrackerCall::Sent(counter, t);
                    assert(calls[j] is Sent && calls[n as int] is Sent);
                }
            }
            assert(!before.contains_key(counter)) by {
                if before.contains_key(counter) {
                    assert(was_sent(calls, n as int, counter, before[counter]));
                }
            }
        }
        if samples[n] is Some {
            assert(before.contains_key(owner));
            assert(was_sent(calls, n as int, owner, before[owner]));
        }
        assert forall|i: int| 0 <= i < n && (#[trigger] samples[i]) is Some implies {
            &&& explained(states[i], calls, i, samples[i]->0, owners[i])
            &&& !after.contains_key(owners[i])
            &&& owners[i] != owner || samples[n] is None
        } by {
            assert(samples0[i] == samples[i] && calls0[i] == calls[i] && states0[i] == states[i]);
            assert(owners[i] == owners0[i]);
            assert(was_sent(calls, i, owners[i], samples[i]->0.sent_time));
        }
        assert forall|i: int, j: int|
            #![trigger samples[i], samples[j]]
            0 <= i < j < calls.len() && samples[i] is Some && samples[j] is Some implies owners[i]
            != owners[j] by {
            if j < n {
                assert(samples0[i] is Some && samples0[j] is Some);
            }
        }
        owners
    }
}

// ======== Single calls ========

/// A response to a packet that waits gives a sample: when the packet was sent, and how long it took
/// from then on, or no time if the clock ran backwards. The packet waits no more, and all others
/// still do. Any other response gives nothing.
pub proof fn law_response_gives_sample(
    before: MetricsTracker,
    counter: u32,
    now: Instant,
    sample: Option<MetricsSample>,
    after: MetricsTracker,
)
    requires
        MetricsTracker::on_received(before, counter, now, sample, after),
    ensures
        sample is Some <==> before.pending().contains_key(counter),
        sample is Some ==> {
            let sent = before.pending()[counter];
            &&& sample->0.sent_time == sent
            &&& sample->0.rtt is Some
            &&& now.nanos >= sent.nanos ==> sample->0.rtt->0.nanos == now.nanos - sent.nanos
            &&& now.nanos < sent.nanos ==> sample->0.rtt->0.nanos == 0
        },
        !after.pending().contains_key(counter),
        forall|k: u32|
            k != counter ==> (#[trigger] after.pending().contains_key(k)
                <==> before.pending().contains_key(k)),
        forall|k: u32|
            k != counter && #[trigger] before.pending().contains_key(k) ==> after.pending()[k]
                == before.pending()[k],
{
}

/// A packet waits from the time on at which it is sent. If as many packets wait as can, one that was
/// sent first is reported as lost, with the time at which it was sent.
pub proof fn law_sent_packet_waits(
    before: MetricsTracker,
    counter: u32,
    now: Instant,
    lost: Option<MetricsSample>,
    after: MetricsTracker,
)
    requires
        before.wf(),
        before.max_pending() > 0,
        MetricsTracker::on_sent(before, counter, now, lost, after),
    ensures
        after.pending().contains_key(counter) && after.pending()[counter] == now,
        lost is Some <==> before.pending().len() == before.max_pending(),
        lost is None ==> after.pending() == before.pending().insert(counter, now),
        lost is Some ==> {
            &&& lost->0.rtt is None
            &&& forall|k: u32| #[trigger]
                before.pending().contains_key(k) ==> lost->0.sent_time.nanos
                    <= before.pending()[k].nanos
            &&& exists|k: u32| #[trigger]
                before.pending().contains_key(k) && before.pending()[k] == lost->0.sent_time
                    && after.pending() == before.pending().remove(k).insert(counter, now)
        },
{
    law_waiting_bounded(before);
    if let Some(sample) = lost {
        let k = choose|k: u32| #[trigger]
            is_oldest(before.pending(), k) && before.pending()[k] == sample.sent_time
                && after.pending() == before.pending().remove(k).insert(counter, now);
        assert(before.pending().contains_key(k));
    }
}

} // verus!
