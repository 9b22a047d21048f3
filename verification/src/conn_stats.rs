//! Statistics of the connection to one robot.

use crate::time::{Duration, Instant};
use crate::utils::pending::{is_oldest, PendingPackets};
use crate::utils::rtt::{
    answered, law_percentiles_ordered, law_summary_is_unique, law_summary_of_times, summarize,
    total_distance, total_time, PacketLoss, RttSummary,
};
use std::collections::VecDeque;
use vstd::prelude::*;

verus! {

#[derive(Clone, Copy, Debug, PartialEq, Eq, Structural)]
pub struct ConnectionStats {
    pub round_trip_packet_loss: PacketLoss,
    pub rtt_avg: Duration,
    pub rtt_stddev: Duration,
    pub rtt_p99: Duration,
    pub rtt_p90: Duration,
    pub rtt_p75: Duration,
}

impl ConnectionStats {
    /// The same numbers as a summary.
    pub open spec fn summary(&self) -> RttSummary {
        RttSummary {
            loss: self.round_trip_packet_loss,
            avg: self.rtt_avg,
            stddev: self.rtt_stddev,
            p99: self.rtt_p99,
            p90: self.rtt_p90,
            p75: self.rtt_p75,
        }
    }

    fn from_summary(r: RttSummary) -> (s: ConnectionStats)
        ensures
            s.summary() == r,
    {
        ConnectionStats {
            round_trip_packet_loss: r.loss,
            rtt_avg: r.avg,
            rtt_stddev: r.stddev,
            rtt_p99: r.p99,
            rtt_p90: r.p90,
            rtt_p75: r.p75,
        }
    }
}

impl Default for ConnectionStats {
    /// Nothing was measured.
    fn default() -> (s: ConnectionStats)
        ensures
            s.summary() == RttSummary::spec_empty(),
    {
        ConnectionStats {
            round_trip_packet_loss: PacketLoss { lost: 0, total: 0 },
            rtt_avg: Duration { nanos: 0 },
            rtt_stddev: Duration { nanos: 0 },
            rtt_p99: Duration { nanos: 0 },
            rtt_p90: Duration { nanos: 0 },
            rtt_p75: Duration { nanos: 0 },
        }
    }
}

/// `history` with one more sample. A history that has reached its length forgets its first sample.
pub open spec fn pushed(
    history: Seq<Option<Duration>>,
    length: nat,
    sample: Option<Duration>,
) -> Seq<Option<Duration>> {
    if history.len() == length && history.len() > 0 {
        history.skip(1).push(sample)
    } else {
        history.push(sample)
    }
}

/// `history` with some more samples.
pub open spec fn pushed_all(
    history: Seq<Option<Duration>>,
    length: nat,
    samples: Seq<Option<Duration>>,
) -> Seq<Option<Duration>>
    decreases samples.len(),
{
    if samples.len() == 0 {
        history
    } else {
        pushed(pushed_all(history, length, samples.drop_last()), length, samples.last())
    }
}

/// The last outcomes, `length` of them at most.
pub open spec fn window(outcomes: Seq<Option<Duration>>, length: nat) -> Seq<Option<Duration>> {
    if outcomes.len() <= length {
        outcomes
    } else {
        outcomes.skip(outcomes.len() - length)
    }
}

pub proof fn lemma_pushed_window(
    outcomes: Seq<Option<Duration>>,
    length: nat,
    sample: Option<Duration>,
)
    requires
        length > 0,
    ensures
        pushed(window(outcomes, length), length, sample) == window(outcomes.push(sample), length),
{
    assert(pushed(window(outcomes, length), length, sample) =~= window(
        outcomes.push(sample),
        length,
    ));
}

/// After any number of samples, a history holds the last of them, as many as its length allows: the
/// oldest outcome is forgotten first. So it is the same as if only those had been recorded.
pub proof fn law_history_is_window(outcomes: Seq<Option<Duration>>, length: nat)
    requires
        length > 0,
    ensures
        pushed_all(Seq::empty(), length, outcomes) == window(outcomes, length),
        pushed_all(Seq::empty(), length, outcomes) == pushed_all(
            Seq::empty(),
            length,
            window(outcomes, length),
        ),
        window(outcomes, length).len() <= length,
{
    lemma_history_is_window(outcomes, length);
    lemma_history_is_window(window(outcomes, length), length);
}

/// Statistics depend on the last outcomes alone: whoever records only these gets the same.
pub proof fn law_stats_of_window(
    outcomes: Seq<Option<Duration>>,
    length: nat,
    all: ConnectionStats,
    recent: ConnectionStats,
)
    requires
        length > 0,
        all.summary().summarizes(pushed_all(Seq::empty(), length, outcomes)),
        recent.summary().summarizes(pushed_all(Seq::empty(), length, window(outcomes, length))),
    ensures
        all == recent,
{
    law_history_is_window(outcomes, length);
    law_summary_is_unique(window(outcomes, length), all.summary(), recent.summary());
}

proof fn lemma_history_is_window(outcomes: Seq<Option<Duration>>, length: nat)
    requires
        length > 0,
    ensures
        pushed_all(Seq::empty(), length, outcomes) == window(outcomes, length),
    decreases outcomes.len(),
{
    if outcomes.len() > 0 {
        let init = outcomes.drop_last();
        lemma_history_is_window(init, length);
        lemma_pushed_window(init, length, outcomes.last());
        assert(init.push(outcomes.last()) =~= outcomes);
    }
}

/// The effect of a sent packet on the statistics.
pub open spec fn tracked_sent(
    before: ConnectionStatTracker,
    counter: u32,
    time: Instant,
    after: ConnectionStatTracker,
) -> bool {
    if before.full() {
        &&& after.history() == pushed(before.history(), before.length(), None)
        &&& exists|k: u32| #[trigger]
            is_oldest(before.pending(), k) && after.pending() == before.pending().remove(k).insert(
                counter,
                time,
            )
    } else {
        &&& after.history() == before.history()
        &&& after.pending() == before.pending().insert(counter, time)
    }
}

/// The effect of a received packet on the statistics.
pub open spec fn tracked_received(
    before: ConnectionStatTracker,
    counter: u32,
    time: Instant,
    after: ConnectionStatTracker,
) -> bool {
    &&& after.pending() == before.pending().remove(counter)
    &&& after.history() == (if before.pending().contains_key(counter) {
        pushed(
            before.history(),
            before.length(),
            Some(Instant::spec_since(time, before.pending()[counter])),
        )
    } else {
        before.history()
    })
}

/// Matches sent packets with their responses by a counter, and keeps a history of the round trip
/// times.
#[derive(Debug)]
pub struct ConnectionStatTracker {
    history_length: usize,
    rtt_history: VecDeque<Option<Duration>>,
    pending: PendingPackets,
}

impl ConnectionStatTracker {
    /// The last samples, oldest first. `None` is a lost packet.
    pub closed spec fn history(&self) -> Seq<Option<Duration>> {
        self.rtt_history@
    }

    pub closed spec fn length(&self) -> nat {
        self.history_length as nat
    }

    /// When the packets that wait for a response were sent.
    pub closed spec fn pending(&self) -> Map<u32, Instant> {
        self.pending@
    }

    /// The number of packets that can wait for a response at once.
    pub closed spec fn max_pending(&self) -> nat {
        self.pending.limit()
    }

    /// Whether the next packet displaces one that waits.
    pub open spec fn full(&self) -> bool {
        self.pending().len() > 0 && self.pending().len() >= self.max_pending()
    }

    pub closed spec fn wf(&self) -> bool {
        &&& self.pending.wf()
        &&& self.length() > 0 ==> self.history().len() <= self.length()
    }

    /// A history of a positive length never exceeds it, and no more packets wait for a response than
    /// allowed. The packet that was sent last may always wait.
    pub proof fn law_bounds(&self)
        requires
            self.wf(),
        ensures
            self.length() > 0 ==> self.history().len() <= self.length(),
            self.pending().len() <= self.max_pending() || self.pending().len() <= 1,
    {
    }

    pub fn new(history_length: usize, max_pending: usize) -> (t: ConnectionStatTracker)
        ensures
            t.wf(),
            t.history() == Seq::<Option<Duration>>::empty(),
            t.length() == history_length,
            t.pending() == Map::<u32, Instant>::empty(),
            t.max_pending() == max_pending,
    {
        ConnectionStatTracker {
            history_length,
            rtt_history: VecDeque::new(),
            pending: PendingPackets::new(max_pending),
        }
    }

    /// Records an outcome: the round trip time of a packet, or that it was lost.
    pub fn push_sample(&mut self, sample: Option<Duration>)
        requires
            old(self).wf(),
        ensures
            final(self).wf(),
            final(self).length() == old(self).length(),
            final(self).pending() == old(self).pending(),
            final(self).max_pending() == old(self).max_pending(),
            final(self).history() == pushed(old(self).history(), old(self).length(), sample),
    {
        if self.rtt_history.len() == self.history_length {
            self.rtt_history.pop_front();
        }
        self.rtt_history.push_back(sample);
        proof {
            assert(self.history() =~= pushed(old(self).history(), old(self).length(), sample));
        }
    }

    /// Remembers a sent packet. If too many packets wait for a response, one that was sent first
    /// counts as lost.
    pub fn sent(&mut self, counter: u32, time: Instant)
        requires
            old(self).wf(),
        ensures
            final(self).wf(),
            final(self).length() == old(self).length(),
            final(self).max_pending() == old(self).max_pending(),
            tracked_sent(*old(self), counter, time, *final(self)),
    {
        if let Some(sent_time) = self.pending.sent(counter, time) {
            let ghost k = choose|k: u32| #[trigger]
                is_oldest(old(self).pending@, k) && old(self).pending@[k] == sent_time
                    && self.pending@ == old(self).pending@.remove(k).insert(counter, time);
            self.push_sample(None);
            proof {
                assert(is_oldest(old(self).pending(), k));
            }
        }
    }

    /// Takes the round trip time of a packet. Unknown counters are ignored.
    pub fn received(&mut self, counter: u32, time: Instant)
        requires
            old(self).wf(),
        ensures
            final(self).wf(),
            final(self).length() == old(self).length(),
            final(self).max_pending() == old(self).max_pending(),
            tracked_received(*old(self), counter, time, *final(self)),
    {
        if let Some(sent_time) = self.pending.received(counter) {
            self.push_sample(Some(time.saturating_duration_since(sent_time)));
        }
    }

    /// Summarizes the history.
    pub fn get(&self) -> (stats: ConnectionStats)
        requires
            self.wf(),
            self.history().len() <= u32::MAX,
        ensures
            stats.summary().summarizes(self.history()),
    {
        ConnectionStats::from_summary(summarize(&self.rtt_history))
    }
}

// ======== Single calls ========

/// A response to a packet that waits is recorded with the time since the packet was sent, or no time
/// if the clock ran backwards. A history that is full forgets its oldest outcome. Any other response
/// changes nothing.
pub proof fn law_response_is_recorded(
    before: ConnectionStatTracker,
    counter: u32,
    now: Instant,
    after: ConnectionStatTracker,
)
    requires
        before.wf(),
        before.length() > 0,
        tracked_received(before, counter, now, after),
    ensures
        before.pending().contains_key(counter) ==> {
            let sent = before.pending()[counter];
            &&& after.history().len() > 0 && after.history().last() is Some
            &&& now.nanos >= sent.nanos ==> after.history().last()->0.nanos == now.nanos
                - sent.nanos
            &&& now.nanos < sent.nanos ==> after.history().last()->0.nanos == 0
            &&& before.history().len() < before.length() ==> after.history().drop_last()
                == before.history()
            &&& before.history().len() == before.length() ==> after.history().drop_last()
                == before.history().drop_first()
        },
        !before.pending().contains_key(counter) ==> after.history() == before.history(),
        after.pending() == before.pending().remove(counter),
{
    before.law_bounds();
    if before.pending().contains_key(counter) {
        if before.history().len() < before.length() {
            assert(after.history().drop_last() =~= before.history());
        } else {
            assert(after.history().drop_last() =~= before.history().drop_first());
        }
    }
}

/// A packet waits from the time on at which it is sent. If as many packets wait as can, one that was
/// sent first is recorded as lost.
pub proof fn law_sent_packet_waits(
    before: ConnectionStatTracker,
    counter: u32,
    now: Instant,
    after: ConnectionStatTracker,
)
    requires
        before.wf(),
        before.length() > 0,
        before.max_pending() > 0,
        tracked_sent(before, counter, now, after),
    ensures
        after.pending().contains_key(counter) && after.pending()[counter] == now,
        before.pending().len() < before.max_pending() ==> {
            &&& after.history() == before.history()
            &&& after.pending() == before.pending().insert(counter, now)
        },
        before.pending().len() >= before.max_pending() ==> {
            &&& after.history().len() > 0 && after.history().last() is None
            &&& before.history().len() < before.length() ==> after.history().drop_last()
                == before.history()
            &&& before.history().len() == before.length() ==> after.history().drop_last()
                == before.history().drop_first()
            &&& exists|lost: u32| #[trigger]
                before.pending().contains_key(lost) && (forall|other: u32| #[trigger]
                    before.pending().contains_key(other) ==> before.pending()[lost].nanos
                        <= before.pending()[other].nanos) && after.pending()
                    == before.pending().remove(lost).insert(counter, now)
        },
{
    before.law_bounds();
    if before.pending().len() >= before.max_pending() {
        let lost = choose|k: u32| #[trigger]
            is_oldest(before.pending(), k) && after.pending() == before.pending().remove(k).insert(
                counter,
                now,
            );
        assert(before.pending().contains_key(lost));
        if before.history().len() < before.length() {
            assert(after.history().drop_last() =~= before.history());
        } else {
            assert(after.history().drop_last() =~= before.history().drop_first());
        }
    }
}

/// What the statistics say of the recorded outcomes: how many there are and how many are losses, the
/// average time and the average distance from it, both rounded down, and three measured times in
/// ascending order.
pub proof fn law_stats_of_history(history: Seq<Option<Duration>>, stats: ConnectionStats)
    requires
        stats.summary().summarizes(history),
    ensures
        stats.round_trip_packet_loss.total == history.len(),
        stats.round_trip_packet_loss.lost == history.len() - answered(history),
        answered(history) == 0 ==> stats.rtt_avg.nanos == 0 && stats.rtt_stddev.nanos == 0
            && stats.rtt_p75.nanos == 0 && stats.rtt_p90.nanos == 0 && stats.rtt_p99.nanos == 0,
        answered(history) > 0 ==> {
            let n = answered(history) as int;
            &&& stats.rtt_avg.nanos * n <= total_time(history) < (stats.rtt_avg.nanos + 1) * n
            &&& stats.rtt_stddev.nanos * n <= total_distance(history, stats.rtt_avg.nanos as int)
                < (stats.rtt_stddev.nanos + 1) * n
            &&& stats.rtt_p75.nanos <= stats.rtt_p90.nanos <= stats.rtt_p99.nanos
            &&& history.contains(Some(stats.rtt_p75))
            &&& history.contains(Some(stats.rtt_p90))
            &&& history.contains(Some(stats.rtt_p99))
        },
{
    law_summary_of_times(history, stats.summary());
    law_percentiles_ordered(history, stats.summary());
}

} // verus!
