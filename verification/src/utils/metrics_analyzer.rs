//! Metrics of all robots.

use crate::conn_stats::{lemma_pushed_window, pushed, window};
use crate::time::Duration;
use crate::utils::maps::keys_of;
use crate::utils::rtt::{
    answered, law_percentiles_ordered, law_summary_of_times, summarize, total_distance, total_time,
    PacketLoss, RttSummary,
};
use crate::ConnectionDriverEvent;
use std::collections::hash_map::Entry;
use std::collections::{HashMap, VecDeque};
use vstd::prelude::*;

verus! {

broadcast use vstd::std_specs::hash::group_hash_axioms;

#[derive(Clone, Copy, Debug, PartialEq, Eq, Structural)]
pub struct ConnectionMetrics {
    pub round_trip_packet_loss: PacketLoss,
    pub rtt_avg: Duration,
    pub rtt_stddev: Duration,
    pub rtt_p99: Duration,
    pub rtt_p90: Duration,
    pub rtt_p75: Duration,
}

impl ConnectionMetrics {
    /// The same numbers as a summary.
    pub open spec fn summary(&self) -> RttSummary {
        RttSummary {
            loss: self.round_trip_packet_loss,
            avg: self.rtt_avg,
            stddev: self.rtt_stddev,
            p99: self.rtt_p99,
            p90: self.rtt_p90,
            p75: self.rtt_p75,
        }
    }

    fn from_summary(r: RttSummary) -> (m: ConnectionMetrics)
        ensures
            m.summary() == r,
    {
        ConnectionMetrics {
            round_trip_packet_loss: r.loss,
            rtt_avg: r.avg,
            rtt_stddev: r.stddev,
            rtt_p99: r.p99,
            rtt_p90: r.p90,
            rtt_p75: r.p75,
        }
    }
}

impl Default for ConnectionMetrics {
    /// Nothing was measured.
    fn default() -> (m: ConnectionMetrics)
        ensures
            m.summary() == RttSummary::spec_empty(),
    {
        ConnectionMetrics {
            round_trip_packet_loss: PacketLoss { lost: 0, total: 0 },
            rtt_avg: Duration { nanos: 0 },
            rtt_stddev: Duration { nanos: 0 },
            rtt_p99: Duration { nanos: 0 },
            rtt_p90: Duration { nanos: 0 },
            rtt_p75: Duration { nanos: 0 },
        }
    }
}

/// Helper struct for aggregating and analyzing connection metrics from a [ConnectionDriverEvent] stream.
///
/// Similar to the [ConnectionStateCache](crate::cache::ConnectionStateCache).
#[derive(Debug)]
pub struct MetricsAnalyzer {
    history_length: usize,
    rtt_histories: HashMap<u8, VecDeque<Option<Duration>>>,
}

/// The samples of each robot, oldest first.
pub type Histories = Map<u8, Seq<Option<Duration>>>;

/// The histories after an event.
pub open spec fn analyzed<RR, DR>(
    histories: Histories,
    length: nat,
    event: ConnectionDriverEvent<RR, DR>,
) -> Histories {
    match event {
        ConnectionDriverEvent::Connected(id, _) => histories.insert(id, Seq::empty()),
        ConnectionDriverEvent::Disconnected(id) => histories.remove(id),
        ConnectionDriverEvent::MetricsSample(id, sample) => if histories.contains_key(id) {
            histories.insert(id, pushed(histories[id], length, sample.rtt))
        } else {
            histories.insert(id, seq![sample.rtt])
        },
        _ => histories,
    }
}

impl MetricsAnalyzer {
    pub closed spec fn view(&self) -> Histories {
        self.rtt_histories@.map_values(|h: VecDeque<Option<Duration>>| h@)
    }

    pub closed spec fn length(&self) -> nat {
        self.history_length as nat
    }

    pub fn new(history_length: usize) -> (a: MetricsAnalyzer)
        ensures
            a@ == Histories::empty(),
            a.length() == history_length,
    {
        let a = MetricsAnalyzer { history_length, rtt_histories: HashMap::new() };
        proof {
            assert(a@ =~= Histories::empty());
        }
        a
    }

    /// Takes an event. The first sample of a robot without a connection starts its history.
    pub fn update<RR, DR>(&mut self, driver_event: &ConnectionDriverEvent<RR, DR>)
        ensures
            final(self).length() == old(self).length(),
            final(self)@ == analyzed(old(self)@, old(self).length(), *driver_event),
    {
        match driver_event {
            ConnectionDriverEvent::Connected(robot_id, _) => {
                self.rtt_histories.insert(*robot_id, VecDeque::new());
                proof {
                    assert(self@ =~= old(self)@.insert(*robot_id, Seq::empty()));
                }
            },
            ConnectionDriverEvent::Disconnected(robot_id) => {
                self.rtt_histories.remove(robot_id);
                proof {
                    assert(self@ =~= old(self)@.remove(*robot_id));
                }
            },
            ConnectionDriverEvent::MetricsSample(robot_id, sample) => {
                let length: usize = self.history_length;
                match self.rtt_histories.entry(*robot_id) {
                    Entry::Occupied(entry) => {
                        let history: &mut VecDeque<Option<Duration>> = entry.into_mut();
                        let ghost before = history@;
                        if history.len() == length {
                            history.pop_front();
                        }
                        history.push_back(sample.rtt);
                        proof {
                            assert(history@ =~= pushed(before, length as nat, sample.rtt));
                        }
                    },
                    Entry::Vacant(entry) => {
                        let mut history: VecDeque<Option<Duration>> = VecDeque::new();
                        history.push_back(sample.rtt);
                        proof {
                            assert(history@ =~= seq![sample.rtt]);
                        }
                        entry.insert(history);
                    },
                }
                proof {
                    assert(self@ =~= analyzed(old(self)@, old(self).length(), *driver_event));
                }
            },
            _ => {},
        }
    }

    /// The metrics of a robot, if it is known.
    pub fn get(&self, robot_id: u8) -> (metrics: Option<ConnectionMetrics>)
        requires
            self@.contains_key(robot_id) ==> self@[robot_id].len() <= u32::MAX,
        ensures
            match metrics {
                Some(m) => self@.contains_key(robot_id) && m.summary().summarizes(self@[robot_id]),
                None => !self@.contains_key(robot_id),
            },
    {
        match self.rtt_histories.get(&robot_id) {
            Some(rtt_history) => {
                proof {
                    assert(self@[robot_id] == rtt_history@);
                }
                Some(ConnectionMetrics::from_summary(summarize(rtt_history)))
            },
            None => None,
        }
    }

    /// The aggregated metrics for all known robots, in arbitrary order.
    /// Does NOT cache the results, so it can get very expensive with many robots.
    pub fn iter(&self) -> (all: Vec<(u8, ConnectionMetrics)>)
        requires
            forall|id: u8| #[trigger] self@.contains_key(id) ==> self@[id].len() <= u32::MAX,
        ensures
            all@.len() == self@.len(),
            forall|i: int|
                0 <= i < all@.len() ==> self@.contains_key((#[trigger] all@[i]).0)
                    && all@[i].1.summary().summarizes(self@[all@[i].0]),
            forall|i: int, j: int|
                0 <= i < j < all@.len() ==> (#[trigger] all@[i]).0 != (#[trigger] all@[j]).0,
            forall|id: u8| #[trigger]
                self@.contains_key(id) ==> exists|i: int|
                    0 <= i < all@.len() && (#[trigger] all@[i]).0 == id,
    {
        let ids: Vec<u8> = keys_of(&self.rtt_histories);
        proof {
            assert(self@.dom() =~= self.rtt_histories@.dom());
        }
        let mut all: Vec<(u8, ConnectionMetrics)> = Vec::new();
        let mut i: usize = 0;
        while i < ids.len()
            invariant
                i <= ids@.len(),
                all@.len() == i,
                ids@.to_set() == self@.dom(),
                forall|id: u8| #[trigger] self@.contains_key(id) ==> self@[id].len() <= u32::MAX,
                forall|k: int|
                    0 <= k < i ==> (#[trigger] all@[k]).0 == ids@[k] && self@.contains_key(all@[k].0)
                        && all@[k].1.summary().summarizes(self@[all@[k].0]),
            decreases ids@.len() - i,
        {
            proof {
                assert(ids@.to_set().contains(ids@[i as int]));
                assert(self@.contains_key(ids@[i as int]));
            }
            if let Some(metrics) = self.get(ids[i]) {
                all.push((ids[i], metrics));
            }
            i = i + 1;
        }
        proof {
            assert forall|id: u8| #[trigger] self@.contains_key(id) implies exists|i: int|
                0 <= i < all@.len() && (#[trigger] all@[i]).0 == id by {
                assert(ids@.to_set().contains(id));
                let k = choose|k: int| 0 <= k < ids@.len() && ids@[k] == id;
                assert(all@[k].0 == id);
            }
        }
        all
    }
}

/// The histories after some events.
pub open spec fn analyzed_all<RR, DR>(
    histories: Histories,
    length: nat,
    events: Seq<ConnectionDriverEvent<RR, DR>>,
) -> Histories
    decreases events.len(),
{
    if events.len() == 0 {
        histories
    } else {
        analyzed(analyzed_all(histories, length, events.drop_last()), length, events.last())
    }
}

/// All outcomes of a robot since it was connected, oldest first.
pub open spec fn outcomes_of<RR, DR>(events: Seq<ConnectionDriverEvent<RR, DR>>, id: u8) -> Option<
    Seq<Option<Duration>>,
>
    decreases events.len(),
{
    if events.len() == 0 {
        None
    } else {
        let before = outcomes_of(events.drop_last(), id);
        match events.last() {
            ConnectionDriverEvent::Connected(i, _) => if i == id {
                Some(Seq::empty())
            } else {
                before
            },
            ConnectionDriverEvent::Disconnected(i) => if i == id {
                None
            } else {
                before
            },
            ConnectionDriverEvent::MetricsSample(i, sample) => if i == id {
                match before {
                    Some(outcomes) => Some(outcomes.push(sample.rtt)),
                    None => Some(seq![sample.rtt]),
                }
            } else {
                before
            },
            _ => before,
        }
    }
}

/// Whatever events arrive, the history of a robot holds the last outcomes since it was connected, as
/// many as its length allows.
pub proof fn law_history_is_window<RR, DR>(
    length: nat,
    events: Seq<ConnectionDriverEvent<RR, DR>>,
    id: u8,
)
    requires
        length > 0,
    ensures
        analyzed_all(Histories::empty(), length, events).contains_key(id) <==> outcomes_of(
            events,
            id,
        ) is Some,
        outcomes_of(events, id) matches Some(outcomes) ==> analyzed_all(
            Histories::empty(),
            length,
            events,
        )[id] == window(outcomes, length),
    decreases events.len(),
{
    if events.len() > 0 {
        let init = events.drop_last();
        law_history_is_window(length, init, id);
        if let Some(outcomes) = outcomes_of(init, id) {
            if let ConnectionDriverEvent::MetricsSample(_, sample) = events.last() {
                lemma_pushed_window(outcomes, length, sample.rtt);
            }
        }
        if let ConnectionDriverEvent::MetricsSample(_, sample) = events.last() {
            assert(window(seq![sample.rtt], length) =~= seq![sample.rtt]);
        }
        assert(window(Seq::<Option<Duration>>::empty(), length) =~= Seq::empty());
    }
}

/// A history of a positive length never exceeds it, whatever events arrive.
pub proof fn law_history_bound<RR, DR>(
    histories: Histories,
    length: nat,
    event: ConnectionDriverEvent<RR, DR>,
)
    requires
        length > 0,
        forall|id: u8| #[trigger] histories.contains_key(id) ==> histories[id].len() <= length,
    ensures
        forall|id: u8| #[trigger]
            analyzed(histories, length, event).contains_key(id) ==> analyzed(
                histories,
                length,
                event,
            )[id].len() <= length,
{
}

/// A robot that connects again starts with an empty history.
pub proof fn law_reconnect_resets<RR, DR>(
    histories: Histories,
    length: nat,
    id: u8,
    addr: crate::transceivers::address::RobotTransceiverAddress,
)
    ensures
        analyzed(histories, length, ConnectionDriverEvent::<RR, DR>::Connected(id, addr))[id].len()
            == 0,
{
}

// ======== Metrics of a history ========

/// What the metrics say of the recorded outcomes: how many there are and how many are losses, the
/// average time and the average distance from it, both rounded down, and three measured times in
/// ascending order.
pub proof fn law_metrics_of_history(history: Seq<Option<Duration>>, metrics: ConnectionMetrics)
    requires
        metrics.summary().summarizes(history),
    ensures
        metrics.round_trip_packet_loss.total == history.len(),
        metrics.round_trip_packet_loss.lost == history.len() - answered(history),
        answered(history) == 0 ==> metrics.rtt_avg.nanos == 0 && metrics.rtt_stddev.nanos == 0
            && metrics.rtt_p75.nanos == 0 && metrics.rtt_p90.nanos == 0 && metrics.rtt_p99.nanos
            == 0,
        answered(history) > 0 ==> {
            let n = answered(history) as int;
            &&& metrics.rtt_avg.nanos * n <= total_time(history) < (metrics.rtt_avg.nanos + 1) * n
            &&& metrics.rtt_stddev.nanos * n <= total_distance(
                history,
                metrics.rtt_avg.nanos as int,
            ) < (metrics.rtt_stddev.nanos + 1) * n
            &&& metrics.rtt_p75.nanos <= metrics.rtt_p90.nanos <= metrics.rtt_p99.nanos
            &&& history.contains(Some(metrics.rtt_p75))
            &&& history.contains(Some(metrics.rtt_p90))
            &&& history.contains(Some(metrics.rtt_p99))
        },
{
    law_summary_of_times(history, metrics.summary());
    law_percentiles_ordered(history, metrics.summary());
}

} // verus!
