//! Sending a packet to every robot at a fixed rate.

use crate::conn_stats::ConnectionStats;
use crate::driver::ConnectionDriver;
use crate::protocol::RadioProtocol;
use crate::time::{Duration, Instant};
use crate::transceivers::address::{AddressView, RobotTransceiverAddress};
use std::collections::HashMap;
use vstd::prelude::*;

verus! {

broadcast use vstd::std_specs::hash::group_hash_axioms;

/// The time between two packets to a robot, in milliseconds, unless it is configured otherwise.
pub const DEFAULT_SEND_PERIOD_MILLIS: u64 = 10;

/// A request to the sending thread.
#[derive(Clone, Copy, Debug, PartialEq, Eq, Structural)]
pub enum PeriodicControlMessage {
    SetSendPeriod(Duration),
    Stop,
}

/// The clock of the sending thread.
#[derive(Clone, Copy, Debug, PartialEq, Eq, Structural)]
pub struct SendTimer {
    pub send_period: Duration,
    pub next_send_time: Instant,
}

impl SendTimer {
    /// When the next cycle is due if the current one ends in time.
    pub open spec fn due(&self) -> int {
        self.next_send_time.nanos + self.send_period.nanos
    }

    /// The timer after a cycle that ended at `now`.
    pub open spec fn finished(&self, now: Instant) -> SendTimer {
        SendTimer {
            send_period: self.send_period,
            next_send_time: if now.nanos < self.due() {
                Instant { nanos: self.due() as u64 }
            } else {
                now
            },
        }
    }

    /// The effect of the end of a cycle, and how long to sleep.
    pub open spec fn cycle_ended(
        before: SendTimer,
        now: Instant,
        sleep: Option<Duration>,
        after: SendTimer,
    ) -> bool {
        &&& after == before.finished(now)
        &&& match sleep {
            Some(d) => now.nanos < before.due() && d.nanos == before.due() - now.nanos,
            None => now.nanos >= before.due(),
        }
    }

    /// Starts with the default period and the first cycle at `now`.
    pub fn new(now: Instant) -> (t: SendTimer)
        ensures
            t.send_period.nanos == 10_000_000,
            t.next_send_time == now,
    {
        SendTimer {
            send_period: Duration::from_millis(DEFAULT_SEND_PERIOD_MILLIS),
            next_send_time: now,
        }
    }

    /// The effect of a control message.
    pub open spec fn controlled(
        before: SendTimer,
        msg: PeriodicControlMessage,
        stop: bool,
        after: SendTimer,
    ) -> bool {
        &&& stop == (msg is Stop)
        &&& after.next_send_time == before.next_send_time
        &&& after.send_period == (match msg {
            PeriodicControlMessage::SetSendPeriod(val) => val,
            PeriodicControlMessage::Stop => before.send_period,
        })
    }

    /// Takes a control message. Returns whether the thread has to stop.
    pub fn control(&mut self, msg: PeriodicControlMessage) -> (stop: bool)
        ensures
            Self::controlled(*old(self), msg, stop, *final(self)),
    {
        match msg {
            PeriodicControlMessage::SetSendPeriod(val) => {
                self.send_period = val;
                false
            },
            PeriodicControlMessage::Stop => true,
        }
    }

    /// Ends a cycle at `now`. Returns how long to sleep until the next one. The timer is reset when
    /// the cycle took too long.
    pub fn finish_cycle(&mut self, now: Instant) -> (sleep: Option<Duration>)
        requires
            old(self).due() <= u64::MAX,
        ensures
            Self::cycle_ended(*old(self), now, sleep, *final(self)),
    {
        self.next_send_time = self.next_send_time.plus(self.send_period);
        if now.nanos < self.next_send_time.nanos {
            Some(self.next_send_time.saturating_duration_since(now))
        } else {
            // Reset the timer when the last cycle took too long
            self.next_send_time = now;
            None
        }
    }
}

/// The timer after cycles that ended at the given times.
pub open spec fn after_cycles(timer: SendTimer, ends: Seq<Instant>) -> SendTimer
    decreases ends.len(),
{
    if ends.len() == 0 {
        timer
    } else {
        after_cycles(timer, ends.drop_last()).finished(ends.last())
    }
}

/// As long as every cycle ends in time, the cycles start at exact multiples of the period: the rate
/// does not drift.
pub proof fn law_no_drift(timer: SendTimer, ends: Seq<Instant>)
    requires
        timer.next_send_time.nanos + ends.len() * timer.send_period.nanos <= u64::MAX,
        forall|i: int|
            0 <= i < ends.len() ==> (#[trigger] ends[i]).nanos < timer.next_send_time.nanos + (i
                + 1) * timer.send_period.nanos,
    ensures
        after_cycles(timer, ends).send_period == timer.send_period,
        after_cycles(timer, ends).next_send_time.nanos == timer.next_send_time.nanos + ends.len()
            * timer.send_period.nanos,
    decreases ends.len(),
{
    if ends.len() > 0 {
        let n = ends.len() as int;
        let p = timer.send_period.nanos as int;
        assert(n * p == (n - 1) * p + p) by (nonlinear_arith);
        assert forall|i: int| 0 <= i < ends.drop_last().len() implies (
        #[trigger] ends.drop_last()[i]).nanos < timer.next_send_time.nanos + (i + 1)
            * timer.send_period.nanos by {
            assert(ends.drop_last()[i] == ends[i]);
        }
        law_no_drift(timer, ends.drop_last());
        assert(ends[n - 1].nanos < timer.next_send_time.nanos + (n - 1 + 1) * p);
        assert((n - 1 + 1) * p == n * p) by (nonlinear_arith);
    }
}

/// The regular packets that were set for the robots.
#[derive(Debug)]
pub struct RegularPackets<RC> {
    packets: HashMap<u8, RC>,
}

impl<RC: Clone + Default> RegularPackets<RC> {
    /// The packet of each robot that has one.
    pub closed spec fn view(&self) -> Map<u8, RC> {
        self.packets@
    }

    /// Whether `packet` is what is sent to a robot: a copy of its packet, or the default.
    pub open spec fn serves(&self, robot_id: u8, packet: RC) -> bool {
        if self@.contains_key(robot_id) {
            cloned(self@[robot_id], packet)
        } else {
            call_ensures(RC::default, (), packet)
        }
    }

    pub fn new() -> (p: Self)
        ensures
            p@ == Map::<u8, RC>::empty(),
    {
        RegularPackets { packets: HashMap::new() }
    }

    /// Sets the packet that is sent to a robot from now on.
    pub fn set_regular_packet(&mut self, robot_id: u8, packet: RC)
        ensures
            final(self)@ == old(self)@.insert(robot_id, packet),
    {
        self.packets.insert(robot_id, packet);
    }

    /// The packet to send to a robot.
    pub fn packet_for(&self, robot_id: u8) -> (packet: RC)
        ensures
            self.serves(robot_id, packet),
    {
        match self.packets.get(&robot_id) {
            Some(packet) => packet.clone(),
            None => RC::default(),
        }
    }
}

/// Whether every packet that can be served to a connected robot can be sent.
pub open spec fn all_sendable<RC, RR, DC, DR, P>(
    conns: Map<u8, (AddressView, P)>,
    packets: RegularPackets<RC>,
) -> bool where RC: Clone + Default, P: RadioProtocol<RC, RR, DC, DR> + Default {
    forall|id: u8, packet: RC|
        conns.contains_key(id) && #[trigger] packets.serves(id, packet) ==> P::sendable(packet)
}

/// Whether a message carries the next packet of a robot to its address.
pub open spec fn carries<RC, RR, DC, DR, P>(
    before: (AddressView, P),
    packets: RegularPackets<RC>,
    id: u8,
    now: Instant,
    message: (RobotTransceiverAddress, Vec<u8>),
    after: (AddressView, P),
) -> bool where RC: Clone + Default, P: RadioProtocol<RC, RR, DC, DR> + Default {
    &&& message.0@ == before.0
    &&& after.0 == before.0
    &&& exists|packet: RC| #[trigger]
        packets.serves(id, packet) && P::on_sent(before.1, packet, now, message.1@, after.1)
}

/// Whether `messages` carry exactly one packet to every connected robot.
pub open spec fn sent_to_all<RC, RR, DC, DR, P>(
    before: Map<u8, (AddressView, P)>,
    packets: RegularPackets<RC>,
    now: Instant,
    messages: Seq<(RobotTransceiverAddress, Vec<u8>)>,
    after: Map<u8, (AddressView, P)>,
) -> bool where RC: Clone + Default, P: RadioProtocol<RC, RR, DC, DR> + Default {
    &&& after.dom() == before.dom()
    &&& exists|ids: Seq<u8>| #[trigger]
        ids.to_set() == before.dom() && ids.no_duplicates() && ids.len() == messages.len()
            && forall|i: int|
            0 <= i < ids.len() ==> carries::<RC, RR, DC, DR, P>(
                before[ids[i]],
                packets,
                ids[i],
                now,
                #[trigger] messages[i],
                after[ids[i]],
            )
}

/// Packs one packet for every connected robot, in arbitrary order.
pub fn send_all<RC, RR, DC, DR, P>(
    driver: &mut ConnectionDriver<RC, RR, DC, DR, P>,
    packets: &RegularPackets<RC>,
    now: Instant,
) -> (messages: Vec<(RobotTransceiverAddress, Vec<u8>)>) where
    RC: Clone + Default,
    P: RadioProtocol<RC, RR, DC, DR> + Default,

    requires
        old(driver).wf(),
        all_sendable::<RC, RR, DC, DR, P>(old(driver)@, *packets),
    ensures
        final(driver).wf(),
        sent_to_all::<RC, RR, DC, DR, P>(
            old(driver)@,
            *packets,
            now,
            messages@,
            final(driver)@,
        ),
{
    let ids: Vec<u8> = driver.connected_robots();
    let mut messages: Vec<(RobotTransceiverAddress, Vec<u8>)> = Vec::new();
    let mut i: usize = 0;
    while i < ids.len()
        invariant
            i <= ids@.len(),
            ids@.no_duplicates(),
            ids@.to_set() == old(driver)@.dom(),
            driver.wf(),
            all_sendable::<RC, RR, DC, DR, P>(old(driver)@, *packets),
            driver@.dom() == old(driver)@.dom(),
            messages@.len() == i,
            forall|k: int| i <= k < ids@.len() ==> driver@[#[trigger] ids@[k]] == old(driver)@[ids@[k]],
            forall|k: int|
                0 <= k < i ==> carries::<RC, RR, DC, DR, P>(
                    old(driver)@[ids@[k]],
                    *packets,
                    ids@[k],
                    now,
                    #[trigger] messages@[k],
                    driver@[ids@[k]],
                ),
        decreases ids@.len() - i,
    {
        let id: u8 = ids[i];
        let ghost before = driver@;
        proof {
            assert(ids@.to_set().contains(id));
            assert(driver@.contains_key(id));
        }
        let packet: RC = packets.packet_for(id);
        let ghost p = packet;
        if let Some(message) = driver.send_packet(id, packet, now) {
            messages.push(message);
        }
        proof {
            assert(driver@.dom() =~= old(driver)@.dom());
            assert(packets.serves(id, p));
            assert(carries::<RC, RR, DC, DR, P>(
                old(driver)@[id],
                *packets,
                id,
                now,
                messages@[i as int],
                driver@[id],
            ));
        }
        i = i + 1;
    }
    proof {
        assert(ids@.to_set() == old(driver)@.dom());
    }
    messages
}

/// A connection driver that sends a packet to every robot once per period.
#[derive(Debug)]
pub struct PeriodicConnectionDriver<RC, RR, DC, DR, P> {
    inner: ConnectionDriver<RC, RR, DC, DR, P>,
    packets: RegularPackets<RC>,
    timer: SendTimer,
    send_period: Duration,
}

impl<RC, RR, DC, DR, P> PeriodicConnectionDriver<RC, RR, DC, DR, P> where
    RC: Clone + Default,
    P: RadioProtocol<RC, RR, DC, DR> + Default,
 {
    pub closed spec fn driver(&self) -> ConnectionDriver<RC, RR, DC, DR, P> {
        self.inner
    }

    pub closed spec fn packets(&self) -> RegularPackets<RC> {
        self.packets
    }

    pub closed spec fn timer(&self) -> SendTimer {
        self.timer
    }

    pub closed spec fn wf(&self) -> bool {
        &&& self.inner.wf()
        &&& self.send_period.nanos == 10_000_000
    }

    /// Starts sending with the default period.
    pub fn new(conn_driver: ConnectionDriver<RC, RR, DC, DR, P>, now: Instant) -> (p: Self)
        requires
            conn_driver.wf(),
        ensures
            p.wf(),
            p.driver() == conn_driver,
            p.packets()@ == Map::<u8, RC>::empty(),
            p.timer().send_period.nanos == 10_000_000,
            p.timer().next_send_time == now,
    {
        PeriodicConnectionDriver {
            inner: conn_driver,
            packets: RegularPackets::new(),
            timer: SendTimer::new(now),
            send_period: Duration::from_millis(DEFAULT_SEND_PERIOD_MILLIS),
        }
    }

    /// Sends with another period from the next cycle on.
    pub fn set_send_period(&mut self, period: Duration)
        requires
            old(self).wf(),
        ensures
            final(self).wf(),
            final(self).driver() == old(self).driver(),
            final(self).packets() == old(self).packets(),
            final(self).timer() == (SendTimer { send_period: period, ..old(self).timer() }),
    {
        self.timer.control(PeriodicControlMessage::SetSendPeriod(period));
    }

    /// The period that sending started with.
    pub fn send_period(&self) -> (period: Duration)
        requires
            self.wf(),
        ensures
            period.nanos == 10_000_000,
    {
        self.send_period
    }

    pub fn set_regular_packet(&mut self, robot_id: u8, packet: RC)
        requires
            old(self).wf(),
        ensures
            final(self).wf(),
            final(self).driver() == old(self).driver(),
            final(self).timer() == old(self).timer(),
            final(self).packets()@ == old(self).packets()@.insert(robot_id, packet),
    {
        self.packets.set_regular_packet(robot_id, packet);
    }

    pub fn queue_datagram(&mut self, robot_id: u8, datagram: DC)
        requires
            old(self).wf(),
        ensures
            final(self).wf(),
            final(self).packets() == old(self).packets(),
            final(self).timer() == old(self).timer(),
            if old(self).driver()@.contains_key(robot_id) {
                &&& final(self).driver()@.contains_key(robot_id)
                &&& P::on_queued(
                    old(self).driver()@[robot_id].1,
                    datagram,
                    final(self).driver()@[robot_id].1,
                )
                &&& final(self).driver()@ == old(self).driver()@.insert(
                    robot_id,
                    (old(self).driver()@[robot_id].0, final(self).driver()@[robot_id].1),
                )
            } else {
                final(self).driver()@ == old(self).driver()@
            },
    {
        self.inner.queue_datagram(robot_id, datagram);
    }

    /// Runs one cycle: packs a packet for every connected robot.
    pub fn send_packets(&mut self, now: Instant) -> (messages: Vec<
        (RobotTransceiverAddress, Vec<u8>),
    >)
        requires
            old(self).wf(),
            all_sendable::<RC, RR, DC, DR, P>(old(self).driver()@, old(self).packets()),
        ensures
            final(self).wf(),
            final(self).packets() == old(self).packets(),
            final(self).timer() == old(self).timer(),
            sent_to_all::<RC, RR, DC, DR, P>(
                old(self).driver()@,
                old(self).packets(),
                now,
                messages@,
                final(self).driver()@,
            ),
    {
        send_all(&mut self.inner, &self.packets, now)
    }

    /// Ends a cycle. Returns how long to sleep until the next one.
    pub fn finish_cycle(&mut self, now: Instant) -> (sleep: Option<Duration>)
        requires
            old(self).wf(),
            old(self).timer().due() <= u64::MAX,
        ensures
            final(self).wf(),
            final(self).driver() == old(self).driver(),
            final(self).packets() == old(self).packets(),
            SendTimer::cycle_ended(old(self).timer(), now, sleep, final(self).timer()),
    {
        self.timer.finish_cycle(now)
    }

    pub fn connection_stats(&self, robot_id: u8) -> (stats: Option<ConnectionStats>)
        requires
            self.wf(),
        ensures
            match stats {
                Some(s) => self.driver()@.contains_key(robot_id)
                    && self.driver()@[robot_id].1.has_stats(s),
                None => !self.driver()@.contains_key(robot_id),
            },
    {
        self.inner.connection_stats(robot_id)
    }

    pub fn has_robot(&self, robot_id: u8) -> (b: bool)
        requires
            self.wf(),
        ensures
            b == self.driver()@.contains_key(robot_id),
    {
        self.inner.has_robot(robot_id)
    }

    pub fn connected_robots(&self) -> (ids: Vec<u8>)
        requires
            self.wf(),
        ensures
            ids@.no_duplicates(),
            ids@.to_set() == self.driver()@.dom(),
    {
        self.inner.connected_robots()
    }

    pub fn transceiver_addr(&self, robot_id: u8) -> (addr: Option<RobotTransceiverAddress>)
        requires
            self.wf(),
        ensures
            match addr {
                Some(a) => self.driver()@.contains_key(robot_id) && a@
                    == self.driver()@[robot_id].0,
                None => !self.driver()@.contains_key(robot_id),
            },
    {
        self.inner.transceiver_addr(robot_id)
    }
}

// ======== Laws of sending ========

/// The next cycle starts when the sleep is over: one period after the last one, or at once, if that
/// time has come already. The period stays the same.
pub proof fn law_sleep(before: SendTimer, now: Instant, sleep: Option<Duration>, after: SendTimer)
    requires
        before.next_send_time.nanos + before.send_period.nanos <= u64::MAX,
        SendTimer::cycle_ended(before, now, sleep, after),
    ensures
        after.send_period == before.send_period,
        sleep is Some ==> {
            &&& sleep->0.nanos > 0
            &&& now.nanos + sleep->0.nanos == before.next_send_time.nanos + before.send_period.nanos
            &&& after.next_send_time.nanos == now.nanos + sleep->0.nanos
        },
        sleep is None ==> {
            &&& now.nanos >= before.next_send_time.nanos + before.send_period.nanos
            &&& after.next_send_time == now
        },
{
}

/// A period that is set takes effect at the end of the cycle: the next one starts that much later.
pub proof fn law_period_takes_effect(
    before: SendTimer,
    period: Duration,
    stop: bool,
    mid: SendTimer,
    now: Instant,
    sleep: Option<Duration>,
    after: SendTimer,
)
    requires
        before.next_send_time.nanos + period.nanos <= u64::MAX,
        SendTimer::controlled(before, PeriodicControlMessage::SetSendPeriod(period), stop, mid),
        SendTimer::cycle_ended(mid, now, sleep, after),
        now.nanos < before.next_send_time.nanos + period.nanos,
    ensures
        !stop,
        after.send_period == period,
        after.next_send_time.nanos == before.next_send_time.nanos + period.nanos,
{
}

/// In every cycle each connected robot gets one packet at its address: the one that was set for it, or
/// the default one.
pub proof fn law_every_robot_gets_a_packet<RC, RR, DC, DR, P>(
    before: Map<u8, (AddressView, P)>,
    packets: RegularPackets<RC>,
    now: Instant,
    messages: Seq<(RobotTransceiverAddress, Vec<u8>)>,
    after: Map<u8, (AddressView, P)>,
    id: u8,
) where RC: Clone + Default, P: RadioProtocol<RC, RR, DC, DR> + Default
    requires
        sent_to_all::<RC, RR, DC, DR, P>(before, packets, now, messages, after),
        before.contains_key(id),
    ensures
        after.dom() == before.dom(),
        messages.len() == before.dom().len(),
        after[id].0 == before[id].0,
        exists|i: int, packet: RC|
            0 <= i < messages.len() && (#[trigger] messages[i]).0@ == before[id].0 && (
            packets@.contains_key(id) ==> cloned(packets@[id], packet)) && (
            !packets@.contains_key(id) ==> call_ensures(RC::default, (), packet))
                && #[trigger] P::on_sent(before[id].1, packet, now, messages[i].1@, after[id].1),
{
    let ids = choose|ids: Seq<u8>| #[trigger]
        ids.to_set() == before.dom() && ids.no_duplicates() && ids.len() == messages.len()
            && forall|i: int|
            0 <= i < ids.len() ==> carries::<RC, RR, DC, DR, P>(
                before[ids[i]],
                packets,
                ids[i],
                now,
                #[trigger] messages[i],
                after[ids[i]],
            );
    ids.unique_seq_to_set();
    assert(ids.to_set().contains(id));
    let i = choose|i: int| 0 <= i < ids.len() && ids[i] == id;
    assert(carries::<RC, RR, DC, DR, P>(
        before[ids[i]],
        packets,
        ids[i],
        now,
        messages[i],
        after[ids[i]],
    ));
    let packet = choose|packet: RC| #[trigger]
        packets.serves(id, packet) && P::on_sent(
            before[id].1,
            packet,
            now,
            messages[i].1@,
            after[id].1,
        );
    assert(P::on_sent(before[id].1, packet, now, messages[i].1@, after[id].1));
}

} // verus!
