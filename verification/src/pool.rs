//! A pool of connections that is indexed by robot id alone.
//!
//! Unlike [driver](crate::driver), the pool does not rely on different robots having different
//! addresses.

use crate::cache::{cached, RobotConnState};
use crate::conn_stats::ConnectionStats;
use crate::driver::{seeks_others, starts_wf};
use crate::id_filter::RobotIdFilter;
use crate::periodic::{
    all_sendable, carries, sent_to_all, PeriodicControlMessage, RegularPackets, SendTimer,
    DEFAULT_SEND_PERIOD_MILLIS,
};
use crate::protocol::{PacketRxResult, RadioProtocol};
use crate::time::{Duration, Instant};
use crate::transceivers::address::{AddressView, RobotTransceiverAddress};
use crate::transceivers::TransceiverEvent;
use crate::utils::maps::keys_of;
use crate::ConnectionDriverEvent;
use std::collections::hash_map::Entry;
use std::collections::HashMap;
use std::marker::PhantomData;
use vstd::prelude::*;

pub use crate::driver::{TokenAllocator, WAKER_TOKEN};

verus! {

broadcast use vstd::std_specs::hash::group_hash_axioms;

/// The connection state of all robots.
#[derive(Debug)]
pub struct ConnectionDriver<RC, RR, DC, DR, P> {
    active_connections: HashMap<u8, (RobotTransceiverAddress, P)>,
    _phantom_data: PhantomData<(RC, RR, DC, DR)>,
}

/// Whether the robot is connected at the address.
pub open spec fn at<P>(
    conns: Map<u8, (RobotTransceiverAddress, P)>,
    id: u8,
    addr: RobotTransceiverAddress,
) -> bool {
    conns.contains_key(id) && conns[id].0@ == addr@
}

/// The message that a received packet leads to.
pub open spec fn packet_event<RR, DR>(
    id: u8,
    result: PacketRxResult<RR, DR>,
    received_on: Instant,
) -> Option<ConnectionDriverEvent<RR, DR>> {
    match result {
        PacketRxResult::Regular(packet) => Some(
            ConnectionDriverEvent::PacketReceived(id, packet, received_on),
        ),
        PacketRxResult::Datagram(dgram) => Some(
            ConnectionDriverEvent::DatagramReceived(id, dgram, received_on),
        ),
        PacketRxResult::IncompleteDatagram => None,
    }
}

/// Makes a message of a received packet.
pub fn event_of_packet<RR, DR>(
    id: u8,
    result: PacketRxResult<RR, DR>,
    received_on: Instant,
) -> (event: Option<ConnectionDriverEvent<RR, DR>>)
    ensures
        event == packet_event(id, result, received_on),
{
    match result {
        PacketRxResult::Regular(packet) => Some(
            ConnectionDriverEvent::PacketReceived(id, packet, received_on),
        ),
        PacketRxResult::Datagram(dgram) => Some(
            ConnectionDriverEvent::DatagramReceived(id, dgram, received_on),
        ),
        PacketRxResult::IncompleteDatagram => None,
    }
}

/// Whether `events` withdraw exactly the robots at `addr`, each of them once.
pub open spec fn withdrawn<RR, DR, P>(
    conns: Map<u8, (RobotTransceiverAddress, P)>,
    addr: RobotTransceiverAddress,
    events: Seq<ConnectionDriverEvent<RR, DR>>,
) -> bool {
    &&& forall|i: int|
        0 <= i < events.len() ==> (#[trigger] events[i] matches ConnectionDriverEvent::Disconnected(
            id,
        ) && at(conns, id, addr))
    &&& forall|i: int, j: int|
        0 <= i < j < events.len() ==> #[trigger] events[i] != #[trigger] events[j]
    &&& forall|id: u8| #[trigger]
        at(conns, id, addr) ==> events.contains(ConnectionDriverEvent::Disconnected(id))
}

/// The connections without those at `addr`.
pub open spec fn without_address<P>(
    conns: Map<u8, (RobotTransceiverAddress, P)>,
    addr: RobotTransceiverAddress,
) -> Map<u8, (RobotTransceiverAddress, P)> {
    conns.restrict(conns.dom().filter(|id: u8| !at(conns, id, addr)))
}

impl<RC, RR, DC, DR, P: RadioProtocol<RC, RR, DC, DR> + Default> ConnectionDriver<
    RC,
    RR,
    DC,
    DR,
    P,
> {
    /// The address and the protocol state of each connected robot.
    pub closed spec fn view(&self) -> Map<u8, (RobotTransceiverAddress, P)> {
        self.active_connections@
    }

    pub open spec fn wf(&self) -> bool {
        &&& self@.dom().finite()
        &&& starts_wf::<RC, RR, DC, DR, P>()
        &&& forall|id: u8| #[trigger] self@.contains_key(id) ==> self@[id].1.proto_wf()
    }

    /// Without any connection.
    pub fn new() -> (d: Self)
        requires
            starts_wf::<RC, RR, DC, DR, P>(),
        ensures
            d.wf(),
            d@ == Map::<u8, (RobotTransceiverAddress, P)>::empty(),
    {
        ConnectionDriver { active_connections: HashMap::new(), _phantom_data: PhantomData }
    }

    /// The effect of sending a packet to a robot.
    pub open spec fn sent(
        before: Map<u8, (RobotTransceiverAddress, P)>,
        robot_id: u8,
        packet: RC,
        now: Instant,
        r: Option<(RobotTransceiverAddress, Vec<u8>)>,
        after: Map<u8, (RobotTransceiverAddress, P)>,
    ) -> bool {
        match r {
            Some((addr, bytes)) => {
                &&& before.contains_key(robot_id)
                &&& addr@ == before[robot_id].0@
                &&& after.contains_key(robot_id)
                &&& P::on_sent(before[robot_id].1, packet, now, bytes@, after[robot_id].1)
                &&& after == before.insert(robot_id, (before[robot_id].0, after[robot_id].1))
            },
            None => !before.contains_key(robot_id) && after == before,
        }
    }

    /// Packs the next packet for a robot. Returns where it has to be sent, or nothing if the robot
    /// is not connected.
    pub fn send_packet(&mut self, robot_id: u8, packet: RC, now: Instant) -> (r: Option<
        (RobotTransceiverAddress, Vec<u8>),
    >)
        requires
            old(self).wf(),
            old(self)@.contains_key(robot_id) ==> P::sendable(packet),
        ensures
            final(self).wf(),
            Self::sent(old(self)@, robot_id, packet, now, r, final(self)@),
    {
        let r = match self.active_connections.entry(robot_id) {
            Entry::Occupied(entry) => {
                let conn: &mut (RobotTransceiverAddress, P) = entry.into_mut();
                let addr: RobotTransceiverAddress = conn.0.clone();
                let bytes: Vec<u8> = conn.1.next_packet(packet, now);
                Some((addr, bytes))
            },
            Entry::Vacant(_) => None,
        };
        proof {
            if old(self)@.contains_key(robot_id) {
                assert(self@ =~= old(self)@.insert(
                    robot_id,
                    (old(self)@[robot_id].0, self@[robot_id].1),
                ));
            } else {
                assert(self@ =~= old(self)@);
            }
        }
        r
    }

    /// The effect of queueing a datagram for a robot.
    pub open spec fn queued(
        before: Map<u8, (RobotTransceiverAddress, P)>,
        robot_id: u8,
        datagram: DC,
        after: Map<u8, (RobotTransceiverAddress, P)>,
    ) -> bool {
        if before.contains_key(robot_id) {
            &&& after.contains_key(robot_id)
            &&& P::on_queued(before[robot_id].1, datagram, after[robot_id].1)
            &&& after == before.insert(robot_id, (before[robot_id].0, after[robot_id].1))
        } else {
            after == before
        }
    }

    /// Queues a datagram for a robot. Does nothing if the robot is not connected.
    pub fn queue_datagram(&mut self, robot_id: u8, datagram: DC)
        requires
            old(self).wf(),
        ensures
            final(self).wf(),
            Self::queued(old(self)@, robot_id, datagram, final(self)@),
    {
        match self.active_connections.entry(robot_id) {
            Entry::Occupied(entry) => {
                let conn: &mut (RobotTransceiverAddress, P) = entry.into_mut();
                conn.1.queue_datagram(datagram);
            },
            Entry::Vacant(_) => {},
        }
        proof {
            if old(self)@.contains_key(robot_id) {
                assert(self@ =~= old(self)@.insert(
                    robot_id,
                    (old(self)@[robot_id].0, self@[robot_id].1),
                ));
            } else {
                assert(self@ =~= old(self)@);
            }
        }
    }

    /// The statistics of the connection to a robot.
    pub fn connection_stats(&self, robot_id: u8) -> (stats: Option<ConnectionStats>)
        requires
            self.wf(),
        ensures
            match stats {
                Some(s) => self@.contains_key(robot_id) && self@[robot_id].1.has_stats(s),
                None => !self@.contains_key(robot_id),
            },
    {
        match self.active_connections.get(&robot_id) {
            Some(conn) => Some(conn.1.stats()),
            None => None,
        }
    }

    pub fn has_robot(&self, robot_id: u8) -> (b: bool)
        ensures
            b == self@.contains_key(robot_id),
    {
        self.active_connections.contains_key(&robot_id)
    }

    /// The ids of all connected robots, in arbitrary order.
    pub fn connected_robots(&self) -> (ids: Vec<u8>)
        ensures
            ids@.no_duplicates(),
            ids@.to_set() == self@.dom(),
    {
        keys_of(&self.active_connections)
    }

    pub fn transceiver_addr(&self, robot_id: u8) -> (addr: Option<RobotTransceiverAddress>)
        ensures
            match addr {
                Some(a) => self@.contains_key(robot_id) && a@ == self@[robot_id].0@,
                None => !self@.contains_key(robot_id),
            },
    {
        match self.active_connections.get(&robot_id) {
            Some(conn) => Some(conn.0.clone()),
            None => None,
        }
    }

    /// A filter that accepts the robots that are not connected.
    pub fn id_filter(&self) -> (f: RobotIdFilter)
        ensures
            seeks_others(self@.dom(), f),
    {
        let ids: Vec<u8> = self.connected_robots();
        let ghost all = ids@;
        let f: RobotIdFilter = RobotIdFilter::new().with_blacklist(ids);
        proof {
            assert forall|id: u8| #[trigger] f.accepts(id) == !self@.contains_key(id) by {
                assert(all.to_set().contains(id) == all.contains(id));
            }
        }
        f
    }

    /// The ids of the robots at an address, in arbitrary order.
    pub fn robots_at(&self, addr: &RobotTransceiverAddress) -> (ids: Vec<u8>)
        ensures
            ids@.no_duplicates(),
            forall|id: u8| #[trigger] ids@.contains(id) <==> at(self@, id, *addr),
    {
        let all: Vec<u8> = self.connected_robots();
        let mut ids: Vec<u8> = Vec::new();
        let mut i: usize = 0;
        while i < all.len()
            invariant
                i <= all@.len(),
                all@.no_duplicates(),
                all@.to_set() == self@.dom(),
                ids@.no_duplicates(),
                forall|id: u8| #[trigger]
                    ids@.contains(id) <==> at(self@, id, *addr) && exists|k: int|
                        0 <= k < i && #[trigger] all@[k] == id,
            decreases all@.len() - i,
        {
            let id: u8 = all[i];
            let ghost before = ids@;
            proof {
                assert(all@.to_set().contains(id));
                assert(!before.contains(id)) by {
                    if before.contains(id) {
                        let k = choose|k: int| 0 <= k < i && #[trigger] all@[k] == id;
                        assert(all@[k] == all@[i as int]);
                    }
                }
            }
            let mut here: bool = false;
            if let Some(conn) = self.active_connections.get(&id) {
                here = conn.0.same(addr);
            }
            if here {
                ids.push(id);
            }
            proof {
                assert forall|x: u8| #[trigger]
                    ids@.contains(x) <==> at(self@, x, *addr) && exists|k: int|
                        0 <= k < i + 1 && #[trigger] all@[k] == x by {
                    if here {
                        vstd::seq_lib::lemma_seq_contains_after_push(before, id, x);
                        if ids@.contains(x) && x != id {
                            let j = choose|j: int| 0 <= j < ids@.len() && ids@[j] == x;
                            assert(before[j] == x);
                            assert(before.contains(x));
                        }
                        if x == id {
                            assert(ids@[ids@.len() - 1] == id);
                            assert(all@[i as int] == id);
                        }
                    }
                    if at(self@, x, *addr) && exists|k: int| 0 <= k < i + 1 && #[trigger] all@[k] == x {
                        let k = choose|k: int| 0 <= k < i + 1 && #[trigger] all@[k] == x;
                        if k < i {
                            assert(before.contains(x));
                        }
                    }
                }
            }
            i = i + 1;
        }
        proof {
            assert forall|id: u8| #[trigger] ids@.contains(id) <==> at(self@, id, *addr) by {
                if at(self@, id, *addr) {
                    assert(all@.to_set().contains(id));
                    let k = choose|k: int| 0 <= k < all@.len() && all@[k] == id;
                    assert(all@[k] == id);
                }
            }
        }
        ids
    }

    /// The effect of an event of a transceiver.
    pub open spec fn handled(
        before: Map<u8, (RobotTransceiverAddress, P)>,
        event: TransceiverEvent,
        events: Seq<ConnectionDriverEvent<RR, DR>>,
        after: Map<u8, (RobotTransceiverAddress, P)>,
    ) -> bool {
        match event {
            TransceiverEvent::Connected(addr, id) => if before.contains_key(id) {
                &&& events.len() == 0
                &&& after == before
            } else {
                &&& after.contains_key(id)
                &&& after[id].0@ == addr@
                &&& call_ensures(P::default, (), after[id].1)
                &&& after == before.insert(id, after[id])
                &&& events.len() == 1
                &&& events[0] matches ConnectionDriverEvent::Connected(to, at)
                &&& to == id
                &&& at@ == addr@
            },
            TransceiverEvent::Disconnected(addr) => {
                &&& withdrawn(before, addr, events)
                &&& after == without_address(before, addr)
            },
            TransceiverEvent::PacketReceived(addr, bytes, received_on) => if exists|id: u8|
                at(before, id, addr) {
                exists|id: u8, result: PacketRxResult<RR, DR>|
                    {
                        &&& at(before, id, addr)
                        &&& after.contains_key(id)
                        &&& #[trigger] P::on_received(
                            before[id].1,
                            bytes@,
                            received_on,
                            result,
                            after[id].1,
                        )
                        &&& after == before.insert(id, (before[id].0, after[id].1))
                        &&& events == (match packet_event(id, result, received_on) {
                            Some(e) => seq![e],
                            None => Seq::empty(),
                        })
                    }
            } else {
                &&& events.len() == 0
                &&& after == before
            },
            TransceiverEvent::Error(error) => {
                &&& after == before
                &&& events == seq![ConnectionDriverEvent::<RR, DR>::TransceiverError(error)]
            },
        }
    }

    /// Removes all robots at an address.
    fn disconnect(&mut self, addr: &RobotTransceiverAddress) -> (events: Vec<
        ConnectionDriverEvent<RR, DR>,
    >)
        requires
            old(self).wf(),
        ensures
            final(self).wf(),
            withdrawn(old(self)@, *addr, events@),
            final(self)@ == without_address(old(self)@, *addr),
    {
        // There isn't any explicit protection against duplicate transceiver addresses, so just removing the first one could break
        let ids: Vec<u8> = self.robots_at(addr);
        let mut events: Vec<ConnectionDriverEvent<RR, DR>> = Vec::new();
        let mut i: usize = 0;
        while i < ids.len()
            invariant
                i <= ids@.len(),
                old(self).wf(),
                self.wf(),
                ids@.no_duplicates(),
                forall|id: u8| #[trigger] ids@.contains(id) <==> at(old(self)@, id, *addr),
                events@.len() == i,
                forall|k: int|
                    0 <= k < i ==> #[trigger] events@[k] == ConnectionDriverEvent::<
                        RR,
                        DR,
                    >::Disconnected(ids@[k]),
                forall|id: u8| #[trigger]
                    self@.contains_key(id) <==> old(self)@.contains_key(id) && !ids@.take(
                        i as int,
                    ).contains(id),
                forall|id: u8| #[trigger]
                    self@.contains_key(id) ==> self@[id] == old(self)@[id],
            decreases ids@.len() - i,
        {
            let id: u8 = ids[i];
            self.active_connections.remove(&id);
            events.push(ConnectionDriverEvent::Disconnected(id));
            let ghost done = ids@.take(i + 1);
            proof {
                assert(done =~= ids@.take(i as int).push(id));
                assert forall|x: u8| #[trigger]
                    self@.contains_key(x) <==> old(self)@.contains_key(x) && !ids@.take(
                        i + 1,
                    ).contains(x) by {
                    if ids@.take(i as int).contains(x) {
                        let j = choose|j: int| 0 <= j < i && ids@.take(i as int)[j] == x;
                        assert(done[j] == x);
                    }
                    if done.contains(x) && x != id {
                        let j = choose|j: int| 0 <= j < done.len() && done[j] == x;
                        assert(ids@.take(i as int)[j] == x);
                    }
                    if x == id {
                        assert(done[i as int] == id);
                    }
                }
            }
            i = i + 1;
        }
        proof {
            assert(ids@.take(i as int) =~= ids@);
            assert(self@ =~= without_address(old(self)@, *addr)) by {
                assert forall|id: u8| old(self)@.contains_key(id) implies (self@.contains_key(id)
                    <==> !at(old(self)@, id, *addr)) by {
                    assert(ids@.contains(id) <==> at(old(self)@, id, *addr));
                }
            }
            assert forall|k: int| 0 <= k < events@.len() implies (
            #[trigger] events@[k] matches ConnectionDriverEvent::Disconnected(id) && at(
                old(self)@,
                id,
                *addr,
            )) by {
                assert(ids@.contains(ids@[k]));
            }
            assert forall|id: u8| #[trigger] at(old(self)@, id, *addr) implies events@.contains(
                ConnectionDriverEvent::Disconnected(id),
            ) by {
                assert(ids@.contains(id));
                let k = choose|k: int| 0 <= k < ids@.len() && ids@[k] == id;
                assert(events@[k] == ConnectionDriverEvent::<RR, DR>::Disconnected(id));
            }
        }
        events
    }

    /// Hands a packet to the protocol of one robot.
    fn receive(&mut self, id: u8, bytes: &Vec<u8>, received_on: Instant) -> (result: PacketRxResult<
        RR,
        DR,
    >)
        requires
            old(self).wf(),
            old(self)@.contains_key(id),
            P::readable(bytes@),
        ensures
            final(self).wf(),
            final(self)@.contains_key(id),
            P::on_received(
                old(self)@[id].1,
                bytes@,
                received_on,
                result,
                final(self)@[id].1,
            ),
            final(self)@ == old(self)@.insert(id, (old(self)@[id].0, final(self)@[id].1)),
    {
        let result = match self.active_connections.entry(id) {
            Entry::Occupied(entry) => {
                let conn: &mut (RobotTransceiverAddress, P) = entry.into_mut();
                conn.1.packet_received(bytes.as_slice(), received_on)
            },
            Entry::Vacant(_) => {
                proof {
                    assert(false);
                }
                PacketRxResult::IncompleteDatagram
            },
        };
        proof {
            assert(self@ =~= old(self)@.insert(id, (old(self)@[id].0, self@[id].1)));
        }
        result
    }

    /// Processes an event of a transceiver. Returns the messages to the user, and whether the
    /// connected robots may have changed, so that the transceivers need a new filter.
    pub fn handle_event(&mut self, event: TransceiverEvent) -> (r: (
        Vec<ConnectionDriverEvent<RR, DR>>,
        bool,
    ))
        requires
            old(self).wf(),
            event matches TransceiverEvent::PacketReceived(addr, bytes, _) ==> (exists|id: u8|
                at(old(self)@, id, addr)) ==> P::readable(bytes@),
        ensures
            final(self).wf(),
            Self::handled(old(self)@, event, r.0@, final(self)@),
            r.1 == (event is Connected || event is Disconnected),
    {
        match event {
            TransceiverEvent::Connected(addr, robot_id) => {
                let mut events: Vec<ConnectionDriverEvent<RR, DR>> = Vec::new();
                if !self.active_connections.contains_key(&robot_id) {
                    // Register the new connection
                    let proto: P = P::default();
                    self.active_connections.insert(robot_id, (addr.clone(), proto));
                    events.push(ConnectionDriverEvent::Connected(robot_id, addr));
                }
                (events, true)
            },
            TransceiverEvent::Disconnected(addr) => (self.disconnect(&addr), true),
            TransceiverEvent::PacketReceived(addr, bytes, received_on) => {
                let ids: Vec<u8> = self.robots_at(&addr);
                let mut events: Vec<ConnectionDriverEvent<RR, DR>> = Vec::new();
                if ids.len() > 0 {
                    let id: u8 = ids[0];
                    proof {
                        assert(ids@.contains(id));
                        assert(at(self@, id, addr));
                    }
                    let result: PacketRxResult<RR, DR> = self.receive(id, &bytes, received_on);
                    let ghost res = result;
                    if let Some(e) = event_of_packet(id, result, received_on) {
                        events.push(e);
                    }
                    proof {
                        assert(P::on_received(
                            old(self)@[id].1,
                            bytes@,
                            received_on,
                            res,
                            self@[id].1,
                        ));
                        assert(events@ =~= (match packet_event(id, res, received_on) {
                            Some(e) => seq![e],
                            None => Seq::empty(),
                        }));
                    }
                } else {
                    proof {
                        assert forall|id: u8| !at(self@, id, addr) by {
                            assert(!ids@.contains(id));
                        }
                    }
                }
                (events, false)
            },
            TransceiverEvent::Error(error) => {
                let mut events: Vec<ConnectionDriverEvent<RR, DR>> = Vec::new();
                events.push(ConnectionDriverEvent::TransceiverError(error));
                proof {
                    assert(events@ =~= seq![
                        ConnectionDriverEvent::<RR, DR>::TransceiverError(error),
                    ]);
                }
                (events, false)
            },
        }
    }
}

/// The known robots after some events.
pub open spec fn cached_all<RR, DR>(
    robots: Map<u8, RobotConnState<RR>>,
    events: Seq<ConnectionDriverEvent<RR, DR>>,
) -> Map<u8, RobotConnState<RR>>
    decreases events.len(),
{
    if events.len() == 0 {
        robots
    } else {
        cached(cached_all(robots, events.drop_last()), events.last())
    }
}

proof fn lemma_withdrawn_dom<RR, DR, P>(
    conns: Map<u8, (RobotTransceiverAddress, P)>,
    addr: RobotTransceiverAddress,
    known: Map<u8, RobotConnState<RR>>,
    events: Seq<ConnectionDriverEvent<RR, DR>>,
)
    requires
        forall|i: int|
            0 <= i < events.len() ==> (#[trigger] events[i] matches ConnectionDriverEvent::Disconnected(
                id,
            ) && at(conns, id, addr)),
    ensures
        forall|id: u8| #[trigger]
            cached_all(known, events).contains_key(id) <==> known.contains_key(id)
                && !events.contains(ConnectionDriverEvent::Disconnected(id)),
    decreases events.len(),
{
    if events.len() > 0 {
        let init = events.drop_last();
        let last = events.last();
        assert forall|i: int| 0 <= i < init.len() implies (
        #[trigger] init[i] matches ConnectionDriverEvent::Disconnected(id) && at(conns, id, addr)) by {
            assert(init[i] == events[i]);
        }
        lemma_withdrawn_dom(conns, addr, known, init);
        assert(events[events.len() - 1] == last);
        assert forall|id: u8| #[trigger]
            cached_all(known, events).contains_key(id) <==> known.contains_key(id)
                && !events.contains(ConnectionDriverEvent::Disconnected(id)) by {
            let e = ConnectionDriverEvent::<RR, DR>::Disconnected(id);
            assert(events =~= init.push(last));
            assert(events.contains(e) <==> init.contains(e) || last == e) by {
                if init.contains(e) {
                    let k = choose|k: int| 0 <= k < init.len() && init[k] == e;
                    assert(events[k] == e);
                }
                if events.contains(e) && last != e {
                    let k = choose|k: int| 0 <= k < events.len() && events[k] == e;
                    assert(init[k] == e);
                }
            }
            assert(cached_all(known, init).contains_key(id) <==> known.contains_key(id)
                && !init.contains(e));
        }
    }
}

/// The messages of a pool tell which robots are connected: a user who follows them, as
/// [ConnectionStateCache](crate::cache::ConnectionStateCache) does, knows the same robots as the
/// pool.
pub proof fn law_messages_follow_connections<RC, RR, DC, DR, P>(
    before: Map<u8, (RobotTransceiverAddress, P)>,
    event: TransceiverEvent,
    events: Seq<ConnectionDriverEvent<RR, DR>>,
    after: Map<u8, (RobotTransceiverAddress, P)>,
    known: Map<u8, RobotConnState<RR>>,
) where P: RadioProtocol<RC, RR, DC, DR> + Default
    requires
        ConnectionDriver::<RC, RR, DC, DR, P>::handled(before, event, events, after),
        known.dom() == before.dom(),
    ensures
        cached_all(known, events).dom() == after.dom(),
{
    let updated = cached_all(known, events);
    reveal_with_fuel(cached_all, 2);
    if events.len() == 1 {
        assert(events.drop_last() =~= Seq::empty());
        assert(updated == cached(known, events[0]));
    }
    match event {
        TransceiverEvent::Connected(addr, id) => {
            assert(updated.dom() =~= after.dom());
        },
        TransceiverEvent::Disconnected(addr) => {
            lemma_withdrawn_dom(before, addr, known, events);
            assert forall|id: u8| updated.dom().contains(id) == after.dom().contains(id) by {
                assert(known.dom().contains(id) == before.dom().contains(id));
                assert(updated.contains_key(id) <==> known.contains_key(id) && !events.contains(
                    ConnectionDriverEvent::Disconnected(id),
                ));
                if events.contains(ConnectionDriverEvent::Disconnected(id)) {
                    let k = choose|k: int|
                        0 <= k < events.len() && events[k] == ConnectionDriverEvent::<
                            RR,
                            DR,
                        >::Disconnected(id);
                    assert(at(before, id, addr));
                }
            }
            assert(updated.dom() =~= after.dom());
        },
        TransceiverEvent::PacketReceived(addr, bytes, received_on) => {
            if exists|id: u8| at(before, id, addr) {
                let (id, result) = choose|id: u8, result: PacketRxResult<RR, DR>|
                    {
                        &&& at(before, id, addr)
                        &&& after.contains_key(id)
                        &&& #[trigger] P::on_received(
                            before[id].1,
                            bytes@,
                            received_on,
                            result,
                            after[id].1,
                        )
                        &&& after == before.insert(id, (before[id].0, after[id].1))
                        &&& events == (match packet_event(id, result, received_on) {
                            Some(e) => seq![e],
                            None => Seq::empty(),
                        })
                    };
                assert(known.dom().contains(id));
                assert(after.dom() =~= before.dom());
                assert(updated.dom() =~= known.dom());
            }
        },
        TransceiverEvent::Error(_) => {
            assert(updated.dom() =~= after.dom());
        },
    }
}

/// The connections with the contents of their addresses.
pub open spec fn located<P>(conns: Map<u8, (RobotTransceiverAddress, P)>) -> Map<
    u8,
    (AddressView, P),
> {
    conns.map_values(|conn: (RobotTransceiverAddress, P)| (conn.0@, conn.1))
}

/// Whether a timeout is taken to have elapsed after a poll: a poll that times out usually reports no
/// error, but it returns no event.
pub fn timeout_elapsed(events: usize) -> (b: bool)
    ensures
        b == (events == 0),
{
    events == 0
}

/// Packs one packet for every connected robot, in arbitrary order.
pub fn send_all<RC, RR, DC, DR, P>(
    pool: &mut ConnectionDriver<RC, RR, DC, DR, P>,
    packets: &RegularPackets<RC>,
    now: Instant,
) -> (messages: Vec<(RobotTransceiverAddress, Vec<u8>)>) where
    RC: Clone + Default,
    P: RadioProtocol<RC, RR, DC, DR> + Default,

    requires
        old(pool).wf(),
        all_sendable::<RC, RR, DC, DR, P>(located(old(pool)@), *packets),
    ensures
        final(pool).wf(),
        sent_to_all::<RC, RR, DC, DR, P>(
            located(old(pool)@),
            *packets,
            now,
            messages@,
            located(final(pool)@),
        ),
{
    let ids: Vec<u8> = pool.connected_robots();
    let mut messages: Vec<(RobotTransceiverAddress, Vec<u8>)> = Vec::new();
    let mut i: usize = 0;
    while i < ids.len()
        invariant
            i <= ids@.len(),
            ids@.no_duplicates(),
            ids@.to_set() == old(pool)@.dom(),
            pool.wf(),
            all_sendable::<RC, RR, DC, DR, P>(located(old(pool)@), *packets),
            pool@.dom() == old(pool)@.dom(),
            messages@.len() == i,
            forall|k: int| i <= k < ids@.len() ==> pool@[#[trigger] ids@[k]] == old(pool)@[ids@[k]],
            forall|k: int|
                0 <= k < i ==> carries::<RC, RR, DC, DR, P>(
                    located(old(pool)@)[ids@[k]],
                    *packets,
                    ids@[k],
                    now,
                    #[trigger] messages@[k],
                    located(pool@)[ids@[k]],
                ),
        decreases ids@.len() - i,
    {
        let id: u8 = ids[i];
        let ghost before = pool@;
        proof {
            assert(ids@.to_set().contains(id));
            assert(pool@.contains_key(id));
        }
        let packet: RC = packets.packet_for(id);
        let ghost p = packet;
        if let Some(message) = pool.send_packet(id, packet, now) {
            messages.push(message);
        }
        proof {
            assert(pool@.dom() =~= old(pool)@.dom());
            assert(packets.serves(id, p));
            assert(carries::<RC, RR, DC, DR, P>(
                located(old(pool)@)[id],
                *packets,
                id,
                now,
                messages@[i as int],
                located(pool@)[id],
            ));
        }
        i = i + 1;
    }
    proof {
        assert(located(pool@).dom() =~= located(old(pool)@).dom());
        assert(ids@.to_set() == located(old(pool)@).dom());
    }
    messages
}

/// A connection pool that sends a packet to every robot once per period.
#[derive(Debug)]
pub struct PeriodicConnectionPool<RC, RR, DC, DR, P> {
    inner: ConnectionDriver<RC, RR, DC, DR, P>,
    packets: RegularPackets<RC>,
    timer: SendTimer,
    send_period: Duration,
}

impl<RC, RR, DC, DR, P> PeriodicConnectionPool<RC, RR, DC, DR, P> where
    RC: Clone + Default,
    P: RadioProtocol<RC, RR, DC, DR> + Default,
 {
    pub closed spec fn pool(&self) -> ConnectionDriver<RC, RR, DC, DR, P> {
        self.inner
    }

    pub closed spec fn packets(&self) -> RegularPackets<RC> {
        self.packets
    }

    pub closed spec fn timer(&self) -> SendTimer {
        self.timer
    }

    pub closed spec fn wf(&self) -> bool {
        &&& self.inner.wf()
        &&& self.send_period.nanos == 10_000_000
    }

    /// Starts sending with the default period.
    pub fn new(conn_pool: ConnectionDriver<RC, RR, DC, DR, P>, now: Instant) -> (p: Self)
        requires
            conn_pool.wf(),
        ensures
            p.wf(),
            p.pool() == conn_pool,
            p.packets()@ == Map::<u8, RC>::empty(),
            p.timer().send_period.nanos == 10_000_000,
            p.timer().next_send_time == now,
    {
        PeriodicConnectionPool {
            inner: conn_pool,
            packets: RegularPackets::new(),
            timer: SendTimer::new(now),
            send_period: Duration::from_millis(DEFAULT_SEND_PERIOD_MILLIS),
        }
    }

    /// Sends with another period from the next cycle on.
    pub fn set_send_period(&mut self, period: Duration)
        requires
            old(self).wf(),
        ensures
            final(self).wf(),
            final(self).pool() == old(self).pool(),
            final(self).packets() == old(self).packets(),
            final(self).timer() == (SendTimer { send_period: period, ..old(self).timer() }),
    {
        self.timer.control(PeriodicControlMessage::SetSendPeriod(period));
    }

    /// The period that sending started with.
    pub fn send_period(&self) -> (period: Duration)
        requires
            self.wf(),
        ensures
            period.nanos == 10_000_000,
    {
        self.send_period
    }

    pub fn set_regular_packet(&mut self, robot_id: u8, packet: RC)
        requires
            old(self).wf(),
        ensures
            final(self).wf(),
            final(self).pool() == old(self).pool(),
            final(self).timer() == old(self).timer(),
            final(self).packets()@ == old(self).packets()@.insert(robot_id, packet),
    {
        self.packets.set_regular_packet(robot_id, packet);
    }

    pub fn queue_datagram(&mut self, robot_id: u8, datagram: DC)
        requires
            old(self).wf(),
        ensures
            final(self).wf(),
            final(self).packets() == old(self).packets(),
            final(self).timer() == old(self).timer(),
            if old(self).pool()@.contains_key(robot_id) {
                &&& final(self).pool()@.contains_key(robot_id)
                &&& P::on_queued(
                    old(self).pool()@[robot_id].1,
                    datagram,
                    final(self).pool()@[robot_id].1,
                )
                &&& final(self).pool()@ == old(self).pool()@.insert(
                    robot_id,
                    (old(self).pool()@[robot_id].0, final(self).pool()@[robot_id].1),
                )
            } else {
                final(self).pool()@ == old(self).pool()@
            },
    {
        self.inner.queue_datagram(robot_id, datagram);
    }

    /// Runs one cycle: packs a packet for every connected robot.
    pub fn send_packets(&mut self, now: Instant) -> (messages: Vec<
        (RobotTransceiverAddress, Vec<u8>),
    >)
        requires
            old(self).wf(),
            all_sendable::<RC, RR, DC, DR, P>(located(old(self).pool()@), old(self).packets()),
        ensures
            final(self).wf(),
            final(self).packets() == old(self).packets(),
            final(self).timer() == old(self).timer(),
            sent_to_all::<RC, RR, DC, DR, P>(
                located(old(self).pool()@),
                old(self).packets(),
                now,
                messages@,
                located(final(self).pool()@),
            ),
    {
        send_all(&mut self.inner, &self.packets, now)
    }

    /// Ends a cycle. Returns how long to sleep until the next one.
    pub fn finish_cycle(&mut self, now: Instant) -> (sleep: Option<Duration>)
        requires
            old(self).wf(),
            old(self).timer().due() <= u64::MAX,
        ensures
            final(self).wf(),
            final(self).pool() == old(self).pool(),
            final(self).packets() == old(self).packets(),
            SendTimer::cycle_ended(old(self).timer(), now, sleep, final(self).timer()),
    {
        self.timer.finish_cycle(now)
    }

    pub fn connection_stats(&self, robot_id: u8) -> (stats: Option<ConnectionStats>)
        requires
            self.wf(),
        ensures
            match stats {
                Some(s) => self.pool()@.contains_key(robot_id)
                    && self.pool()@[robot_id].1.has_stats(s),
                None => !self.pool()@.contains_key(robot_id),
            },
    {
        self.inner.connection_stats(robot_id)
    }

    pub fn has_robot(&self, robot_id: u8) -> (b: bool)
        requires
            self.wf(),
        ensures
            b == self.pool()@.contains_key(robot_id),
    {
        self.inner.has_robot(robot_id)
    }

    pub fn connected_robots(&self) -> (ids: Vec<u8>)
        requires
            self.wf(),
        ensures
            ids@.no_duplicates(),
            ids@.to_set() == self.pool()@.dom(),
    {
        self.inner.connected_robots()
    }

    pub fn transceiver_addr(&self, robot_id: u8) -> (addr: Option<RobotTransceiverAddress>)
        requires
            self.wf(),
        ensures
            match addr {
                Some(a) => self.pool()@.contains_key(robot_id) && a@
                    == self.pool()@[robot_id].0@,
                None => !self.pool()@.contains_key(robot_id),
            },
    {
        self.inner.transceiver_addr(robot_id)
    }
}

// ======== Messages ========

/// All other robots are as they were.
pub open spec fn others_kept<P>(
    before: Map<u8, (RobotTransceiverAddress, P)>,
    id: u8,
    after: Map<u8, (RobotTransceiverAddress, P)>,
) -> bool {
    forall|k: u8|
        k != id ==> #[trigger] after.contains_key(k) == before.contains_key(k) && (
        before.contains_key(k) ==> after[k] == before[k])
}

/// A packet from an address with a connected robot is handed to the protocol of a robot there. The
/// user gets exactly one message if it held regular data or completed a datagram, with the robot, the
/// contents and the time of arrival, and none if a datagram is not complete yet.
pub proof fn law_packets_are_delivered<RC, RR, DC, DR, P>(
    before: Map<u8, (RobotTransceiverAddress, P)>,
    addr: RobotTransceiverAddress,
    bytes: Vec<u8>,
    received_on: Instant,
    events: Seq<ConnectionDriverEvent<RR, DR>>,
    after: Map<u8, (RobotTransceiverAddress, P)>,
) where P: RadioProtocol<RC, RR, DC, DR> + Default
    requires
        ConnectionDriver::<RC, RR, DC, DR, P>::handled(
            before,
            TransceiverEvent::PacketReceived(addr, bytes, received_on),
            events,
            after,
        ),
    ensures
        (exists|id: u8| #[trigger] before.contains_key(id) && before[id].0@ == addr@) ==> exists|
            id: u8,
            result: PacketRxResult<RR, DR>,
        |
            {
                &&& before.contains_key(id)
                &&& before[id].0@ == addr@
                &&& after.contains_key(id)
                &&& after[id].0 == before[id].0
                &&& #[trigger] P::on_received(
                    before[id].1,
                    bytes@,
                    received_on,
                    result,
                    after[id].1,
                )
                &&& others_kept(before, id, after)
                &&& match result {
                    PacketRxResult::Regular(data) => events == seq![
                        ConnectionDriverEvent::<RR, DR>::PacketReceived(id, data, received_on),
                    ],
                    PacketRxResult::Datagram(d) => events == seq![
                        ConnectionDriverEvent::<RR, DR>::DatagramReceived(id, d, received_on),
                    ],
                    PacketRxResult::IncompleteDatagram => events.len() == 0,
                }
            },
        (forall|id: u8| #[trigger] before.contains_key(id) ==> before[id].0@ != addr@) ==> {
            &&& events.len() == 0
            &&& after == before
        },
{
    if exists|id: u8| #[trigger] before.contains_key(id) && before[id].0@ == addr@ {
        let at_addr = choose|id: u8| #[trigger] before.contains_key(id) && before[id].0@ == addr@;
        assert(at(before, at_addr, addr));
        let (id, result) = choose|id: u8, result: PacketRxResult<RR, DR>|
            {
                &&& at(before, id, addr)
                &&& after.contains_key(id)
                &&& #[trigger] P::on_received(
                    before[id].1,
                    bytes@,
                    received_on,
                    result,
                    after[id].1,
                )
                &&& after == before.insert(id, (before[id].0, after[id].1))
                &&& events == (match packet_event(id, result, received_on) {
                    Some(e) => seq![e],
                    None => Seq::empty(),
                })
            };
        assert(P::on_received(before[id].1, bytes@, received_on, result, after[id].1));
        assert(others_kept(before, id, after));
    } else {
        assert forall|id: u8| !at(before, id, addr) by {
            if at(before, id, addr) {
                assert(before.contains_key(id));
            }
        }
    }
}

/// A robot that connects for the first time is known at its address from then on, with a new protocol
/// state, and is announced once with that address. A robot that is connected already is neither
/// announced nor moved.
pub proof fn law_connections_are_announced<RC, RR, DC, DR, P>(
    before: Map<u8, (RobotTransceiverAddress, P)>,
    addr: RobotTransceiverAddress,
    id: u8,
    events: Seq<ConnectionDriverEvent<RR, DR>>,
    after: Map<u8, (RobotTransceiverAddress, P)>,
) where P: RadioProtocol<RC, RR, DC, DR> + Default
    requires
        ConnectionDriver::<RC, RR, DC, DR, P>::handled(
            before,
            TransceiverEvent::Connected(addr, id),
            events,
            after,
        ),
    ensures
        before.contains_key(id) ==> events.len() == 0 && after == before,
        !before.contains_key(id) ==> {
            &&& after.contains_key(id)
            &&& after[id].0@ == addr@
            &&& call_ensures(P::default, (), after[id].1)
            &&& others_kept(before, id, after)
            &&& events.len() == 1
            &&& events[0] matches ConnectionDriverEvent::Connected(to, from)
            &&& to == id
            &&& from@ == addr@
        },
{
}

/// A disconnection withdraws every robot at the address, each with one message, and no other robot.
pub proof fn law_disconnections_are_announced<RC, RR, DC, DR, P>(
    before: Map<u8, (RobotTransceiverAddress, P)>,
    addr: RobotTransceiverAddress,
    events: Seq<ConnectionDriverEvent<RR, DR>>,
    after: Map<u8, (RobotTransceiverAddress, P)>,
    id: u8,
) where P: RadioProtocol<RC, RR, DC, DR> + Default
    requires
        ConnectionDriver::<RC, RR, DC, DR, P>::handled(
            before,
            TransceiverEvent::Disconnected(addr),
            events,
            after,
        ),
    ensures
        after.contains_key(id) <==> before.contains_key(id) && before[id].0@ != addr@,
        after.contains_key(id) ==> after[id] == before[id],
        before.contains_key(id) && before[id].0@ == addr@ ==> exists|i: int|
            0 <= i < events.len() && #[trigger] events[i] == ConnectionDriverEvent::<
                RR,
                DR,
            >::Disconnected(id),
        forall|i: int|
            0 <= i < events.len() ==> (#[trigger] events[i] matches ConnectionDriverEvent::Disconnected(
                gone,
            ) && before.contains_key(gone) && before[gone].0@ == addr@),
        forall|i: int, j: int|
            0 <= i < j < events.len() ==> #[trigger] events[i] != #[trigger] events[j],
{
    if before.contains_key(id) && before[id].0@ == addr@ {
        assert(at(before, id, addr));
        assert(events.contains(ConnectionDriverEvent::Disconnected(id)));
        let i = choose|i: int|
            0 <= i < events.len() && events[i] == ConnectionDriverEvent::<RR, DR>::Disconnected(
                id,
            );
        assert(events[i] == ConnectionDriverEvent::<RR, DR>::Disconnected(id));
    }
    assert forall|i: int| 0 <= i < events.len() implies (
    #[trigger] events[i] matches ConnectionDriverEvent::Disconnected(gone) && before.contains_key(
        gone,
    ) && before[gone].0@ == addr@) by {
        assert(events[i] is Disconnected);
    }
}

/// An error of a transceiver is passed on, and changes nothing.
pub proof fn law_errors_are_delivered<RC, RR, DC, DR, P>(
    before: Map<u8, (RobotTransceiverAddress, P)>,
    event: TransceiverEvent,
    events: Seq<ConnectionDriverEvent<RR, DR>>,
    after: Map<u8, (RobotTransceiverAddress, P)>,
) where P: RadioProtocol<RC, RR, DC, DR> + Default
    requires
        ConnectionDriver::<RC, RR, DC, DR, P>::handled(before, event, events, after),
        event is Error,
    ensures
        after == before,
        events.len() == 1,
        events[0] matches ConnectionDriverEvent::TransceiverError(e) && e == event->Error_0,
{
}

/// A packet for a connected robot leaves to the address of that robot, and its protocol packs it. No
/// other robot is touched. For a robot that is not connected nothing leaves.
pub proof fn law_packets_leave<RC, RR, DC, DR, P>(
    before: Map<u8, (RobotTransceiverAddress, P)>,
    id: u8,
    packet: RC,
    now: Instant,
    r: Option<(RobotTransceiverAddress, Vec<u8>)>,
    after: Map<u8, (RobotTransceiverAddress, P)>,
) where P: RadioProtocol<RC, RR, DC, DR> + Default
    requires
        ConnectionDriver::<RC, RR, DC, DR, P>::sent(before, id, packet, now, r, after),
    ensures
        r is Some <==> before.contains_key(id),
        r is Some ==> {
            &&& (r->0).0@ == before[id].0@
            &&& after.contains_key(id) && after[id].0 == before[id].0
            &&& P::on_sent(before[id].1, packet, now, (r->0).1@, after[id].1)
        },
        r is None ==> !after.contains_key(id),
        others_kept(before, id, after),
{
}

/// A datagram for a connected robot is queued by the protocol of that robot. No other robot is touched.
/// For a robot that is not connected nothing is queued.
pub proof fn law_datagrams_are_queued<RC, RR, DC, DR, P>(
    before: Map<u8, (RobotTransceiverAddress, P)>,
    id: u8,
    datagram: DC,
    after: Map<u8, (RobotTransceiverAddress, P)>,
) where P: RadioProtocol<RC, RR, DC, DR> + Default
    requires
        ConnectionDriver::<RC, RR, DC, DR, P>::queued(before, id, datagram, after),
    ensures
        after.contains_key(id) <==> before.contains_key(id),
        before.contains_key(id) ==> after[id].0 == before[id].0 && P::on_queued(
            before[id].1,
            datagram,
            after[id].1,
        ),
        others_kept(before, id, after),
{
}

} // verus!
