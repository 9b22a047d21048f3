//! The connections to all robots.
//!
//! A driver polls its transceivers, hands their events to [ConnectionDriver], and forwards what the
//! connection state makes of them to the user.

use crate::cache::{cached, RobotConnState};
use crate::conn_stats::ConnectionStats;
use crate::dual_map::{inserted, paired};
use crate::id_filter::RobotIdFilter;
use crate::interned_map::InternedDualMap;
use crate::protocol::{PacketRxResult, RadioProtocol};
use crate::time::{Duration, Instant};
use crate::transceivers::address::{
    AddressView, PortView, RobotTransceiverAddress, SocketAddr,
};
use crate::transceivers::discovery::reported_id;
use crate::transceivers::serial::{DiscoveryResult, SerialTransceiver};
use crate::transceivers::udp::{data_address, data_port_of, UdpTransceiver};
use crate::transceivers::TransceiverEvent;
use crate::ConnectionDriverEvent;
use std::marker::PhantomData;
use vstd::prelude::*;

verus! {

broadcast use vstd::std_specs::hash::group_hash_axioms;

/// The token of the event that wakes the driver.
pub const WAKER_TOKEN: usize = 0;

/// Hands out the tokens by which event sources are told apart.
#[derive(Debug)]
pub struct TokenAllocator {
    next: usize,
}

impl TokenAllocator {
    /// The token that is handed out next.
    pub closed spec fn next(&self) -> usize {
        self.next
    }

    /// Hands out tokens from `first` on.
    pub fn starting_at(first: usize) -> (a: TokenAllocator)
        ensures
            a.next() == first,
    {
        TokenAllocator { next: first }
    }

    /// Hands out a token that was not handed out before.
    pub fn new_token(&mut self) -> (token: usize)
        requires
            old(self).next() < usize::MAX,
        ensures
            token == old(self).next(),
            final(self).next() == old(self).next() + 1,
    {
        let token: usize = self.next;
        self.next = self.next + 1;
        token
    }
}

// ======== Polling ========

/// The earliest of some instants.
pub open spec fn is_earliest(timeouts: Seq<Instant>, t: Instant) -> bool {
    &&& timeouts.contains(t)
    &&& forall|i: int| 0 <= i < timeouts.len() ==> t.nanos <= (#[trigger] timeouts[i]).nanos
}

/// The closest timeout of all transceivers.
pub fn next_timeout(timeouts: &Vec<Instant>) -> (r: Option<Instant>)
    ensures
        match r {
            Some(t) => is_earliest(timeouts@, t),
            None => timeouts@.len() == 0,
        },
{
    if timeouts.len() == 0 {
        return None;
    }
    let mut best: Instant = timeouts[0];
    let mut i: usize = 1;
    while i < timeouts.len()
        invariant
            1 <= i <= timeouts@.len(),
            timeouts@.contains(best),
            forall|k: int| 0 <= k < i ==> best.nanos <= (#[trigger] timeouts@[k]).nanos,
        decreases timeouts@.len() - i,
    {
        best = best.earlier(timeouts[i]);
        i = i + 1;
    }
    Some(best)
}

/// The time until a timeout comes.
pub open spec fn time_until(next_timeout: Option<Instant>, now: Instant) -> Option<Duration> {
    match next_timeout {
        Some(t) => Some(Instant::spec_since(t, now)),
        None => None,
    }
}

/// Whether a timeout has come.
pub open spec fn is_due(next_timeout: Option<Instant>, now: Instant) -> bool {
    next_timeout is Some && next_timeout->0.nanos <= now.nanos
}

/// How long to wait for events: until the closest timeout.
pub fn poll_timeout(next_timeout: Option<Instant>, now: Instant) -> (r: Option<Duration>)
    ensures
        r == time_until(next_timeout, now),
{
    match next_timeout {
        Some(t) => Some(t.saturating_duration_since(now)),
        None => None,
    }
}

/// Whether the closest timeout has come.
pub fn timeout_due(next_timeout: Option<Instant>, now: Instant) -> (b: bool)
    ensures
        b == is_due(next_timeout, now),
{
    match next_timeout {
        Some(t) => t.nanos <= now.nanos,
        None => false,
    }
}

/// Why polling failed.
#[derive(Clone, Copy, Debug, PartialEq, Eq, Structural)]
pub enum PollFailure {
    Interrupted,
    TimedOut,
    Other,
}

/// What to do after polling failed.
#[derive(Clone, Copy, Debug, PartialEq, Eq, Structural)]
pub enum PollReaction {
    /// Poll again.
    Retry,
    /// Go on as after an elapsed timeout.
    Proceed,
    /// Report the failure and go on.
    Report,
}

/// Decides what to do after polling failed.
pub fn after_poll_failure(failure: PollFailure) -> (r: PollReaction)
    ensures
        r == (match failure {
            PollFailure::Interrupted => PollReaction::Retry,
            // An elapsed timeout is usually no failure, but that isn't guaranteed
            PollFailure::TimedOut => PollReaction::Proceed,
            PollFailure::Other => PollReaction::Report,
        }),
{
    match failure {
        PollFailure::Interrupted => PollReaction::Retry,
        PollFailure::TimedOut => PollReaction::Proceed,
        PollFailure::Other => PollReaction::Report,
    }
}

// ======== Filter ========

/// Whether a filter lets exactly those robots pass that are not connected.
pub open spec fn seeks_others(connected: Set<u8>, f: RobotIdFilter) -> bool {
    forall|id: u8| #[trigger] f.accepts(id) == !connected.contains(id)
}

// ======== Connections ========

/// How a message to the user is sent if the channel is full.
#[derive(Clone, Copy, Debug, PartialEq, Eq, Structural)]
pub enum Delivery {
    /// Wait for space: the message can't be lost.
    Block,
    /// Drop the message: some loss is acceptable.
    DropIfFull,
}

/// A message to the user.
#[derive(Debug)]
pub struct Outgoing<RR, DR> {
    pub event: ConnectionDriverEvent<RR, DR>,
    pub delivery: Delivery,
}

/// What follows from an event of a transceiver.
#[derive(Debug)]
pub struct Reaction<RR, DR> {
    pub message: Option<Outgoing<RR, DR>>,
    /// The connected robots may have changed, so the transceivers need a new filter.
    pub update_id_filter: bool,
}

/// The message that a received packet leads to.
pub open spec fn packet_message<RR, DR>(
    robot_id: u8,
    result: PacketRxResult<RR, DR>,
    received_on: Instant,
) -> Option<Outgoing<RR, DR>> {
    match result {
        PacketRxResult::Regular(packet) => Some(
            Outgoing {
                event: ConnectionDriverEvent::PacketReceived(robot_id, packet, received_on),
                delivery: Delivery::DropIfFull,
            },
        ),
        PacketRxResult::Datagram(dgram) => Some(
            Outgoing {
                event: ConnectionDriverEvent::DatagramReceived(robot_id, dgram, received_on),
                delivery: Delivery::Block,
            },
        ),
        PacketRxResult::IncompleteDatagram => None,
    }
}

/// Makes a message of a received packet.
pub fn message_of_packet<RR, DR>(
    robot_id: u8,
    result: PacketRxResult<RR, DR>,
    received_on: Instant,
) -> (message: Option<Outgoing<RR, DR>>)
    ensures
        message == packet_message(robot_id, result, received_on),
{
    match result {
        // Some package loss is acceptable for regular packets
        PacketRxResult::Regular(packet) => Some(
            Outgoing {
                event: ConnectionDriverEvent::PacketReceived(robot_id, packet, received_on),
                delivery: Delivery::DropIfFull,
            },
        ),
        // Datagram messages can't be lost
        PacketRxResult::Datagram(dgram) => Some(
            Outgoing {
                event: ConnectionDriverEvent::DatagramReceived(robot_id, dgram, received_on),
                delivery: Delivery::Block,
            },
        ),
        PacketRxResult::IncompleteDatagram => None,
    }
}

/// Whether new protocol states are reachable states.
pub open spec fn starts_wf<RC, RR, DC, DR, P: RadioProtocol<RC, RR, DC, DR> + Default>() -> bool {
    forall|p: P| #[trigger] call_ensures(P::default, (), p) ==> p.proto_wf()
}

/// The connection state of all robots.
#[derive(Debug)]
pub struct ConnectionDriver<RC, RR, DC, DR, P> {
    active_connections: InternedDualMap<u8, RobotTransceiverAddress, P>,
    _phantom_data: PhantomData<(RC, RR, DC, DR)>,
}

impl<RC, RR, DC, DR, P: RadioProtocol<RC, RR, DC, DR> + Default> ConnectionDriver<
    RC,
    RR,
    DC,
    DR,
    P,
> {
    /// The address and the protocol state of each connected robot.
    pub closed spec fn view(&self) -> Map<u8, (AddressView, P)> {
        self.active_connections@
    }

    pub closed spec fn wf(&self) -> bool {
        &&& self.active_connections.wf()
        &&& starts_wf::<RC, RR, DC, DR, P>()
        &&& forall|id: u8| #[trigger]
            self.active_connections@.contains_key(id) ==> self.active_connections@[id].1.proto_wf()
    }

    /// Without any connection.
    pub fn new() -> (d: Self)
        requires
            starts_wf::<RC, RR, DC, DR, P>(),
        ensures
            d.wf(),
            d@ == Map::<u8, (AddressView, P)>::empty(),
    {
        ConnectionDriver { active_connections: InternedDualMap::new(), _phantom_data: PhantomData }
    }

    /// No two robots have the same address.
    pub proof fn law_addresses_are_unique(&self)
        requires
            self.wf(),
        ensures
            forall|a: u8, b: u8|
                self@.contains_key(a) && self@.contains_key(b) && #[trigger] self@[a].0
                    == #[trigger] self@[b].0 ==> a == b,
    {
        self.active_connections.law_secondary_keys_are_unique();
    }

    /// The effect of sending a packet to a robot.
    pub open spec fn sent(
        before: Map<u8, (AddressView, P)>,
        robot_id: u8,
        packet: RC,
        now: Instant,
        r: Option<(RobotTransceiverAddress, Vec<u8>)>,
        after: Map<u8, (AddressView, P)>,
    ) -> bool {
        match r {
            Some((addr, bytes)) => {
                &&& before.contains_key(robot_id)
                &&& addr@ == before[robot_id].0
                &&& after.contains_key(robot_id)
                &&& P::on_sent(before[robot_id].1, packet, now, bytes@, after[robot_id].1)
                &&& after == before.insert(robot_id, (before[robot_id].0, after[robot_id].1))
            },
            None => !before.contains_key(robot_id) && after == before,
        }
    }

    /// Packs the next packet for a robot. Returns where it has to be sent, or nothing if the robot
    /// is not connected.
    pub fn send_packet(&mut self, robot_id: u8, packet: RC, now: Instant) -> (r: Option<
        (RobotTransceiverAddress, Vec<u8>),
    >)
        requires
            old(self).wf(),
            old(self)@.contains_key(robot_id) ==> P::sendable(packet),
        ensures
            final(self).wf(),
            Self::sent(old(self)@, robot_id, packet, now, r, final(self)@),
    {
        match self.active_connections.get_prim_mut(&robot_id) {
            Some((addr, proto)) => {
                let addr: RobotTransceiverAddress = addr.clone();
                let bytes: Vec<u8> = proto.next_packet(packet, now);
                Some((addr, bytes))
            },
            // No connection for this robot id
            None => None,
        }
    }

    /// The effect of queueing a datagram for a robot.
    pub open spec fn queued(
        before: Map<u8, (AddressView, P)>,
        robot_id: u8,
        datagram: DC,
        after: Map<u8, (AddressView, P)>,
    ) -> bool {
        if before.contains_key(robot_id) {
            &&& after.contains_key(robot_id)
            &&& P::on_queued(before[robot_id].1, datagram, after[robot_id].1)
            &&& after == before.insert(robot_id, (before[robot_id].0, after[robot_id].1))
        } else {
            after == before
        }
    }

    /// Queues a datagram for a robot. Does nothing if the robot is not connected.
    pub fn queue_datagram(&mut self, robot_id: u8, datagram: DC)
        requires
            old(self).wf(),
        ensures
            final(self).wf(),
            Self::queued(old(self)@, robot_id, datagram, final(self)@),
    {
        if let Some((_addr, proto)) = self.active_connections.get_prim_mut(&robot_id) {
            proto.queue_datagram(datagram);
        }
    }

    /// The statistics of the connection to a robot.
    pub fn connection_stats(&self, robot_id: u8) -> (stats: Option<ConnectionStats>)
        requires
            self.wf(),
        ensures
            match stats {
                Some(s) => self@.contains_key(robot_id) && self@[robot_id].1.has_stats(s),
                None => !self@.contains_key(robot_id),
            },
    {
        match self.active_connections.get_prim(&robot_id) {
            Some((_addr, proto)) => Some(proto.stats()),
            None => None,
        }
    }

    pub fn has_robot(&self, robot_id: u8) -> (b: bool)
        requires
            self.wf(),
        ensures
            b == self@.contains_key(robot_id),
    {
        self.active_connections.contains_prim(&robot_id)
    }

    /// The ids of all connected robots, in arbitrary order.
    pub fn connected_robots(&self) -> (ids: Vec<u8>)
        requires
            self.wf(),
        ensures
            ids@.no_duplicates(),
            ids@.to_set() == self@.dom(),
    {
        self.active_connections.prim_keys()
    }

    pub fn transceiver_addr(&self, robot_id: u8) -> (addr: Option<RobotTransceiverAddress>)
        requires
            self.wf(),
        ensures
            match addr {
                Some(a) => self@.contains_key(robot_id) && a@ == self@[robot_id].0,
                None => !self@.contains_key(robot_id),
            },
    {
        match self.active_connections.get_prim(&robot_id) {
            Some((addr, _proto)) => Some(addr.clone()),
            None => None,
        }
    }

    /// Whether a robot is connected at an address.
    pub fn has_address(&self, addr: &RobotTransceiverAddress) -> (b: bool)
        requires
            self.wf(),
        ensures
            b == exists|id: u8| paired(self@, id, addr@),
    {
        let b: bool = self.active_connections.contains_sec(addr);
        proof {
            if b {
                let id = choose|id: u8| paired(self.active_connections@, id, addr@);
                assert(paired(self@, id, addr@));
            }
            assert forall|id: u8| paired(self@, id, addr@) implies b by {
                assert(paired(self.active_connections@, id, addr@));
            }
        }
        b
    }

    /// The effect of an event of a transceiver.
    pub open spec fn handled(
        before: Map<u8, (AddressView, P)>,
        event: TransceiverEvent,
        reaction: Reaction<RR, DR>,
        after: Map<u8, (AddressView, P)>,
    ) -> bool {
        match event {
            // A robot that is already connected elsewhere is ignored
            TransceiverEvent::Connected(addr, id) => {
                &&& reaction.update_id_filter
                &&& if before.contains_key(id) {
                    &&& reaction.message is None
                    &&& after == before
                } else {
                    &&& after.contains_key(id)
                    &&& call_ensures(P::default, (), after[id].1)
                    &&& after == inserted(before, id, addr@, after[id].1)
                    &&& reaction.message matches Some(m)
                    &&& m.delivery is Block
                    &&& m.event matches ConnectionDriverEvent::Connected(to, at)
                    &&& to == id
                    &&& at@ == addr@
                }
            },
            TransceiverEvent::Disconnected(addr) => {
                &&& reaction.update_id_filter
                &&& if exists|id: u8| paired(before, id, addr@) {
                    &&& reaction.message matches Some(m)
                    &&& m.delivery is Block
                    &&& m.event matches ConnectionDriverEvent::Disconnected(id)
                    &&& paired(before, id, addr@)
                    &&& after == before.remove(id)
                } else {
                    &&& reaction.message is None
                    &&& after == before
                }
            },
            TransceiverEvent::PacketReceived(addr, bytes, received_on) => {
                &&& !reaction.update_id_filter
                &&& if exists|id: u8| paired(before, id, addr@) {
                    exists|id: u8, result: PacketRxResult<RR, DR>|
                        {
                            &&& paired(before, id, addr@)
                            &&& after.contains_key(id)
                            &&& #[trigger] P::on_received(
                                before[id].1,
                                bytes@,
                                received_on,
                                result,
                                after[id].1,
                            )
                            &&& after == before.insert(id, (addr@, after[id].1))
                            &&& reaction.message == packet_message(id, result, received_on)
                        }
                } else {
                    &&& reaction.message is None
                    &&& after == before
                }
            },
            TransceiverEvent::Error(error) => {
                &&& !reaction.update_id_filter
                &&& after == before
                &&& reaction.message == Some(
                    Outgoing {
                        event: ConnectionDriverEvent::<RR, DR>::TransceiverError(error),
                        delivery: Delivery::Block,
                    },
                )
            },
        }
    }

    /// Processes an event of a transceiver.
    pub fn handle_event(&mut self, event: TransceiverEvent) -> (reaction: Reaction<RR, DR>)
        requires
            old(self).wf(),
            event matches TransceiverEvent::PacketReceived(addr, bytes, _) ==> (exists|id: u8|
                paired(old(self)@, id, addr@)) ==> P::readable(bytes@),
        ensures
            final(self).wf(),
            Self::handled(old(self)@, event, reaction, final(self)@),
    {
        match event {
            TransceiverEvent::Connected(addr, robot_id) => {
                let message = if self.active_connections.contains_prim(&robot_id) {
                    None
                } else {
                    let proto: P = P::default();
                    self.active_connections.insert(robot_id, addr.clone(), proto);
                    Some(
                        Outgoing {
                            event: ConnectionDriverEvent::Connected(robot_id, addr),
                            delivery: Delivery::Block,
                        },
                    )
                };
                Reaction { message, update_id_filter: true }
            },
            TransceiverEvent::Disconnected(addr) => {
                let message = match self.active_connections.remove_sec(&addr) {
                    Some((robot_id, _proto)) => {
                        proof {
                            assert(paired(old(self)@, robot_id, addr@));
                        }
                        Some(
                            Outgoing {
                                event: ConnectionDriverEvent::Disconnected(robot_id),
                                delivery: Delivery::Block,
                            },
                        )
                    },
                    None => {
                        proof {
                            assert forall|id: u8| !paired(old(self)@, id, addr@) by {
                                assert(!paired(old(self).active_connections@, id, addr@));
                            }
                        }
                        None
                    },
                };
                Reaction { message, update_id_filter: true }
            },
            TransceiverEvent::PacketReceived(addr, bytes, received_on) => {
                let received: Option<(u8, PacketRxResult<RR, DR>)> =
                    match self.active_connections.get_sec_mut(&addr) {
                    Some((id, proto)) => {
                        let robot_id: u8 = *id;
                        proof {
                            assert(paired(old(self)@, robot_id, addr@));
                        }
                        Some((robot_id, proto.packet_received(bytes.as_slice(), received_on)))
                    },
                    None => {
                        proof {
                            assert forall|id: u8| !paired(old(self)@, id, addr@) by {
                                assert(!paired(old(self).active_connections@, id, addr@));
                            }
                        }
                        None
                    },
                };
                let message = match received {
                    Some((robot_id, result)) => {
                        proof {
                            assert(P::on_received(
                                old(self)@[robot_id].1,
                                bytes@,
                                received_on,
                                result,
                                self@[robot_id].1,
                            ));
                            assert(self@ =~= old(self)@.insert(
                                robot_id,
                                (addr@, self@[robot_id].1),
                            ));
                        }
                        message_of_packet(robot_id, result, received_on)
                    },
                    None => None,
                };
                Reaction { message, update_id_filter: false }
            },
            TransceiverEvent::Error(error) => Reaction {
                message: Some(
                    Outgoing {
                        event: ConnectionDriverEvent::TransceiverError(error),
                        delivery: Delivery::Block,
                    },
                ),
                update_id_filter: false,
            },
        }
    }

    /// A filter that accepts the robots that are not connected.
    pub fn id_filter(&self) -> (f: RobotIdFilter)
        requires
            self.wf(),
        ensures
            seeks_others(self@.dom(), f),
    {
        let ids: Vec<u8> = self.connected_robots();
        let ghost all = ids@;
        let f: RobotIdFilter = RobotIdFilter::new().with_blacklist(ids);
        proof {
            assert forall|id: u8| #[trigger] f.accepts(id) == !self@.contains_key(id) by {
                assert(all.to_set().contains(id) == all.contains(id));
            }
        }
        f
    }
}

// ======== Laws ========

/// The messages of a driver tell which robots are connected: a user who follows them, as
/// [ConnectionStateCache](crate::cache::ConnectionStateCache) does, knows the same robots as the
/// driver. An address is expected to disconnect before it connects to another robot.
pub proof fn law_messages_follow_connections<RC, RR, DC, DR, P>(
    before: Map<u8, (AddressView, P)>,
    event: TransceiverEvent,
    reaction: Reaction<RR, DR>,
    after: Map<u8, (AddressView, P)>,
    known: Map<u8, RobotConnState<RR>>,
) where P: RadioProtocol<RC, RR, DC, DR> + Default
    requires
        ConnectionDriver::<RC, RR, DC, DR, P>::handled(before, event, reaction, after),
        known.dom() == before.dom(),
        event matches TransceiverEvent::Connected(addr, _) ==> forall|id: u8|
            !paired(before, id, addr@),
    ensures
        (match reaction.message {
            Some(m) => cached(known, m.event),
            None => known,
        }).dom() == after.dom(),
{
    let updated = match reaction.message {
        Some(m) => cached(known, m.event),
        None => known,
    };
    match event {
        TransceiverEvent::Connected(addr, id) => {
            if !before.contains_key(id) {
                assert(after.dom() =~= before.dom().insert(id)) by {
                    assert forall|k: u8| before.contains_key(k) implies before[k].0 != addr@ by {
                        assert(!paired(before, k, addr@));
                    }
                }
                assert(updated.dom() =~= after.dom());
            }
        },
        TransceiverEvent::Disconnected(addr) => {
            assert(updated.dom() =~= after.dom());
        },
        TransceiverEvent::PacketReceived(addr, bytes, received_on) => {
            if exists|id: u8| paired(before, id, addr@) {
                let (id, result) = choose|id: u8, result: PacketRxResult<RR, DR>|
                    {
                        &&& paired(before, id, addr@)
                        &&& after.contains_key(id)
                        &&& #[trigger] P::on_received(
                            before[id].1,
                            bytes@,
                            received_on,
                            result,
                            after[id].1,
                        )
                        &&& after == before.insert(id, (addr@, after[id].1))
                        &&& reaction.message == packet_message(id, result, received_on)
                    };
                assert(after.dom() =~= before.dom());
                assert(known.dom().contains(id));
                assert(updated.dom() =~= known.dom());
            }
        },
        TransceiverEvent::Error(_) => {},
    }
}

/// Only connections and disconnections are announced, and each of them exactly once: a robot that
/// is announced was not connected before, a robot that is withdrawn was.
pub proof fn law_announced_once<RC, RR, DC, DR, P>(
    before: Map<u8, (AddressView, P)>,
    event: TransceiverEvent,
    reaction: Reaction<RR, DR>,
    after: Map<u8, (AddressView, P)>,
) where P: RadioProtocol<RC, RR, DC, DR> + Default
    requires
        ConnectionDriver::<RC, RR, DC, DR, P>::handled(before, event, reaction, after),
    ensures
        reaction.message matches Some(m) ==> match m.event {
            ConnectionDriverEvent::Connected(id, _) => !before.contains_key(id)
                && after.contains_key(id) && m.delivery is Block,
            ConnectionDriverEvent::Disconnected(id) => before.contains_key(id)
                && !after.contains_key(id) && m.delivery is Block,
            ConnectionDriverEvent::PacketReceived(id, _, _) => before.contains_key(id)
                && m.delivery is DropIfFull,
            ConnectionDriverEvent::DatagramReceived(id, _, _) => before.contains_key(id)
                && m.delivery is Block,
            ConnectionDriverEvent::MetricsSample(_, _) => false,
            ConnectionDriverEvent::TransceiverError(_) => after == before && m.delivery is Block,
        },
{
}

/// Two states know the same robots at the same addresses. Sending to robots keeps them.
pub open spec fn same_robots<P>(
    a: Map<u8, (AddressView, P)>,
    b: Map<u8, (AddressView, P)>,
) -> bool {
    &&& a.dom() == b.dom()
    &&& forall|id: u8| #[trigger] a.contains_key(id) ==> a[id].0 == b[id].0
}

/// A driver without connections handles some events, one after the other.
pub open spec fn driver_run<RC, RR, DC, DR, P>(
    before: Seq<Map<u8, (AddressView, P)>>,
    events: Seq<TransceiverEvent>,
    reactions: Seq<Reaction<RR, DR>>,
    after: Seq<Map<u8, (AddressView, P)>>,
) -> bool where P: RadioProtocol<RC, RR, DC, DR> + Default {
    &&& before.len() == events.len()
    &&& reactions.len() == events.len()
    &&& after.len() == events.len()
    &&& events.len() > 0 ==> before[0] == Map::<u8, (AddressView, P)>::empty()
    &&& forall|i: int|
        0 <= i < events.len() ==> ConnectionDriver::<RC, RR, DC, DR, P>::handled(
            before[i],
            #[trigger] events[i],
            reactions[i],
            after[i],
        )
    &&& forall|i: int| 0 <= i < events.len() - 1 ==> same_robots(#[trigger] after[i], before[i + 1])
}

/// Whether the last of some events that speaks of an address connects it.
pub open spec fn address_open(events: Seq<TransceiverEvent>, addr: AddressView) -> bool
    decreases events.len(),
{
    if events.len() == 0 {
        false
    } else {
        let earlier = address_open(events.drop_last(), addr);
        match events.last() {
            TransceiverEvent::Connected(a, _) => a@ == addr || earlier,
            TransceiverEvent::Disconnected(a) => a@ != addr && earlier,
            _ => earlier,
        }
    }
}

/// Whether the last of some messages that announces or withdraws a robot announces it.
pub open spec fn announced<RR, DR>(reactions: Seq<Reaction<RR, DR>>, id: u8) -> bool
    decreases reactions.len(),
{
    if reactions.len() == 0 {
        false
    } else {
        let earlier = announced(reactions.drop_last(), id);
        match reactions.last().message {
            Some(m) => match m.event {
                ConnectionDriverEvent::Connected(i, _) => i == id || earlier,
                ConnectionDriverEvent::Disconnected(i) => i != id && earlier,
                _ => earlier,
            },
            None => earlier,
        }
    }
}

/// The state before event `n`: the connected robots are those that were announced, each is at an
/// address that is open, and no two are at the same address.
pub open spec fn follows<RR, DR, P>(
    state: Map<u8, (AddressView, P)>,
    events: Seq<TransceiverEvent>,
    reactions: Seq<Reaction<RR, DR>>,
) -> bool {
    &&& forall|id: u8| #[trigger] state.contains_key(id) <==> announced(reactions, id)
    &&& forall|id: u8| #[trigger] state.contains_key(id) ==> address_open(events, state[id].0)
    &&& forall|a: u8, b: u8|
        #![trigger state.contains_key(a), state.contains_key(b)]
        state.contains_key(a) && state.contains_key(b) && state[a].0 == state[b].0 ==> a == b
}

proof fn lemma_follows_step<RC, RR, DC, DR, P>(
    before: Map<u8, (AddressView, P)>,
    events: Seq<TransceiverEvent>,
    reactions: Seq<Reaction<RR, DR>>,
    event: TransceiverEvent,
    reaction: Reaction<RR, DR>,
    after: Map<u8, (AddressView, P)>,
) where P: RadioProtocol<RC, RR, DC, DR> + Default
    requires
        follows(before, events, reactions),
        ConnectionDriver::<RC, RR, DC, DR, P>::handled(before, event, reaction, after),
        event matches TransceiverEvent::Connected(addr, _) ==> !address_open(events, addr@),
    ensures
        follows(after, events.push(event), reactions.push(reaction)),
{
    let events2 = events.push(event);
    let reactions2 = reactions.push(reaction);
    assert(events2.drop_last() =~= events);
    assert(reactions2.drop_last() =~= reactions);
    assert(events2.last() == event);
    assert(reactions2.last() == reaction);
    match event {
        TransceiverEvent::Connected(addr, id) => {
            if !before.contains_key(id) {
                assert forall|k: u8| #[trigger] before.contains_key(k) implies before[k].0
                    != addr@ by {}
                assert(after.dom() =~= before.dom().insert(id));
            }
        },
        TransceiverEvent::Disconnected(addr) => {
            assert forall|k: u8| #[trigger] after.contains_key(k) implies after[k].0 != addr@ by {
                assert(before.contains_key(k));
                assert(!paired(after, k, addr@)) by {
                    if paired(before, k, addr@) {
                        assert(reaction.message is Some);
                    }
                }
            }
        },
        TransceiverEvent::PacketReceived(addr, bytes, received_on) => {
            if exists|id: u8| paired(before, id, addr@) {
                let (id, result) = choose|id: u8, result: PacketRxResult<RR, DR>|
                    {
                        &&& paired(before, id, addr@)
                        &&& after.contains_key(id)
                        &&& #[trigger] P::on_received(
                            before[id].1,
                            bytes@,
                            received_on,
                            result,
                            after[id].1,
                        )
                        &&& after == before.insert(id, (addr@, after[id].1))
                        &&& reaction.message == packet_message(id, result, received_on)
                    };
                assert(after.dom() =~= before.dom());
            }
        },
        TransceiverEvent::Error(_) => {},
    }
}

/// Over a whole run in which no address connects again before it disconnects, the messages about one
/// robot alternate, and start with its connection. An address that claims a connected robot changes
/// nothing, nor does an address at which no robot is connected. Only packets can be dropped on the
/// way to the user.
pub proof fn law_announcements_alternate<RC, RR, DC, DR, P>(
    before: Seq<Map<u8, (AddressView, P)>>,
    events: Seq<TransceiverEvent>,
    reactions: Seq<Reaction<RR, DR>>,
    after: Seq<Map<u8, (AddressView, P)>>,
    n: int,
) where P: RadioProtocol<RC, RR, DC, DR> + Default
    requires
        driver_run::<RC, RR, DC, DR, P>(before, events, reactions, after),
        forall|i: int|
            0 <= i < events.len() ==> (#[trigger] events[i] matches TransceiverEvent::Connected(
                addr,
                _,
            ) ==> !address_open(events.take(i), addr@)),
        0 <= n < events.len(),
    ensures
        follows(before[n], events.take(n), reactions.take(n)),
        reactions[n].message matches Some(m) ==> {
            &&& match m.event {
                ConnectionDriverEvent::Connected(id, _) => !announced(reactions.take(n), id),
                ConnectionDriverEvent::Disconnected(id) => announced(reactions.take(n), id),
                ConnectionDriverEvent::PacketReceived(id, _, _) => announced(
                    reactions.take(n),
                    id,
                ),
                ConnectionDriverEvent::DatagramReceived(id, _, _) => announced(
                    reactions.take(n),
                    id,
                ),
                _ => true,
            }
            &&& m.delivery is DropIfFull <==> m.event is PacketReceived
        },
        match events[n] {
            TransceiverEvent::Connected(addr, id) => announced(reactions.take(n), id)
                ==> reactions[n].message is None && after[n] == before[n],
            TransceiverEvent::Disconnected(addr) => (forall|id: u8|
                !paired(before[n], id, addr@)) ==> reactions[n].message is None && after[n]
                == before[n],
            TransceiverEvent::PacketReceived(addr, _, _) => (forall|id: u8|
                !paired(before[n], id, addr@)) ==> reactions[n].message is None && after[n]
                == before[n],
            TransceiverEvent::Error(_) => after[n] == before[n],
        },
    decreases n,
{
    if n == 0 {
        assert(events.take(0) =~= Seq::empty());
        assert(reactions.take(0) =~= Seq::empty());
    } else {
        let m = n - 1;
        law_announcements_alternate::<RC, RR, DC, DR, P>(before, events, reactions, after, m);
        lemma_follows_step::<RC, RR, DC, DR, P>(
            before[m],
            events.take(m),
            reactions.take(m),
            events[m],
            reactions[m],
            after[m],
        );
        assert(events.take(m).push(events[m]) =~= events.take(n));
        assert(reactions.take(m).push(reactions[m]) =~= reactions.take(n));
        assert(same_robots(after[m], before[m + 1]));
        assert forall|id: u8| #[trigger] before[n].contains_key(id) == after[m].contains_key(
            id,
        ) by {}
    }
    assert(ConnectionDriver::<RC, RR, DC, DR, P>::handled(
        before[n],
        events[n],
        reactions[n],
        after[n],
    ));
}

// ======== Messages ========

/// All other robots are as they were.
pub open spec fn others_kept<P>(
    before: Map<u8, (AddressView, P)>,
    id: u8,
    after: Map<u8, (AddressView, P)>,
) -> bool {
    forall|k: u8|
        k != id ==> #[trigger] after.contains_key(k) == before.contains_key(k) && (
        before.contains_key(k) ==> after[k] == before[k])
}

/// A packet from the address of a connected robot is handed to the protocol of that robot. The user
/// gets a message if it held regular data, which may be dropped, or completed a datagram, which may
/// not, with the robot, the contents and the time of arrival. A packet from any other address does
/// nothing.
pub proof fn law_packets_are_delivered<RC, RR, DC, DR, P>(
    before: Map<u8, (AddressView, P)>,
    addr: RobotTransceiverAddress,
    bytes: Vec<u8>,
    received_on: Instant,
    reaction: Reaction<RR, DR>,
    after: Map<u8, (AddressView, P)>,
) where P: RadioProtocol<RC, RR, DC, DR> + Default
    requires
        ConnectionDriver::<RC, RR, DC, DR, P>::handled(
            before,
            TransceiverEvent::PacketReceived(addr, bytes, received_on),
            reaction,
            after,
        ),
    ensures
        !reaction.update_id_filter,
        (exists|id: u8| #[trigger] before.contains_key(id) && before[id].0 == addr@) ==> exists|
            id: u8,
            result: PacketRxResult<RR, DR>,
        |
            {
                &&& before.contains_key(id)
                &&& before[id].0 == addr@
                &&& after.contains_key(id)
                &&& after[id].0 == addr@
                &&& #[trigger] P::on_received(
                    before[id].1,
                    bytes@,
                    received_on,
                    result,
                    after[id].1,
                )
                &&& others_kept(before, id, after)
                &&& match result {
                    PacketRxResult::Regular(data) => reaction.message == Some(
                        Outgoing {
                            event: ConnectionDriverEvent::<RR, DR>::PacketReceived(
                                id,
                                data,
                                received_on,
                            ),
                            delivery: Delivery::DropIfFull,
                        },
                    ),
                    PacketRxResult::Datagram(d) => reaction.message == Some(
                        Outgoing {
                            event: ConnectionDriverEvent::<RR, DR>::DatagramReceived(
                                id,
                                d,
                                received_on,
                            ),
                            delivery: Delivery::Block,
                        },
                    ),
                    PacketRxResult::IncompleteDatagram => reaction.message is None,
                }
            },
        (forall|id: u8| #[trigger] before.contains_key(id) ==> before[id].0 != addr@) ==> {
            &&& reaction.message is None
            &&& after == before
        },
{
    if exists|id: u8| #[trigger] before.contains_key(id) && before[id].0 == addr@ {
        let known = choose|id: u8| #[trigger] before.contains_key(id) && before[id].0 == addr@;
        assert(paired(before, known, addr@));
        let (id, result) = choose|id: u8, result: PacketRxResult<RR, DR>|
            {
                &&& paired(before, id, addr@)
                &&& after.contains_key(id)
                &&& #[trigger] P::on_received(
                    before[id].1,
                    bytes@,
                    received_on,
                    result,
                    after[id].1,
                )
                &&& after == before.insert(id, (addr@, after[id].1))
                &&& reaction.message == packet_message(id, result, received_on)
            };
        assert(P::on_received(before[id].1, bytes@, received_on, result, after[id].1));
        assert(others_kept(before, id, after));
    } else {
        assert forall|id: u8| !paired(before, id, addr@) by {
            if paired(before, id, addr@) {
                assert(before.contains_key(id));
            }
        }
    }
}

/// A robot that connects for the first time is known at its address from then on, with a new protocol
/// state, and is announced once with that address. A robot that is connected already is neither
/// announced nor moved. Only a robot that was known at that very address is forgotten.
pub proof fn law_connections_are_announced<RC, RR, DC, DR, P>(
    before: Map<u8, (AddressView, P)>,
    addr: RobotTransceiverAddress,
    id: u8,
    reaction: Reaction<RR, DR>,
    after: Map<u8, (AddressView, P)>,
    other: u8,
) where P: RadioProtocol<RC, RR, DC, DR> + Default
    requires
        ConnectionDriver::<RC, RR, DC, DR, P>::handled(
            before,
            TransceiverEvent::Connected(addr, id),
            reaction,
            after,
        ),
        other != id,
    ensures
        reaction.update_id_filter,
        before.contains_key(id) ==> reaction.message is None && after == before,
        !before.contains_key(id) ==> {
            &&& after.contains_key(id)
            &&& after[id].0 == addr@
            &&& call_ensures(P::default, (), after[id].1)
            &&& after.contains_key(other) <==> before.contains_key(other) && before[other].0
                != addr@
            &&& after.contains_key(other) ==> after[other] == before[other]
            &&& reaction.message matches Some(m)
            &&& m.delivery == Delivery::Block
            &&& m.event matches ConnectionDriverEvent::Connected(to, from)
            &&& to == id
            &&& from@ == addr@
        },
{
}

/// A disconnection withdraws the robot at the address with one message, and no other robot. An address
/// without a robot does nothing.
pub proof fn law_disconnections_are_announced<RC, RR, DC, DR, P>(
    before: Map<u8, (AddressView, P)>,
    addr: RobotTransceiverAddress,
    reaction: Reaction<RR, DR>,
    after: Map<u8, (AddressView, P)>,
    id: u8,
) where P: RadioProtocol<RC, RR, DC, DR> + Default
    requires
        ConnectionDriver::<RC, RR, DC, DR, P>::handled(
            before,
            TransceiverEvent::Disconnected(addr),
            reaction,
            after,
        ),
        forall|a: u8, b: u8|
            #![trigger before.contains_key(a), before.contains_key(b)]
            before.contains_key(a) && before.contains_key(b) && before[a].0 == before[b].0 ==> a
                == b,
    ensures
        reaction.update_id_filter,
        after.contains_key(id) <==> before.contains_key(id) && before[id].0 != addr@,
        after.contains_key(id) ==> after[id] == before[id],
        before.contains_key(id) && before[id].0 == addr@ ==> reaction.message == Some(
            Outgoing {
                event: ConnectionDriverEvent::<RR, DR>::Disconnected(id),
                delivery: Delivery::Block,
            },
        ),
        (forall|k: u8| #[trigger] before.contains_key(k) ==> before[k].0 != addr@)
            ==> reaction.message is None,
{
    if exists|k: u8| paired(before, k, addr@) {
        let k = choose|k: u8| paired(before, k, addr@);
        assert(before.contains_key(k));
    }
    if before.contains_key(id) && before[id].0 == addr@ {
        assert(paired(before, id, addr@));
    }
}

/// An error of a transceiver is passed on and not dropped, and changes nothing.
pub proof fn law_errors_are_delivered<RC, RR, DC, DR, P>(
    before: Map<u8, (AddressView, P)>,
    event: TransceiverEvent,
    reaction: Reaction<RR, DR>,
    after: Map<u8, (AddressView, P)>,
) where P: RadioProtocol<RC, RR, DC, DR> + Default
    requires
        ConnectionDriver::<RC, RR, DC, DR, P>::handled(before, event, reaction, after),
        event is Error,
    ensures
        after == before,
        !reaction.update_id_filter,
        reaction.message matches Some(m) && m.delivery == Delivery::Block && (
        m.event matches ConnectionDriverEvent::TransceiverError(e) && e == event->Error_0),
{
}

/// A packet for a connected robot leaves to the address of that robot, and its protocol packs it. No
/// other robot is touched. For a robot that is not connected nothing leaves.
pub proof fn law_packets_leave<RC, RR, DC, DR, P>(
    before: Map<u8, (AddressView, P)>,
    id: u8,
    packet: RC,
    now: Instant,
    r: Option<(RobotTransceiverAddress, Vec<u8>)>,
    after: Map<u8, (AddressView, P)>,
) where P: RadioProtocol<RC, RR, DC, DR> + Default
    requires
        ConnectionDriver::<RC, RR, DC, DR, P>::sent(before, id, packet, now, r, after),
    ensures
        r is Some <==> before.contains_key(id),
        r is Some ==> {
            &&& (r->0).0@ == before[id].0
            &&& after.contains_key(id) && after[id].0 == before[id].0
            &&& P::on_sent(before[id].1, packet, now, (r->0).1@, after[id].1)
        },
        r is None ==> !after.contains_key(id),
        others_kept(before, id, after),
{
}

/// A datagram for a connected robot is queued by the protocol of that robot. No other robot is touched.
/// For a robot that is not connected nothing is queued.
pub proof fn law_datagrams_are_queued<RC, RR, DC, DR, P>(
    before: Map<u8, (AddressView, P)>,
    id: u8,
    datagram: DC,
    after: Map<u8, (AddressView, P)>,
) where P: RadioProtocol<RC, RR, DC, DR> + Default
    requires
        ConnectionDriver::<RC, RR, DC, DR, P>::queued(before, id, datagram, after),
    ensures
        after.contains_key(id) <==> before.contains_key(id),
        before.contains_key(id) ==> after[id].0 == before[id].0 && P::on_queued(
            before[id].1,
            datagram,
            after[id].1,
        ),
        others_kept(before, id, after),
{
}

// ======== Laws of polling ========

/// Whoever waits as long as told finds that the timeout has come, and no earlier. Without a timeout
/// nothing comes.
pub proof fn law_poll(next: Option<Instant>, now: Instant, later: Instant)
    requires
        now.nanos <= later.nanos,
    ensures
        next is None ==> time_until(next, now) is None && !is_due(next, later),
        next is Some ==> time_until(next, now) is Some,
        next is Some && !is_due(next, now) ==> {
            let wait = time_until(next, now)->0;
            &&& wait.nanos > 0
            &&& is_due(next, later) <==> later.nanos >= now.nanos + wait.nanos
        },
        next is Some && is_due(next, now) ==> time_until(next, now)->0.nanos == 0 && is_due(
            next,
            later,
        ),
{
}

/// A connected robot is not found a second time in the local network, and a robot that is not
/// connected is found as soon as it answers from a new address.
pub proof fn law_network_seeks_others(
    connected: Set<u8>,
    before: UdpTransceiver,
    robot_id: u8,
    src: SocketAddr,
    now: Instant,
    event: Option<TransceiverEvent>,
    after: UdpTransceiver,
)
    requires
        seeks_others(connected, before.id_filter()),
        UdpTransceiver::discovered(before, robot_id, src, now, event, after),
    ensures
        connected.contains(robot_id) ==> event is None,
        !connected.contains(robot_id) && event is None ==> exists|addr: SocketAddr| #[trigger]
            data_port_of(src, addr) && before.timeouts().contains_key(addr),
        event is Some ==> event->0@ is Connected && event->0@->Connected_1 == robot_id,
{
    assert(data_port_of(src, data_address(src)));
}

/// A connected robot is not found a second time on a port, and a robot that is not connected is.
pub proof fn law_ports_seek_others(
    connected: Set<u8>,
    before: SerialTransceiver,
    token: usize,
    port: PortView,
    response: Seq<u8>,
    now: Instant,
    r: DiscoveryResult,
    after: SerialTransceiver,
    id: u8,
)
    requires
        seeks_others(connected, before.id_filter()),
        vstd::utf8::valid_utf8(response),
        reported_id(response) == Some(id as nat),
        SerialTransceiver::heard(before, token, port, Ok(response), now, r, after),
    ensures
        connected.contains(id) ==> r is Rejected,
        !connected.contains(id) ==> r is Connected,
{
}

} // verus!
