//! The latest state of all robots.

use crate::transceivers::address::RobotTransceiverAddress;
use crate::utils::maps::keys_of;
use crate::ConnectionDriverEvent;
use std::collections::hash_map::Entry;
use std::collections::HashMap;
use vstd::prelude::*;

verus! {

broadcast use vstd::std_specs::hash::group_hash_axioms;

/// Cache that can keep track of the transient data that is sent with ConnectionDriver messages, like received responses and the connection type
#[derive(Clone, Debug)]
pub struct ConnectionStateCache<RR> {
    connected_robots: HashMap<u8, RobotConnState<RR>>,
}

/// What is known of a connected robot.
#[derive(Clone, Debug)]
pub struct RobotConnState<RR> {
    pub transceiver_address: RobotTransceiverAddress,
    pub latest_response: Option<RR>,
}

/// The known robots after an event.
pub open spec fn cached<RR, DR>(
    robots: Map<u8, RobotConnState<RR>>,
    event: ConnectionDriverEvent<RR, DR>,
) -> Map<u8, RobotConnState<RR>> {
    match event {
        ConnectionDriverEvent::Connected(id, addr) => robots.insert(
            id,
            RobotConnState { transceiver_address: addr, latest_response: None },
        ),
        ConnectionDriverEvent::Disconnected(id) => robots.remove(id),
        ConnectionDriverEvent::PacketReceived(id, packet, _) => if robots.contains_key(id) {
            robots.insert(
                id,
                RobotConnState {
                    transceiver_address: robots[id].transceiver_address,
                    latest_response: Some(packet),
                },
            )
        } else {
            robots
        },
        _ => robots,
    }
}

impl<RR> View for ConnectionStateCache<RR> {
    type V = Map<u8, RobotConnState<RR>>;

    /// The connected robots by id.
    closed spec fn view(&self) -> Map<u8, RobotConnState<RR>> {
        self.connected_robots@
    }
}

impl<RR> Default for ConnectionStateCache<RR> {
    fn default() -> (c: Self)
        ensures
            c@ == Map::<u8, RobotConnState<RR>>::empty(),
    {
        ConnectionStateCache { connected_robots: HashMap::new() }
    }
}

impl<RR> ConnectionStateCache<RR> {
    pub fn update<DR>(&mut self, msg: ConnectionDriverEvent<RR, DR>)
        ensures
            final(self)@ == cached(old(self)@, msg),
    {
        match msg {
            ConnectionDriverEvent::Connected(robot_id, addr) => {
                self.connected_robots.insert(
                    robot_id,
                    RobotConnState { transceiver_address: addr, latest_response: None },
                );
            },
            ConnectionDriverEvent::Disconnected(robot_id) => {
                self.connected_robots.remove(&robot_id);
            },
            ConnectionDriverEvent::PacketReceived(robot_id, packet, _) => {
                match self.connected_robots.entry(robot_id) {
                    Entry::Occupied(entry) => {
                        let conn_state: &mut RobotConnState<RR> = entry.into_mut();
                        conn_state.latest_response = Some(packet);
                    },
                    Entry::Vacant(_) => {},
                }
            },
            _ => {},
        }
        proof {
            assert(self@ =~= cached(old(self)@, msg));
        }
    }

    /// The ids of all connected robots, in arbitrary order.
    pub fn connected_robots(&self) -> (ids: Vec<u8>)
        ensures
            ids@.no_duplicates(),
            ids@.to_set() == self@.dom(),
    {
        keys_of(&self.connected_robots)
    }

    pub fn transceiver_address(&self, robot_id: u8) -> (addr: Option<&RobotTransceiverAddress>)
        ensures
            addr == (if self@.contains_key(robot_id) {
                Some(&self@[robot_id].transceiver_address)
            } else {
                None
            }),
    {
        match self.connected_robots.get(&robot_id) {
            Some(state) => Some(&state.transceiver_address),
            None => None,
        }
    }

    pub fn latest_response(&self, robot_id: u8) -> (response: Option<&RR>)
        ensures
            match response {
                Some(r) => self@.contains_key(robot_id) && self@[robot_id].latest_response == Some(
                    *r,
                ),
                None => self@.contains_key(robot_id) ==> self@[robot_id].latest_response is None,
            },
    {
        match self.connected_robots.get(&robot_id) {
            Some(state) => match &state.latest_response {
                Some(r) => Some(r),
                None => None,
            },
            None => None,
        }
    }
}

/// Events of one robot do not change what is known of the others.
pub proof fn law_other_robots_unchanged<RR, DR>(
    robots: Map<u8, RobotConnState<RR>>,
    event: ConnectionDriverEvent<RR, DR>,
    subject: u8,
    other: u8,
)
    requires
        match event {
            ConnectionDriverEvent::Connected(id, _) => id == subject,
            ConnectionDriverEvent::Disconnected(id) => id == subject,
            ConnectionDriverEvent::PacketReceived(id, _, _) => id == subject,
            _ => true,
        },
        other != subject,
    ensures
        cached(robots, event).contains_key(other) == robots.contains_key(other),
        robots.contains_key(other) ==> cached(robots, event)[other] == robots[other],
{
}

/// A robot that connects again has no response until the next packet.
pub proof fn law_reconnect_forgets<RR, DR>(
    robots: Map<u8, RobotConnState<RR>>,
    id: u8,
    addr: RobotTransceiverAddress,
)
    ensures
        cached(robots, ConnectionDriverEvent::<RR, DR>::Connected(id, addr))[id].latest_response
            is None,
        !cached(robots, ConnectionDriverEvent::<RR, DR>::Disconnected(id)).contains_key(id),
{
}

// ======== Laws of all events ========

/// What each event makes known: a connection makes a robot known at its address without a response, a
/// packet of a known robot becomes its latest response at the same address, and a disconnection makes
/// it unknown. A packet of an unknown robot, and any other event, changes nothing.
pub proof fn law_events_make_known<RR, DR>(
    robots: Map<u8, RobotConnState<RR>>,
    event: ConnectionDriverEvent<RR, DR>,
    id: u8,
)
    ensures
        match event {
            ConnectionDriverEvent::Connected(i, addr) => i == id ==> {
                &&& cached(robots, event).contains_key(id)
                &&& cached(robots, event)[id].transceiver_address == addr
                &&& cached(robots, event)[id].latest_response is None
            },
            ConnectionDriverEvent::Disconnected(i) => i == id ==> !cached(
                robots,
                event,
            ).contains_key(id),
            ConnectionDriverEvent::PacketReceived(i, packet, _) => i == id ==> {
                &&& cached(robots, event).contains_key(id) == robots.contains_key(id)
                &&& robots.contains_key(id) ==> {
                    &&& cached(robots, event)[id].latest_response == Some(packet)
                    &&& cached(robots, event)[id].transceiver_address
                        == robots[id].transceiver_address
                }
            },
            ConnectionDriverEvent::DatagramReceived(_, _, _) => cached(robots, event) == robots,
            ConnectionDriverEvent::MetricsSample(_, _) => cached(robots, event) == robots,
            ConnectionDriverEvent::TransceiverError(_) => cached(robots, event) == robots,
        },
{
}

} // verus!
