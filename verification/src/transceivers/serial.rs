//! Robots on serial ports.
//!
//! The transceiver decides what is written to the ports and what the bytes that were read mean. The
//! ports themselves are handled by its user, who tells them apart by their tokens.

use crate::dual_map::paired;
use crate::framing::{
    carries_packet, cobs_decoded, encodable, fed, frame, framed, law_frame_holds_packet,
    law_packet_of_frame, ReceiveBuffer,
};
use crate::id_filter::RobotIdFilter;
use crate::interned_map::InternedDualMap;
use crate::time::{Duration, Instant};
use crate::transceivers::address::{AddressView, PortView, RobotTransceiverAddress, SerialPortInfo};
use crate::transceivers::discovery::{
    is_plausible, parse_response, plausible, reported_id, Response,
};
use crate::transceivers::{EventView, Transceiver, TransceiverError, TransceiverEvent};
use vstd::prelude::*;

verus! {

broadcast use vstd::std_specs::hash::group_hash_axioms;

/// The speed of the ports, in bits per second.
pub const BAUD_RATE: u32 = 921600;

/// How long ports have time to answer, in milliseconds.
pub const DISCOVERY_MILLIS: u64 = 500;

/// The time after which a silent robot counts as disconnected, in seconds.
pub const DEFAULT_TIMEOUT_SECS: u64 = 1;

/// The settings of a [SerialTransceiver].
#[derive(Clone, Copy, Debug, PartialEq, Eq, Structural, Hash)]
pub struct SerialTransceiverConfig {
    pub probe_period: Duration,
}

/// A port with a connected robot.
#[derive(Debug)]
pub struct SerialConnectionState {
    port_info: SerialPortInfo,
    rx_buf: ReceiveBuffer,
    timeout: Instant,
}

/// The contents of a [SerialConnectionState].
pub ghost struct ConnectionView {
    pub port: PortView,
    /// The bytes of an incomplete frame.
    pub buffered: Seq<u8>,
    /// When the robot counts as disconnected.
    pub timeout: Instant,
}

impl SerialConnectionState {
    pub closed spec fn view(&self) -> ConnectionView {
        ConnectionView { port: self.port_info@, buffered: self.rx_buf@, timeout: self.timeout }
    }

    pub closed spec fn wf(&self) -> bool {
        self.rx_buf.wf()
    }

    /// How many bytes a frame has in front of its delimiter.
    pub closed spec fn frame_size(&self) -> nat {
        self.rx_buf.spec_size()
    }

    /// Takes bytes that were read. Returns the event that they lead to.
    fn receive(&mut self, chunk: &[u8], configured_timeout: Duration, now: Instant) -> (event:
        Option<TransceiverEvent>)
        requires
            old(self).wf(),
            old(self)@.buffered.len() + chunk@.len() <= old(self).frame_size(),
            now.nanos + configured_timeout.nanos <= u64::MAX,
        ensures
            final(self).wf(),
            final(self).frame_size() == old(self).frame_size(),
            receives(
                old(self)@,
                chunk@,
                old(self).frame_size(),
                configured_timeout,
                now,
                event,
                final(self)@,
            ),
    {
        match self.rx_buf.feed(chunk) {
            Some(packet) => {
                self.timeout = now.plus(configured_timeout);
                Some(
                    TransceiverEvent::PacketReceived(
                        RobotTransceiverAddress::Serial(self.port_info.clone()),
                        packet,
                        now,
                    ),
                )
            },
            None => None,
        }
    }
}

/// Whether a connection reacts to bytes that were read as it should: a complete packet is reported
/// and puts off the timeout.
pub open spec fn receives(
    before: ConnectionView,
    chunk: Seq<u8>,
    size: nat,
    timeout: Duration,
    now: Instant,
    event: Option<TransceiverEvent>,
    after: ConnectionView,
) -> bool {
    let (buffered, packet) = fed(before.buffered, chunk, size);
    &&& after.port == before.port
    &&& after.buffered == buffered
    &&& match packet {
        Some(p) => {
            &&& after.timeout.nanos == now.nanos + timeout.nanos
            &&& event matches Some(e) && e@ == EventView::PacketReceived(
                AddressView::Serial(before.port),
                p,
                now,
            )
        },
        None => after.timeout == before.timeout && event is None,
    }
}

/// What to do with the ports when the time for discovery has come.
#[derive(Clone, Copy, Debug, PartialEq, Eq, Structural)]
pub enum DiscoveryStep {
    /// Ask all new ports whether a robot is attached.
    Start,
    /// Read the answers.
    End,
}

/// What becomes of a port that was asked.
#[derive(Debug)]
pub enum DiscoveryResult {
    /// A robot is connected.
    Connected(TransceiverEvent),
    /// The port is not wanted.
    Rejected,
    /// The port did not answer with text.
    Garbled,
    /// The answer could not be read.
    Unreadable(TransceiverEvent),
}

/// The text of a failure to read from a port.
pub open spec fn read_error_text(port_name: Seq<char>, source: Seq<char>) -> Seq<char> {
    "Unexpected serial read error on port "@ + port_name + ": "@ + source
}

/// Reports a failure to read from a port.
fn read_error(port: &SerialPortInfo, source: String) -> (event: TransceiverEvent)
    ensures
        event@ == EventView::Error(read_error_text(port@.port_name, source@)),
{
    let mut msg: String = "Unexpected serial read error on port ".to_owned();
    msg.append(port.port_name.as_str());
    TransceiverEvent::Error(TransceiverError { msg, source: Some(source) })
}

/// Finds robots on serial ports and exchanges packets with them.
#[derive(Debug)]
pub struct SerialTransceiver {
    active_connections: InternedDualMap<usize, String, SerialConnectionState>,
    discovery_active: bool,
    next_discovery_time: Instant,
    next_conn_timeout: Option<Instant>,
    id_filter: RobotIdFilter,
    timeout: Duration,
    config: SerialTransceiverConfig,
    packet_size: usize,
}

/// Whether `t` is the closest timeout of all connections.
pub open spec fn is_closest(conns: Map<usize, ConnectionView>, t: Option<Instant>) -> bool {
    match t {
        Some(t) => {
            &&& exists|k: usize| #[trigger] conns.contains_key(k) && conns[k].timeout == t
            &&& forall|k: usize| #[trigger]
                conns.contains_key(k) ==> t.nanos <= conns[k].timeout.nanos
        },
        None => forall|k: usize| !conns.contains_key(k),
    }
}

/// The connections that have not timed out.
pub open spec fn unexpired(conns: Map<usize, ConnectionView>, now: Instant) -> Map<
    usize,
    ConnectionView,
> {
    conns.restrict(conns.dom().filter(|k: usize| conns[k].timeout.nanos >= now.nanos))
}

/// Whether `events` report exactly the connections that have timed out, each of them once.
pub open spec fn reports_expired(
    conns: Map<usize, ConnectionView>,
    now: Instant,
    events: Seq<TransceiverEvent>,
) -> bool {
    exists|tokens: Seq<usize>| #[trigger]
        tokens.no_duplicates() && tokens.to_set() =~= conns.dom().difference(
            unexpired(conns, now).dom(),
        ) && tokens.len() == events.len() && forall|i: int|
            0 <= i < tokens.len() ==> (#[trigger] events[i])@ == EventView::Disconnected(
                AddressView::Serial(conns[tokens[i]].port),
            )
}

/// The connections after one more was made. A port has at most one connection.
pub open spec fn connected(
    conns: Map<usize, ConnectionView>,
    token: usize,
    conn: ConnectionView,
) -> Map<usize, ConnectionView> {
    conns.restrict(
        conns.dom().filter(|k: usize| conns[k].port.port_name != conn.port.port_name),
    ).insert(token, conn)
}

/// What is written for a packet: the token of the port of its robot, and the bytes.
pub open spec fn writes(
    conns: Map<usize, ConnectionView>,
    addr: AddressView,
    packet: Seq<u8>,
    r: Option<(usize, Vec<u8>)>,
) -> bool {
    match r {
        Some((token, bytes)) => {
            &&& addr matches AddressView::Serial(port)
            &&& conns.contains_key(token)
            &&& conns[token].port.port_name == port.port_name
            &&& bytes@ == framed(packet)
        },
        None => addr matches AddressView::Serial(port) ==> forall|k: usize| #[trigger]
            conns.contains_key(k) ==> conns[k].port.port_name != port.port_name,
    }
}

/// The earlier of a cached timeout and a new one.
pub open spec fn earliest(cached: Option<Instant>, t: Instant) -> Instant {
    match cached {
        Some(c) => if c.nanos <= t.nanos {
            c
        } else {
            t
        },
        None => t,
    }
}

impl SerialTransceiver {
    /// The active connections, by their tokens.
    pub closed spec fn conns(&self) -> Map<usize, ConnectionView> {
        Map::new(
            |k: usize| self.active_connections@.contains_key(k),
            |k: usize| self.active_connections@[k].1@,
        )
    }

    /// Whether ports were asked and have not yet been heard.
    pub closed spec fn discovery_active(&self) -> bool {
        self.discovery_active
    }

    pub closed spec fn discovery_time(&self) -> Instant {
        self.next_discovery_time
    }

    /// The cached closest timeout of the connections.
    pub closed spec fn conn_timeout(&self) -> Option<Instant> {
        self.next_conn_timeout
    }

    pub closed spec fn id_filter(&self) -> RobotIdFilter {
        self.id_filter
    }

    /// After which time a silent robot counts as disconnected.
    pub closed spec fn timeout(&self) -> Duration {
        self.timeout
    }

    pub closed spec fn config(&self) -> SerialTransceiverConfig {
        self.config
    }

    pub closed spec fn packet_size(&self) -> usize {
        self.packet_size
    }

    pub closed spec fn wf(&self) -> bool {
        &&& self.packet_size + 2 <= isize::MAX
        &&& self.active_connections.wf()
        &&& forall|k: usize| #[trigger]
            self.active_connections@.contains_key(k) ==> {
                &&& self.active_connections@[k].1.wf()
                &&& self.active_connections@[k].1.frame_size() == self.packet_size + 2
                &&& self.active_connections@[k].0 == self.active_connections@[k].1@.port.port_name
            }
    }

    /// Whether the cached timeout does not lie behind that of any connection but `token`.
    pub open spec fn cached_except(&self, token: Option<usize>) -> bool {
        forall|k: usize| #[trigger]
            self.conns().contains_key(k) && Some(k) != token ==> (self.conn_timeout() matches Some(t)
                && t.nanos <= self.conns()[k].timeout.nanos)
    }

    /// Whether the cached timeout does not lie behind that of any connection.
    pub open spec fn timeouts_cached(&self) -> bool {
        self.cached_except(None)
    }

    /// Whether another transceiver is set up in the same way.
    pub open spec fn same_setup(&self, other: &SerialTransceiver) -> bool {
        &&& self.id_filter() == other.id_filter()
        &&& self.timeout() == other.timeout()
        &&& self.config() == other.config()
        &&& self.packet_size() == other.packet_size()
    }

    pub open spec fn same_discovery(&self, other: &SerialTransceiver) -> bool {
        &&& self.discovery_active() == other.discovery_active()
        &&& self.discovery_time() == other.discovery_time()
    }

    /// No port has two connections.
    pub proof fn law_one_connection_per_port(&self)
        requires
            self.wf(),
        ensures
            forall|a: usize, b: usize|
                self.conns().contains_key(a) && self.conns().contains_key(b) && (
                #[trigger] self.conns()[a]).port.port_name == (
                #[trigger] self.conns()[b]).port.port_name ==> a == b,
    {
        self.active_connections.law_secondary_keys_are_unique();
    }

    /// A robot that has timed out is forgotten: no connection to its port is left.
    pub proof fn law_silent_robots_are_forgotten(&self, token: usize, now: Instant)
        requires
            self.wf(),
            self.conns().contains_key(token),
            self.conns()[token].timeout.nanos < now.nanos,
        ensures
            forall|k: usize| #[trigger]
                unexpired(self.conns(), now).contains_key(k) ==> self.conns()[k].port.port_name
                    != self.conns()[token].port.port_name,
    {
        self.law_one_connection_per_port();
    }

    /// Starts without any connection, and with discovery as soon as possible.
    pub fn start(packet_size: usize, config: SerialTransceiverConfig, now: Instant) -> (t: Self)
        requires
            packet_size + 2 <= isize::MAX,
        ensures
            t.wf(),
            t.timeouts_cached(),
            t.conns() == Map::<usize, ConnectionView>::empty(),
            !t.discovery_active(),
            t.discovery_time() == now,
            t.conn_timeout() is None,
            forall|id: u8| t.id_filter().accepts(id),
            t.timeout().nanos == 1_000_000_000,
            t.config() == config,
            t.packet_size() == packet_size,
    {
        let t = SerialTransceiver {
            active_connections: InternedDualMap::new(),
            discovery_active: false,
            next_discovery_time: now,
            next_conn_timeout: None,
            id_filter: RobotIdFilter::default(),
            timeout: Duration::from_secs(DEFAULT_TIMEOUT_SECS),
            config,
            packet_size,
        };
        proof {
            assert(t.conns() =~= Map::<usize, ConnectionView>::empty());
        }
        t
    }

    pub fn set_timeout(&mut self, timeout: Duration)
        requires
            old(self).wf(),
        ensures
            final(self).wf(),
            final(self).timeout() == timeout,
            final(self).id_filter() == old(self).id_filter(),
            final(self).config() == old(self).config(),
            final(self).packet_size() == old(self).packet_size(),
            final(self).same_discovery(old(self)),
            final(self).conns() == old(self).conns(),
            final(self).conn_timeout() == old(self).conn_timeout(),
    {
        self.timeout = timeout;
    }

    /// Decides what has to be written for a packet: the port and the bytes. There is nothing to do
    /// for addresses of other transceivers and for robots that are not connected.
    pub fn send_packet(&mut self, addr: &RobotTransceiverAddress, packet: &[u8]) -> (r: Option<
        (usize, Vec<u8>),
    >)
        requires
            old(self).wf(),
            encodable(packet@.len() + 1),
        ensures
            final(self).wf(),
            final(self).conns() == old(self).conns(),
            final(self).conn_timeout() == old(self).conn_timeout(),
            final(self).same_setup(old(self)),
            final(self).same_discovery(old(self)),
            writes(old(self).conns(), addr@, packet@, r),
    {
        match addr {
            RobotTransceiverAddress::Serial(port_info) => {
                match self.active_connections.get_sec_mut(&port_info.port_name) {
                    Some((token, _state)) => {
                        let token: usize = *token;
                        proof {
                            assert(paired(
                                old(self).active_connections@,
                                token,
                                port_info.port_name@,
                            ));
                            assert(self.active_connections@ =~= old(self).active_connections@);
                        }
                        Some((token, frame(packet)))
                    },
                    None => {
                        proof {
                            assert forall|k: usize| #[trigger]
                                old(self).conns().contains_key(k) implies old(
                                self,
                            ).conns()[k].port.port_name != port_info.port_name@ by {
                                assert(!paired(
                                    old(self).active_connections@,
                                    k,
                                    port_info.port_name@,
                                ));
                            }
                        }
                        None
                    },
                }
            },
            RobotTransceiverAddress::Udp(_) => None,
            RobotTransceiverAddress::Test(_) => None,
        }
    }

    /// The decision on discovery.
    pub open spec fn discovery_decided(
        before: SerialTransceiver,
        now: Instant,
        step: Option<DiscoveryStep>,
        after: SerialTransceiver,
    ) -> bool {
        &&& after.conns() == before.conns()
        &&& after.conn_timeout() == before.conn_timeout()
        &&& after.same_setup(&before)
        &&& if before.discovery_time().nanos < now.nanos {
            &&& after.discovery_active() == !before.discovery_active()
            &&& step == Some(
                if before.discovery_active() {
                    DiscoveryStep::End
                } else {
                    DiscoveryStep::Start
                },
            )
            &&& after.discovery_time().nanos == before.discovery_time().nanos + (
            if !before.discovery_active() {
                500_000_000
            } else if before.config().probe_period.nanos >= 500_000_000 {
                before.config().probe_period.nanos - 500_000_000
            } else {
                0
            })
        } else {
            step is None && after.same_discovery(&before)
        }
    }

    /// Decides whether it is time for discovery, and for which part of it.
    pub fn discovery_step(&mut self, now: Instant) -> (step: Option<DiscoveryStep>)
        requires
            old(self).wf(),
            old(self).discovery_time().nanos + old(self).config().probe_period.nanos <= u64::MAX,
            old(self).discovery_time().nanos + 500_000_000 <= u64::MAX,
        ensures
            final(self).wf(),
            Self::discovery_decided(*old(self), now, step, *final(self)),
    {
        if self.next_discovery_time.nanos < now.nanos {
            let listening: Duration = Duration::from_millis(DISCOVERY_MILLIS);
            if self.discovery_active {
                self.discovery_active = false;
                let pause: Duration = self.config.probe_period.saturating_sub(listening);
                self.next_discovery_time = self.next_discovery_time.plus(pause);
                Some(DiscoveryStep::End)
            } else {
                self.discovery_active = true;
                self.next_discovery_time = self.next_discovery_time.plus(listening);
                Some(DiscoveryStep::Start)
            }
        } else {
            None
        }
    }

    /// Whether to ask a port for a robot: if one could be attached, and none is connected already.
    pub fn is_candidate(&self, port: &SerialPortInfo) -> (b: bool)
        requires
            self.wf(),
        ensures
            b == (plausible(port@.port_type) && forall|k: usize| #[trigger]
                self.conns().contains_key(k) ==> self.conns()[k].port.port_name
                    != port@.port_name),
    {
        let active: bool = self.active_connections.contains_sec(&port.port_name);
        proof {
            let name = port.port_name@;
            if active {
                let k = choose|k: usize| paired(self.active_connections@, k, name);
                assert(self.conns().contains_key(k));
                assert(self.conns()[k].port.port_name == name);
            } else {
                assert forall|k: usize| #[trigger] self.conns().contains_key(k) implies self.conns()[
                k].port.port_name != name by {
                    assert(!paired(self.active_connections@, k, name));
                }
            }
        }
        is_plausible(port) && !active
    }

    /// Whether a port belongs to a connected robot.
    pub fn is_active(&self, token: usize) -> (b: bool)
        requires
            self.wf(),
        ensures
            b == self.conns().contains_key(token),
    {
        self.active_connections.contains_prim(&token)
    }

    /// What becomes of a port that was asked. An answer that cannot be read is reported, and changes
    /// nothing.
    pub open spec fn heard(
        before: SerialTransceiver,
        token: usize,
        port: PortView,
        answer: Result<Seq<u8>, Seq<char>>,
        now: Instant,
        r: DiscoveryResult,
        after: SerialTransceiver,
    ) -> bool {
        &&& after.same_setup(&before)
        &&& after.same_discovery(&before)
        &&& before.timeouts_cached() ==> after.timeouts_cached()
        &&& match answer {
            Ok(response) => {
                &&& r !is Unreadable
                &&& (r is Garbled) == !vstd::utf8::valid_utf8(response)
                &&& r !is Garbled ==> ((r is Connected) == (reported_id(response) matches Some(id)
                    && before.id_filter().accepts(id as u8)))
                &&& r matches DiscoveryResult::Connected(event) ==> {
                    let until = Instant { nanos: (now.nanos + before.timeout().nanos) as u64 };
                    &&& event@ == EventView::Connected(
                        AddressView::Serial(port),
                        reported_id(response)->0 as u8,
                    )
                    &&& after.conns() == connected(
                        before.conns(),
                        token,
                        ConnectionView { port, buffered: Seq::empty(), timeout: until },
                    )
                    &&& after.conn_timeout() == Some(earliest(before.conn_timeout(), until))
                }
            },
            Err(source) => {
                &&& r matches DiscoveryResult::Unreadable(event)
                &&& event@ == EventView::Error(read_error_text(port.port_name, source))
            },
        }
        &&& r !is Connected ==> {
            &&& after.conns() == before.conns()
            &&& after.conn_timeout() == before.conn_timeout()
        }
    }

    /// Accepts or rejects a port by what it has answered, or reports that its answer could not be
    /// read.
    pub fn end_discovery(
        &mut self,
        token: usize,
        port_info: SerialPortInfo,
        answer: Result<&[u8], String>,
        now: Instant,
    ) -> (r: DiscoveryResult)
        requires
            old(self).wf(),
            now.nanos + old(self).timeout().nanos <= u64::MAX,
        ensures
            final(self).wf(),
            Self::heard(
                *old(self),
                token,
                port_info@,
                match answer {
                    Ok(response) => Ok(response@),
                    Err(source) => Err(source@),
                },
                now,
                r,
                *final(self),
            ),
    {
        let response: &[u8] = match answer {
            Ok(response) => response,
            Err(source) => {
                return DiscoveryResult::Unreadable(read_error(&port_info, source));
            },
        };
        let robot_id: u8 = match parse_response(response) {
            Response::Robot(id) => id,
            Response::Unrelated => {
                return DiscoveryResult::Rejected;
            },
            Response::Garbled => {
                return DiscoveryResult::Garbled;
            },
        };
        if !self.id_filter.apply(robot_id) {
            return DiscoveryResult::Rejected;
        }
        let timeout: Instant = now.plus(self.timeout);
        let state = SerialConnectionState {
            port_info: port_info.clone(),
            rx_buf: ReceiveBuffer::new(self.packet_size),
            timeout,
        };
        let ghost conn = state@;
        self.next_conn_timeout = Some(
            match self.next_conn_timeout {
                Some(t) => t.earlier(timeout),
                None => timeout,
            },
        );
        self.active_connections.insert(token, port_info.port_name.clone(), state);
        proof {
            assert(self.conns() =~= connected(old(self).conns(), token, conn)) by {
                assert forall|k: usize| old(self).conns().contains_key(k) implies old(
                    self,
                ).active_connections@[k].0 == old(self).conns()[k].port.port_name by {}
            }
            assert forall|k: usize| #[trigger] self.active_connections@.contains_key(k) implies {
                &&& self.active_connections@[k].1.wf()
                &&& self.active_connections@[k].1.frame_size() == self.packet_size + 2
                &&& self.active_connections@[k].0 == self.active_connections@[k].1@.port.port_name
            } by {
                if k != token {
                    assert(old(self).active_connections@.contains_key(k));
                }
            }
            if old(self).timeouts_cached() {
                assert forall|k: usize| #[trigger] self.conns().contains_key(k) implies (
                self.conn_timeout() matches Some(t) && t.nanos <= self.conns()[k].timeout.nanos) by {
                    if k != token {
                        assert(old(self).conns().contains_key(k));
                    }
                }
            }
        }
        DiscoveryResult::Connected(
            TransceiverEvent::Connected(RobotTransceiverAddress::Serial(port_info), robot_id),
        )
    }

    /// How many bytes can be read next from a port. Nothing is read from ports without a connected
    /// robot.
    pub fn room(&self, token: usize) -> (n: Option<usize>)
        requires
            self.wf(),
        ensures
            match n {
                Some(n) => self.conns().contains_key(token) && n == self.packet_size() + 2
                    - self.conns()[token].buffered.len(),
                None => !self.conns().contains_key(token),
            },
    {
        match self.active_connections.get_prim(&token) {
            Some((_port_name, conn)) => Some(conn.rx_buf.room()),
            None => None,
        }
    }

    /// The effect of bytes that were read from a port.
    pub open spec fn received(
        before: SerialTransceiver,
        token: usize,
        chunk: Seq<u8>,
        now: Instant,
        event: Option<TransceiverEvent>,
        after: SerialTransceiver,
    ) -> bool {
        &&& after.same_setup(&before)
        &&& after.same_discovery(&before)
        &&& after.conn_timeout() == before.conn_timeout()
        &&& if before.conns().contains_key(token) {
            &&& after.conns().contains_key(token)
            &&& receives(
                before.conns()[token],
                chunk,
                (before.packet_size() + 2) as nat,
                before.timeout(),
                now,
                event,
                after.conns()[token],
            )
            &&& after.conns() == before.conns().insert(token, after.conns()[token])
        } else {
            event is None && after.conns() == before.conns()
        }
    }

    /// Takes bytes that were read from a port.
    pub fn receive(&mut self, token: usize, chunk: &[u8], now: Instant) -> (event: Option<
        TransceiverEvent,
    >)
        requires
            old(self).wf(),
            old(self).conns().contains_key(token) ==> old(self).conns()[token].buffered.len()
                + chunk@.len() <= old(self).packet_size() + 2,
            now.nanos + old(self).timeout().nanos <= u64::MAX,
        ensures
            final(self).wf(),
            Self::received(*old(self), token, chunk@, now, event, *final(self)),
            old(self).cached_except(Some(token)) ==> final(self).cached_except(Some(token)),
    {
        let timeout: Duration = self.timeout;
        let event: Option<TransceiverEvent> = match self.active_connections.get_prim_mut(&token) {
            Some((_port_name, conn)) => conn.receive(chunk, timeout, now),
            None => None,
        };
        proof {
            if old(self).conns().contains_key(token) {
                assert(self.conns() =~= old(self).conns().insert(token, self.conns()[token]));
            } else {
                assert(self.conns() =~= old(self).conns());
            }
            assert forall|k: usize| #[trigger] self.active_connections@.contains_key(k) implies {
                &&& self.active_connections@[k].1.wf()
                &&& self.active_connections@[k].1.frame_size() == self.packet_size + 2
                &&& self.active_connections@[k].0 == self.active_connections@[k].1@.port.port_name
            } by {
                assert(old(self).active_connections@.contains_key(k));
            }
            assert forall|k: usize| #[trigger] self.conns().contains_key(k) && Some(k) != Some(token)
                && old(self).cached_except(Some(token)) implies (self.conn_timeout() matches Some(t)
                && t.nanos <= self.conns()[k].timeout.nanos) by {
                assert(old(self).conns().contains_key(k));
            }
        }
        event
    }

    /// Reports a failure to read from a port with a connected robot.
    pub fn read_failed(&self, token: usize, source: String) -> (event: Option<TransceiverEvent>)
        requires
            self.wf(),
        ensures
            match event {
                Some(event) => self.conns().contains_key(token) && event@ == EventView::Error(
                    read_error_text(self.conns()[token].port.port_name, source@),
                ),
                None => !self.conns().contains_key(token),
            },
    {
        match self.active_connections.get_prim(&token) {
            Some((_port_name, conn)) => Some(read_error(&conn.port_info, source)),
            None => None,
        }
    }

    /// The effect of the end of reading from a port.
    pub open spec fn receive_ended(
        before: SerialTransceiver,
        token: usize,
        after: SerialTransceiver,
    ) -> bool {
        &&& after.same_setup(&before)
        &&& after.same_discovery(&before)
        &&& after.conns() == before.conns()
        &&& after.conn_timeout() == (match before.conn_timeout() {
            Some(t) => if before.conns().contains_key(token) {
                Some(earliest(Some(t), before.conns()[token].timeout))
            } else {
                Some(t)
            },
            None => None,
        })
    }

    /// Notices the timeout of a port after everything was read from it.
    pub fn end_receive(&mut self, token: usize)
        requires
            old(self).wf(),
        ensures
            final(self).wf(),
            Self::receive_ended(*old(self), token, *final(self)),
            old(self).cached_except(Some(token)) && old(self).conn_timeout() is Some ==> final(self).timeouts_cached(),
    {
        if let Some((_port_name, conn)) = self.active_connections.get_prim(&token) {
            if let Some(cached) = self.next_conn_timeout {
                self.next_conn_timeout = Some(cached.earlier(conn.timeout));
            }
        }
        proof {
            assert forall|k: usize| #[trigger] self.conns().contains_key(k) && old(
                self,
            ).cached_except(Some(token)) && old(self).conn_timeout() is Some implies (
            self.conn_timeout() matches Some(t) && t.nanos <= self.conns()[k].timeout.nanos) by {
                assert(old(self).conns().contains_key(k));
            }
        }
    }

    /// The effect of dropping the connections that have timed out.
    pub open spec fn expired(
        before: SerialTransceiver,
        now: Instant,
        events: Seq<TransceiverEvent>,
        after: SerialTransceiver,
    ) -> bool {
        &&& after.same_setup(&before)
        &&& after.same_discovery(&before)
        &&& if before.conn_timeout() is Some && before.conn_timeout()->0.nanos < now.nanos {
            &&& after.conns() == unexpired(before.conns(), now)
            &&& reports_expired(before.conns(), now, events)
            &&& is_closest(after.conns(), after.conn_timeout())
        } else {
            &&& after.conns() == before.conns()
            &&& events.len() == 0
            &&& after.conn_timeout() == before.conn_timeout()
        }
        &&& before.timeouts_cached() ==> {
            &&& after.timeouts_cached()
            &&& after.conns() == unexpired(before.conns(), now)
            &&& reports_expired(before.conns(), now, events)
        }
    }

    /// Drops the connections that have timed out. As long as timeouts are cached, no one is missed.
    pub fn expire(&mut self, now: Instant) -> (events: Vec<TransceiverEvent>)
        requires
            old(self).wf(),
        ensures
            final(self).wf(),
            Self::expired(*old(self), now, events@, *final(self)),
    {
        let due: bool = match self.next_conn_timeout {
            Some(t) => t.nanos < now.nanos,
            None => false,
        };
        let mut events: Vec<TransceiverEvent> = Vec::new();
        if !due {
            proof {
                if self.timeouts_cached() {
                    let conns = self.conns();
                    assert(unexpired(conns, now) =~= conns);
                    let none = Seq::<usize>::empty();
                    assert(none.no_duplicates());
                    assert(none.to_set() =~= conns.dom().difference(unexpired(conns, now).dom()));
                }
            }
            return events;
        }
        let tokens: Vec<usize> = self.active_connections.prim_keys();
        let mut closest: Option<Instant> = None;
        let ghost conns = old(self).conns();
        let ghost mut gone: Seq<usize> = Seq::empty();
        let ghost mut first: usize = 0;
        let mut i: usize = 0;
        proof {
            assert(self.active_connections@.dom() =~= conns.dom());
        }
        while i < tokens.len()
            invariant
                i <= tokens@.len(),
                conns == old(self).conns(),
                tokens@.no_duplicates(),
                tokens@.to_set() == conns.dom(),
                self.wf(),
                self.same_setup(old(self)),
                self.same_discovery(old(self)),
                self.conns() == conns.restrict(conns.dom().difference(gone.to_set())),
                gone.no_duplicates(),
                gone.len() == events@.len(),
                forall|k: int|
                    0 <= k < gone.len() ==> (#[trigger] events@[k])@ == EventView::Disconnected(
                        AddressView::Serial(conns[gone[k]].port),
                    ),
                forall|t: usize| #[trigger]
                    gone.contains(t) <==> tokens@.take(i as int).contains(t)
                        && conns[t].timeout.nanos < now.nanos,
                match closest {
                    Some(c) => {
                        &&& tokens@.take(i as int).contains(first)
                        &&& !gone.contains(first)
                        &&& conns[first].timeout == c
                        &&& forall|t: usize| #[trigger]
                            tokens@.take(i as int).contains(t) && !gone.contains(t) ==> c.nanos
                                <= conns[t].timeout.nanos
                    },
                    None => forall|t: usize| #[trigger]
                        tokens@.take(i as int).contains(t) ==> gone.contains(t),
                },
            decreases tokens@.len() - i,
        {
            let token: usize = tokens[i];
            let ghost before = tokens@.take(i as int);
            let ghost after = tokens@.take(i + 1);
            proof {
                assert(after =~= before.push(token));
                assert(tokens@.to_set().contains(token));
                assert(!before.contains(token)) by {
                    if before.contains(token) {
                        let k = choose|k: int| 0 <= k < before.len() && before[k] == token;
                        assert(tokens@[k] == tokens@[i as int]);
                    }
                }
                assert forall|t: usize| #[trigger] after.contains(t) <==> before.contains(t) || t
                    == token by {
                    if before.contains(t) {
                        let k = choose|k: int| 0 <= k < before.len() && before[k] == t;
                        assert(after[k] == t);
                    }
                    if t == token {
                        assert(after[i as int] == t);
                    }
                    if after.contains(t) && t != token {
                        let k = choose|k: int| 0 <= k < after.len() && after[k] == t;
                        assert(before[k] == t);
                    }
                }
                assert(!gone.contains(token));
                assert(self.conns().contains_key(token));
            }
            match self.active_connections.get_prim(&token) {
                Some((_port_name, conn)) => {
                    proof {
                        assert(conn@ == self.conns()[token]);
                        assert(self.conns()[token] == conns[token]);
                    }
                    if conn.timeout.nanos < now.nanos {
                        let addr = RobotTransceiverAddress::Serial(conn.port_info.clone());
                        events.push(TransceiverEvent::Disconnected(addr));
                        let ghost kept = self.conns();
                        self.active_connections.remove_prim(&token);
                        proof {
                            let old_gone = gone;
                            gone = gone.push(token);
                            assert(gone.drop_last() =~= old_gone);
                            assert forall|t: usize| #[trigger] gone.contains(t) <==>
                                old_gone.contains(t) || t == token by {
                                if old_gone.contains(t) {
                                    let k = choose|k: int|
                                        0 <= k < old_gone.len() && old_gone[k] == t;
                                    assert(gone[k] == t);
                                }
                                if t == token {
                                    assert(gone[old_gone.len() as int] == t);
                                }
                            }
                            assert(self.conns() =~= kept.remove(token));
                            assert forall|t: usize| gone.to_set().contains(t) <==> gone.contains(
                                t,
                            ) by {}
                            assert(self.conns() =~= conns.restrict(
                                conns.dom().difference(gone.to_set()),
                            ));
                        }
                    } else {
                        let ghost before_closest = closest;
                        closest = Some(
                            match closest {
                                Some(c) => c.earlier(conn.timeout),
                                None => conn.timeout,
                            },
                        );
                        proof {
                            assert(after.contains(token));
                            if closest != before_closest {
                                first = token;
                            }
                        }
                    }
                },
                None => {},
            }
            i = i + 1;
        }
        self.next_conn_timeout = closest;
        proof {
            assert(tokens@.take(i as int) =~= tokens@);
            assert forall|t: usize| tokens@.contains(t) <==> conns.contains_key(t) by {
                assert(tokens@.to_set().contains(t) <==> conns.dom().contains(t));
            }
            assert(self.conns() =~= unexpired(conns, now));
            assert(gone.to_set() =~= conns.dom().difference(unexpired(conns, now).dom()));
            assert(gone.no_duplicates());
            match closest {
                Some(c) => {
                    assert(self.conns().contains_key(first));
                    assert(self.conns()[first].timeout == c);
                },
                None => {},
            }
            assert(is_closest(self.conns(), self.conn_timeout()));
        }
        events
    }
}

impl Transceiver for SerialTransceiver {
    open spec fn valid(&self) -> bool {
        self.wf()
    }

    open spec fn filter(&self) -> RobotIdFilter {
        self.id_filter()
    }

    open spec fn deadline(&self) -> Instant {
        earliest(self.conn_timeout(), self.discovery_time())
    }

    fn set_id_filter(&mut self, id_filter: RobotIdFilter)
        ensures
            final(self).timeout() == old(self).timeout(),
            final(self).config() == old(self).config(),
            final(self).packet_size() == old(self).packet_size(),
            final(self).same_discovery(old(self)),
            final(self).conns() == old(self).conns(),
            final(self).conn_timeout() == old(self).conn_timeout(),
    {
        self.id_filter = id_filter;
    }

    fn next_timeout(&self) -> (t: Instant) {
        match self.next_conn_timeout {
            Some(t) => t.earlier(self.next_discovery_time),
            None => self.next_discovery_time,
        }
    }
}

/// Ports are heard one by one, and what becomes of one depends on its own answer alone: a port whose
/// answer could not be read is reported once, and the ports after it are still heard.
pub proof fn law_every_port_is_heard(
    states: Seq<SerialTransceiver>,
    ports: Seq<(usize, PortView)>,
    answers: Seq<Result<Seq<u8>, Seq<char>>>,
    times: Seq<Instant>,
    results: Seq<DiscoveryResult>,
    i: int,
)
    requires
        states.len() == ports.len() + 1,
        answers.len() == ports.len(),
        times.len() == ports.len(),
        results.len() == ports.len(),
        forall|k: int|
            0 <= k < ports.len() ==> SerialTransceiver::heard(
                states[k],
                (#[trigger] ports[k]).0,
                ports[k].1,
                answers[k],
                times[k],
                results[k],
                states[k + 1],
            ),
        0 <= i < ports.len(),
    ensures
        states[i].same_setup(&states[0]),
        match answers[i] {
            Ok(response) => {
                &&& results[i] !is Unreadable
                &&& (results[i] is Garbled) == !vstd::utf8::valid_utf8(response)
                &&& (results[i] is Connected) == (vstd::utf8::valid_utf8(response) && (reported_id(
                    response,
                ) matches Some(id) && states[0].id_filter().accepts(id as u8)))
            },
            Err(source) => {
                &&& results[i] matches DiscoveryResult::Unreadable(event)
                &&& event@ == EventView::Error(read_error_text(ports[i].1.port_name, source))
                &&& states[i + 1].conns() == states[i].conns()
            },
        },
    decreases i,
{
    if i > 0 {
        law_every_port_is_heard(states, ports, answers, times, results, i - 1);
        let k = i - 1;
        assert(SerialTransceiver::heard(
            states[k],
            ports[k].0,
            ports[k].1,
            answers[k],
            times[k],
            results[k],
            states[k + 1],
        ));
    }
    assert(SerialTransceiver::heard(
        states[i],
        ports[i].0,
        ports[i].1,
        answers[i],
        times[i],
        results[i],
        states[i + 1],
    ));
}

// ======== Laws of the transceiver ========

/// The earlier of two times is one of them, and no later than either.
pub proof fn law_earliest(cached: Option<Instant>, t: Instant)
    ensures
        earliest(cached, t).nanos <= t.nanos,
        cached is Some ==> earliest(cached, t).nanos <= cached->0.nanos,
        earliest(cached, t) == t || Some(earliest(cached, t)) == cached,
{
}

/// A packet for a port is written to the port, if its robot is connected. For all other addresses
/// nothing is written.
pub proof fn law_writing(
    t: SerialTransceiver,
    addr: AddressView,
    packet: Seq<u8>,
    r: Option<(usize, Vec<u8>)>,
    token: usize,
)
    requires
        t.wf(),
        writes(t.conns(), addr, packet, r),
    ensures
        addr !is Serial ==> r is None,
        t.conns().contains_key(token) && addr is Serial && addr->Serial_0.port_name
            == t.conns()[token].port.port_name ==> r is Some && (r->0).0 == token && (r->0).1@
            == framed(packet),
        r is Some ==> t.conns().contains_key((r->0).0),
{
    t.law_one_connection_per_port();
    if t.conns().contains_key(token) && addr is Serial && addr->Serial_0.port_name
        == t.conns()[token].port.port_name {
        assert(r is Some);
        let other = (r->0).0;
        assert(t.conns()[other].port.port_name == t.conns()[token].port.port_name);
    }
}

/// Ports are asked and heard in turns. They have half a second to answer, and are asked again when the
/// probe period has passed since the last time, but never earlier than they were heard.
pub proof fn law_discovery_rhythm(
    before: SerialTransceiver,
    asked: Instant,
    first: Option<DiscoveryStep>,
    mid: SerialTransceiver,
    heard: Instant,
    second: Option<DiscoveryStep>,
    after: SerialTransceiver,
)
    requires
        SerialTransceiver::discovery_decided(before, asked, first, mid),
        SerialTransceiver::discovery_decided(mid, heard, second, after),
    ensures
        first is Some <==> asked.nanos > before.discovery_time().nanos,
        second is Some <==> heard.nanos > mid.discovery_time().nanos,
        first is Some ==> (first->0 is Start <==> !before.discovery_active()),
        first is None ==> mid.discovery_time() == before.discovery_time()
            && mid.discovery_active() == before.discovery_active(),
        first == Some(DiscoveryStep::Start) ==> mid.discovery_active()
            && mid.discovery_time().nanos - before.discovery_time().nanos == 500_000_000,
        first is Some && second is Some ==> first != second,
        first == Some(DiscoveryStep::Start) && second is Some ==> {
            let pause = after.discovery_time().nanos - before.discovery_time().nanos;
            &&& !after.discovery_active()
            &&& before.config().probe_period.nanos >= 500_000_000 ==> pause
                == before.config().probe_period.nanos
            &&& before.config().probe_period.nanos < 500_000_000 ==> pause == 500_000_000
        },
{
}

/// A port whose answer names a wanted robot is connected: it is announced, has the whole timeout to
/// send something, and is the only connection of the port. No other port is touched.
pub proof fn law_robot_connects(
    before: SerialTransceiver,
    token: usize,
    port: PortView,
    response: Seq<u8>,
    now: Instant,
    r: DiscoveryResult,
    after: SerialTransceiver,
    id: u8,
)
    requires
        now.nanos + before.timeout().nanos <= u64::MAX,
        vstd::utf8::valid_utf8(response),
        reported_id(response) == Some(id as nat),
        SerialTransceiver::heard(before, token, port, Ok(response), now, r, after),
    ensures
        before.id_filter().accepts(id) ==> {
            &&& r is Connected
            &&& r->Connected_0@ == EventView::Connected(AddressView::Serial(port), id)
            &&& after.conns().contains_key(token)
            &&& after.conns()[token].port == port
            &&& after.conns()[token].buffered.len() == 0
            &&& after.conns()[token].timeout.nanos == now.nanos + before.timeout().nanos
            &&& after.conn_timeout() is Some && after.conn_timeout()->0.nanos <= now.nanos
                + before.timeout().nanos
            &&& forall|k: usize| #[trigger]
                after.conns().contains_key(k) && k != token ==> {
                    &&& before.conns().contains_key(k)
                    &&& after.conns()[k] == before.conns()[k]
                    &&& after.conns()[k].port.port_name != port.port_name
                }
            &&& forall|k: usize| #[trigger]
                before.conns().contains_key(k) && before.conns()[k].port.port_name
                    != port.port_name ==> after.conns().contains_key(k)
        },
        !before.id_filter().accepts(id) ==> r is Rejected && after.conns() == before.conns(),
{
}

/// A complete frame is reported as its packet, with the port and the time, and puts off the timeout of
/// the connection. No other connection is touched.
pub proof fn law_packet_is_reported(
    before: SerialTransceiver,
    token: usize,
    chunk: Seq<u8>,
    now: Instant,
    event: Option<TransceiverEvent>,
    after: SerialTransceiver,
    packet: Seq<u8>,
)
    requires
        now.nanos + before.timeout().nanos <= u64::MAX,
        before.conns().contains_key(token),
        SerialTransceiver::received(before, token, chunk, now, event, after),
        carries_packet(before.conns()[token].buffered + chunk, packet),
        packet.len() == before.packet_size(),
        before.conns()[token].buffered.len() + chunk.len() == before.packet_size() + 2,
    ensures
        event is Some,
        event->0@ == EventView::PacketReceived(
            AddressView::Serial(before.conns()[token].port),
            packet,
            now,
        ),
        after.conns()[token].timeout.nanos == now.nanos + before.timeout().nanos,
        after.conns()[token].buffered.len() == 0,
        after.conns().dom() == before.conns().dom(),
        forall|k: usize| #[trigger]
            before.conns().contains_key(k) && k != token ==> after.conns()[k] == before.conns()[k],
{
    let buffered = before.conns()[token].buffered;
    let body = buffered + chunk;
    assert(!chunk.contains(0)) by {
        if chunk.contains(0) {
            let k = choose|k: int| 0 <= k < chunk.len() && chunk[k] == 0;
            assert(body[buffered.len() + k] == 0);
        }
    }
    law_frame_holds_packet(body, packet);
    let data = cobs_decoded(body)->0;
    law_packet_of_frame(buffered, chunk, (before.packet_size() + 2) as nat, data);
    assert(data.drop_last() =~= packet) by {
        assert(data.take(packet.len() as int) == packet);
    }
    assert(after.conns().dom() =~= before.conns().dom());
}

/// A robot is reported as disconnected, and forgotten, as soon as its timeout has passed, and not
/// before.
pub proof fn law_silence(
    before: SerialTransceiver,
    now: Instant,
    events: Seq<TransceiverEvent>,
    after: SerialTransceiver,
    token: usize,
)
    requires
        before.wf(),
        before.timeouts_cached(),
        SerialTransceiver::expired(before, now, events, after),
        before.conns().contains_key(token),
    ensures
        now.nanos <= before.conns()[token].timeout.nanos ==> {
            &&& after.conns().contains_key(token)
            &&& after.conns()[token] == before.conns()[token]
            &&& forall|i: int|
                0 <= i < events.len() ==> (#[trigger] events[i])@ != EventView::Disconnected(
                    AddressView::Serial(before.conns()[token].port),
                )
        },
        now.nanos > before.conns()[token].timeout.nanos ==> {
            &&& !after.conns().contains_key(token)
            &&& exists|i: int|
                0 <= i < events.len() && (#[trigger] events[i])@ == EventView::Disconnected(
                    AddressView::Serial(before.conns()[token].port),
                )
        },
        forall|i: int, j: int|
            0 <= i < j < events.len() ==> (#[trigger] events[i])@ != (#[trigger] events[j])@,
{
    let conns = before.conns();
    let gone = conns.dom().difference(unexpired(conns, now).dom());
    let tokens = choose|tokens: Seq<usize>| #[trigger]
        tokens.no_duplicates() && tokens.to_set() =~= gone && tokens.len() == events.len() && forall|
            i: int,
        |
            0 <= i < tokens.len() ==> (#[trigger] events[i])@ == EventView::Disconnected(
                AddressView::Serial(conns[tokens[i]].port),
            );
    before.law_one_connection_per_port();
    assert(gone.contains(token) <==> now.nanos > conns[token].timeout.nanos);
    assert(tokens.to_set().contains(token) <==> tokens.contains(token));
    if tokens.contains(token) {
        let k = choose|k: int| 0 <= k < tokens.len() && tokens[k] == token;
        assert(events[k]@ == EventView::Disconnected(AddressView::Serial(conns[token].port)));
    }
    assert forall|i: int| 0 <= i < events.len() implies gone.contains(tokens[i]) && (
    #[trigger] events[i])@ == EventView::Disconnected(
        AddressView::Serial(conns[tokens[i]].port),
    ) by {
        assert(tokens.contains(tokens[i]));
        assert(tokens.to_set().contains(tokens[i]));
    }
    assert forall|i: int| 0 <= i < events.len() && now.nanos <= conns[token].timeout.nanos implies (
    #[trigger] events[i])@ != EventView::Disconnected(AddressView::Serial(conns[token].port)) by {
        assert(gone.contains(tokens[i]));
        assert(conns.contains_key(tokens[i]) && tokens[i] != token);
        assert(conns[tokens[i]].port.port_name != conns[token].port.port_name);
    }
    assert forall|i: int, j: int| 0 <= i < j < events.len() implies (#[trigger] events[i])@ != (
    #[trigger] events[j])@ by {
        assert(gone.contains(tokens[i]) && gone.contains(tokens[j]));
        assert(tokens[i] != tokens[j]);
        assert(conns[tokens[i]].port.port_name != conns[tokens[j]].port.port_name);
    }
}

/// After everything was read from a port, the transceiver wakes up no later than the timeout of its
/// connection, if it wakes up for connections at all.
pub proof fn law_timeout_is_noticed(before: SerialTransceiver, token: usize, after: SerialTransceiver)
    requires
        SerialTransceiver::receive_ended(before, token, after),
    ensures
        after.conns() == before.conns(),
        after.conn_timeout() is Some <==> before.conn_timeout() is Some,
        before.conn_timeout() is Some ==> {
            let woken = after.conn_timeout()->0;
            let planned = before.conn_timeout()->0;
            &&& woken.nanos <= planned.nanos
            &&& before.conns().contains_key(token) ==> woken.nanos
                <= before.conns()[token].timeout.nanos
            &&& woken == planned || (before.conns().contains_key(token) && woken
                == before.conns()[token].timeout)
        },
{
}

/// A port is asked if a robot could be attached to it and none is connected to it.
pub proof fn law_candidates(t: &SerialTransceiver, port: &SerialPortInfo, b: bool)
    requires
        t.wf(),
        call_ensures(SerialTransceiver::is_candidate, (t, port), b),
    ensures
        b ==> plausible(port@.port_type),
        forall|k: usize| #[trigger]
            t.conns().contains_key(k) && t.conns()[k].port.port_name == port@.port_name ==> !b,
        plausible(port@.port_type) && (forall|k: usize| #[trigger]
            t.conns().contains_key(k) ==> t.conns()[k].port.port_name != port@.port_name) ==> b,
{
}

/// As many bytes are read from a port as are missing of a frame: a packet, its checksum and one byte of
/// stuffing.
pub proof fn law_room(t: &SerialTransceiver, token: usize, n: Option<usize>)
    requires
        t.wf(),
        call_ensures(SerialTransceiver::room, (t, token), n),
    ensures
        n is Some <==> t.conns().contains_key(token),
        n is Some ==> t.conns()[token].buffered.len() + n->0 == t.packet_size() + 2,
{
}

/// A failure to read from a port is reported with the name of the port and the cause behind it.
pub proof fn law_read_error_text(port_name: Seq<char>, source: Seq<char>)
    ensures
        ({
            let text = read_error_text(port_name, source);
            let before = "Unexpected serial read error on port "@;
            let n = before.len() as int;
            let m = n + port_name.len();
            &&& text.len() == m + 2 + source.len()
            &&& text.take(n) == before
            &&& text.subrange(n, m) == port_name
            &&& text[m] == ':' && text[m + 1] == ' '
            &&& text.skip(m + 2) == source
        }),
{
    reveal_strlit(": ");
    let text = read_error_text(port_name, source);
    let before = "Unexpected serial read error on port "@;
    let n = before.len() as int;
    let m = n + port_name.len();
    assert(text.take(n) =~= before);
    assert(text.subrange(n, m) =~= port_name);
    assert(text.skip(m + 2) =~= source);
}

} // verus!
