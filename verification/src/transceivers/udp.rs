//! Robots in the local network.
//!
//! 1. The host repeatedly sends out empty beacon packets to a fixed multicast address on all
//!    interfaces. The router can convert them to individual unicast packets to each interested
//!    robot, so that the airtime scales with the number of waiting robots.
//! 2. Each robot that is ready to accept a connection subscribes to the multicast group and
//!    responds to all beacons with its robot id.
//! 3. The host sends a continuous command stream to every known robot on a set port.
//! 4. After the first command packet from a host that it has responded to, a robot unsubscribes
//!    from the multicast group and responds to incoming packets.
//!
//! Both sides have a fixed timeout before they assume a disconnection: hosts forget the connection
//! and stop sending command packets, robots resubscribe and wait for a new host.
//!
//! The transceiver decides what packets mean. The sockets are handled by its user.

use crate::driver::TokenAllocator;
use crate::id_filter::RobotIdFilter;
use crate::time::{Duration, Instant};
use crate::transceivers::address::{AddressView, RobotTransceiverAddress, SocketAddr};
use crate::transceivers::serial::{earliest, DEFAULT_TIMEOUT_SECS};
use crate::transceivers::timeouts::{is_closest_timeout, not_passed, TimeoutTable};
use crate::transceivers::{EventView, Transceiver, TransceiverEvent};
use vstd::prelude::*;

verus! {

/// The IPv4 address of the beacon multicast group, 239.0.0.1.
pub const BEACON_IP_V4: u32 = 0xEF00_0001;

/// The IPv6 address of the beacon multicast group: "ERForce" in hexadecimal and a protocol id.
pub const BEACON_IP_V6: u128 = 0xFF15_0000_0000_0045_5246_6F72_6365_0000;

pub const BEACON_PORT: u16 = 11000;

/// The port on which robots receive commands.
pub const DATA_PORT: u16 = 11001;

/// The ports that are tried for discovery. There are several of them so that several instances can
/// run on the same host.
pub const DISCOVERY_BIND_FIRST: u16 = 12000;

/// The ports that are tried for data.
pub const DATA_BIND_FIRST: u16 = 12010;

/// How many ports are tried.
pub const BIND_COUNT: u16 = 10;

// ======== Binding ========

/// Why no pair of sockets was bound.
#[derive(Debug)]
pub enum BindError<E> {
    /// The range of ports is empty.
    InvalidInput,
    /// No port could be bound, and this is why the last attempt failed.
    Failed(E),
}

/// What to do next to bind an IPv4 and an IPv6 socket to the same port.
#[derive(Debug)]
pub enum BindStep<A, B, E> {
    /// Bind an IPv4 socket to this port.
    BindV4(u16),
    /// Bind an IPv6 socket to this port, next to the IPv4 socket that was bound to it.
    BindV6(u16, A),
    /// Both sockets are bound to this port.
    Bound(u16, A, B),
    Failed(BindError<E>),
}

/// The first step for the ports `first .. end`.
pub open spec fn bind_start<A, B, E>(first: u16, end: u16) -> BindStep<A, B, E> {
    if first < end {
        BindStep::BindV4(first)
    } else {
        BindStep::Failed(BindError::InvalidInput)
    }
}

/// The step after a port before `end` could not be bound: the next port, or the end with this error.
pub open spec fn bind_failed<A, B, E>(end: u16, failed: u16, error: E) -> BindStep<A, B, E> {
    if failed + 1 < end {
        BindStep::BindV4((failed + 1) as u16)
    } else {
        BindStep::Failed(BindError::Failed(error))
    }
}

/// The step after an attempt to bind the IPv4 socket.
pub open spec fn tried_v4<A, B, E>(end: u16, port: u16, outcome: Result<A, E>) -> BindStep<A, B, E> {
    match outcome {
        Ok(v4) => BindStep::BindV6(port, v4),
        Err(e) => bind_failed(end, port, e),
    }
}

/// The step after an attempt to bind the IPv6 socket.
pub open spec fn tried_v6<A, B, E>(
    end: u16,
    port: u16,
    v4: A,
    outcome: Result<B, E>,
) -> BindStep<A, B, E> {
    match outcome {
        Ok(v6) => BindStep::Bound(port, v4, v6),
        Err(e) => bind_failed(end, port, e),
    }
}

/// Starts to bind sockets to one of the ports `first .. end`.
pub fn start_binding<A, B, E>(first: u16, end: u16) -> (step: BindStep<A, B, E>)
    ensures
        step == bind_start::<A, B, E>(first, end),
{
    if first < end {
        BindStep::BindV4(first)
    } else {
        BindStep::Failed(BindError::InvalidInput)
    }
}

/// The port to try after `failed` could not be bound, or the error if there is none left before
/// `end`.
pub fn after_bind_failure<E>(end: u16, failed: u16, error: E) -> (r: Result<u16, E>)
    requires
        failed < end,
    ensures
        match r {
            Ok(p) => p == failed + 1 && p < end,
            Err(e) => failed + 1 >= end && e == error,
        },
{
    if failed + 1 < end {
        Ok(failed + 1)
    } else {
        Err(error)
    }
}

/// Goes on after an attempt to bind the IPv4 socket.
pub fn after_ipv4<A, B, E>(end: u16, port: u16, outcome: Result<A, E>) -> (step: BindStep<A, B, E>)
    requires
        port < end,
    ensures
        step == tried_v4::<A, B, E>(end, port, outcome),
{
    match outcome {
        Ok(v4) => BindStep::BindV6(port, v4),
        Err(e) => match after_bind_failure(end, port, e) {
            Ok(next) => BindStep::BindV4(next),
            Err(e) => BindStep::Failed(BindError::Failed(e)),
        },
    }
}

/// Goes on after an attempt to bind the IPv6 socket.
pub fn after_ipv6<A, B, E>(end: u16, port: u16, v4: A, outcome: Result<B, E>) -> (step: BindStep<
    A,
    B,
    E,
>)
    requires
        port < end,
    ensures
        step == tried_v6::<A, B, E>(end, port, v4, outcome),
{
    match outcome {
        Ok(v6) => BindStep::Bound(port, v4, v6),
        Err(e) => match after_bind_failure(end, port, e) {
            Ok(next) => BindStep::BindV4(next),
            Err(e) => BindStep::Failed(BindError::Failed(e)),
        },
    }
}

/// The step after another one, if binding a socket to a port has the outcome `v4` or `v6`.
pub open spec fn bind_next<A, B, E>(
    end: u16,
    step: BindStep<A, B, E>,
    v4: spec_fn(u16) -> Result<A, E>,
    v6: spec_fn(u16) -> Result<B, E>,
) -> BindStep<A, B, E> {
    match step {
        BindStep::BindV4(port) => tried_v4(end, port, v4(port)),
        BindStep::BindV6(port, a) => tried_v6(end, port, a, v6(port)),
        _ => step,
    }
}

/// Both sockets on a port, or why they could not be bound. Without an IPv4 socket, no IPv6 socket is
/// tried.
pub open spec fn pair_outcome<A, B, E>(
    v4: spec_fn(u16) -> Result<A, E>,
    v6: spec_fn(u16) -> Result<B, E>,
    port: u16,
) -> Result<(A, B), E> {
    match v4(port) {
        Ok(a) => match v6(port) {
            Ok(b) => Ok((a, b)),
            Err(e) => Err(e),
        },
        Err(e) => Err(e),
    }
}

/// No port of `first .. end` can be bound.
pub open spec fn none_bound<A, B, E>(
    v4: spec_fn(u16) -> Result<A, E>,
    v6: spec_fn(u16) -> Result<B, E>,
    first: u16,
    end: u16,
) -> bool {
    forall|p: u16| first <= p < end ==> (#[trigger] pair_outcome(v4, v6, p)) is Err
}

/// The result of binding to one of the ports `first .. end`: the sockets on the first port where both
/// can be bound, else the error of the last attempt. An empty range is an invalid input. There are
/// at most two attempts for each port.
pub proof fn law_binding<A, B, E>(
    first: u16,
    end: u16,
    v4: spec_fn(u16) -> Result<A, E>,
    v6: spec_fn(u16) -> Result<B, E>,
    steps: Seq<BindStep<A, B, E>>,
)
    requires
        steps.len() > 0,
        steps[0] == bind_start::<A, B, E>(first, end),
        forall|i: int|
            0 <= i < steps.len() - 1 ==> (steps[i] is BindV4 || steps[i] is BindV6)
                && #[trigger] steps[i + 1] == bind_next(end, steps[i], v4, v6),
    ensures
        match steps.last() {
            BindStep::BindV4(port) => {
                &&& first <= port < end
                &&& none_bound(v4, v6, first, port)
                &&& steps.len() <= 2 * (port - first) + 1
            },
            BindStep::BindV6(port, a) => {
                &&& first <= port < end
                &&& none_bound(v4, v6, first, port)
                &&& v4(port) == Ok::<A, E>(a)
                &&& steps.len() <= 2 * (port - first) + 2
            },
            BindStep::Bound(port, a, b) => {
                &&& first <= port < end
                &&& none_bound(v4, v6, first, port)
                &&& pair_outcome(v4, v6, port) == Ok::<(A, B), E>((a, b))
                &&& steps.len() <= 2 * (end - first) + 1
            },
            BindStep::Failed(BindError::InvalidInput) => first >= end,
            BindStep::Failed(BindError::Failed(e)) => {
                &&& first < end
                &&& none_bound(v4, v6, first, end)
                &&& pair_outcome(v4, v6, (end - 1) as u16) == Err::<(A, B), E>(e)
                &&& steps.len() <= 2 * (end - first) + 1
            },
        },
    decreases steps.len(),
{
    if steps.len() > 1 {
        let n = steps.len() - 1;
        let init = steps.drop_last();
        assert forall|i: int| 0 <= i < init.len() - 1 implies (init[i] is BindV4
            || init[i] is BindV6) && #[trigger] init[i + 1] == bind_next(end, init[i], v4, v6) by {
            assert(steps[i + 1] == bind_next(end, steps[i], v4, v6));
        }
        law_binding(first, end, v4, v6, init);
        let k = n - 1;
        assert(steps[k + 1] == bind_next(end, steps[k], v4, v6));
        assert(init.last() == steps[k]);
        let port = match steps[k] {
            BindStep::BindV4(port) => port,
            BindStep::BindV6(port, _) => port,
            _ => 0,
        };
        if pair_outcome(v4, v6, port) is Err {
            assert forall|p: u16| first <= p < port + 1 implies (#[trigger] pair_outcome(
                v4,
                v6,
                p,
            )) is Err by {}
        }
    }
}

/// The time between two beacons, in seconds.
pub const BEACON_PERIOD_SECS: u64 = 1;

/// The settings of a [UdpTransceiver]. There are none yet.
#[derive(Clone, Copy, Debug, PartialEq, Eq, Structural, Hash)]
pub struct UdpTransceiverConfig {}

// ======== Interfaces ========

/// An address of a network interface.
#[derive(Clone, Copy, Debug, PartialEq, Eq, Structural)]
pub enum InterfaceAddr {
    V4(u32),
    V6(u128),
}

/// How to reach a multicast group through a network interface.
#[derive(Clone, Copy, Debug, PartialEq, Eq, Structural)]
pub enum MulticastInterface {
    /// By the IPv4 address of the interface.
    V4(u32),
    /// By the index of the interface.
    V6,
}

/// Whether `i` is the first IPv4 address.
pub open spec fn first_v4(addrs: Seq<InterfaceAddr>, i: int) -> bool {
    &&& 0 <= i < addrs.len()
    &&& addrs[i] is V4
    &&& forall|k: int| 0 <= k < i ==> (#[trigger] addrs[k]) is V6
}

/// Chooses how to reach a multicast group through an interface: by its first IPv4 address, or by
/// IPv6 if it has no other addresses.
pub fn multicast_interface(addrs: &Vec<InterfaceAddr>) -> (r: Option<MulticastInterface>)
    ensures
        match r {
            Some(MulticastInterface::V4(ip)) => exists|i: int| #[trigger]
                first_v4(addrs@, i) && addrs@[i] == InterfaceAddr::V4(ip),
            Some(MulticastInterface::V6) => addrs@.len() > 0 && forall|i: int|
                0 <= i < addrs@.len() ==> (#[trigger] addrs@[i]) is V6,
            None => addrs@.len() == 0,
        },
{
    let mut i: usize = 0;
    while i < addrs.len()
        invariant
            i <= addrs@.len(),
            forall|k: int| 0 <= k < i ==> (#[trigger] addrs@[k]) is V6,
        decreases addrs@.len() - i,
    {
        if let InterfaceAddr::V4(ip) = addrs[i] {
            proof {
                assert(first_v4(addrs@, i as int));
            }
            return Some(MulticastInterface::V4(ip));
        }
        i = i + 1;
    }
    if addrs.len() > 0 {
        Some(MulticastInterface::V6)
    } else {
        None
    }
}

// ======== Sockets ========

/// The sockets of the transceiver.
#[derive(Clone, Copy, Debug, PartialEq, Eq, Structural)]
pub enum UdpSocket {
    DiscoveryV4,
    DiscoveryV6,
    DataV4,
    DataV6,
}

/// The tokens of the sockets.
#[derive(Clone, Copy, Debug, PartialEq, Eq, Structural)]
pub struct UdpTokens {
    pub discovery_v4: usize,
    pub discovery_v6: usize,
    pub data_v4: usize,
    pub data_v6: usize,
}

impl UdpTokens {
    /// Allocates the tokens of all sockets.
    pub fn allocate(token_allocator: &mut TokenAllocator) -> (t: UdpTokens)
        requires
            old(token_allocator).next() + 4 <= usize::MAX,
        ensures
            t.distinct(),
            t.discovery_v4 == old(token_allocator).next(),
            t.discovery_v6 == old(token_allocator).next() + 1,
            t.data_v4 == old(token_allocator).next() + 2,
            t.data_v6 == old(token_allocator).next() + 3,
            final(token_allocator).next() == old(token_allocator).next() + 4,
    {
        let discovery_v4: usize = token_allocator.new_token();
        let discovery_v6: usize = token_allocator.new_token();
        let data_v4: usize = token_allocator.new_token();
        let data_v6: usize = token_allocator.new_token();
        UdpTokens { discovery_v4, discovery_v6, data_v4, data_v6 }
    }

    /// Whether the sockets can be told apart.
    pub open spec fn distinct(&self) -> bool {
        &&& self.discovery_v4 != self.discovery_v6
        &&& self.discovery_v4 != self.data_v4
        &&& self.discovery_v4 != self.data_v6
        &&& self.discovery_v6 != self.data_v4
        &&& self.discovery_v6 != self.data_v6
        &&& self.data_v4 != self.data_v6
    }

    /// The token of a socket.
    pub open spec fn token(&self, socket: UdpSocket) -> usize {
        match socket {
            UdpSocket::DiscoveryV4 => self.discovery_v4,
            UdpSocket::DiscoveryV6 => self.discovery_v6,
            UdpSocket::DataV4 => self.data_v4,
            UdpSocket::DataV6 => self.data_v6,
        }
    }

    /// Whether `r` is the socket with a token.
    pub open spec fn finds(&self, token: usize, r: Option<UdpSocket>) -> bool {
        match r {
            Some(socket) => self.token(socket) == token,
            None => forall|socket: UdpSocket| self.token(socket) != token,
        }
    }

    /// The socket with a token. Unknown tokens might be for other transceivers.
    pub fn socket(&self, token: usize) -> (r: Option<UdpSocket>)
        requires
            self.distinct(),
        ensures
            self.finds(token, r),
    {
        if token == self.discovery_v4 {
            Some(UdpSocket::DiscoveryV4)
        } else if token == self.discovery_v6 {
            Some(UdpSocket::DiscoveryV6)
        } else if token == self.data_v4 {
            Some(UdpSocket::DataV4)
        } else if token == self.data_v6 {
            Some(UdpSocket::DataV6)
        } else {
            None
        }
    }
}

// ======== Transceiver ========

/// The address to which data is sent, made of the address of a discovery response.
pub open spec fn data_address(src: SocketAddr) -> SocketAddr {
    match src {
        SocketAddr::V4 { ip, .. } => SocketAddr::V4 { ip, port: 11001 },
        SocketAddr::V6 { ip, scope_id, .. } => SocketAddr::V6 {
            ip,
            port: 11001,
            flowinfo: 0,
            scope_id,
        },
    }
}

/// How a packet is sent: the socket and the address. Only connected robots get packets.
pub open spec fn route(timeouts: Map<SocketAddr, Instant>, addr: AddressView) -> Option<
    (UdpSocket, SocketAddr),
> {
    match addr {
        AddressView::Udp(addr) => if !timeouts.contains_key(addr) {
            None
        } else if addr is V4 {
            Some((UdpSocket::DataV4, addr))
        } else {
            Some((UdpSocket::DataV6, addr))
        },
        _ => None,
    }
}

/// A robot that has timed out is forgotten: no packets are sent to it any more. All others still
/// get theirs.
pub proof fn law_silent_robots_get_nothing(
    timeouts: Map<SocketAddr, Instant>,
    addr: SocketAddr,
    now: Instant,
)
    requires
        timeouts.contains_key(addr),
    ensures
        route(not_passed(timeouts, now), AddressView::Udp(addr)) == (if timeouts[addr].nanos
            < now.nanos {
            None
        } else {
            route(timeouts, AddressView::Udp(addr))
        }),
{
}

/// Whether `events` report exactly the connections that have timed out, each of them once.
pub open spec fn reports_passed(
    timeouts: Map<SocketAddr, Instant>,
    now: Instant,
    events: Seq<TransceiverEvent>,
) -> bool {
    exists|addrs: Seq<SocketAddr>| #[trigger]
        addrs.no_duplicates() && addrs.to_set() =~= timeouts.dom().difference(
            not_passed(timeouts, now).dom(),
        ) && addrs.len() == events.len() && forall|i: int|
            0 <= i < addrs.len() ==> (#[trigger] events[i])@ == EventView::Disconnected(
                AddressView::Udp(addrs[i]),
            )
}

/// Finds robots in the local network and exchanges packets with them.
#[derive(Debug)]
pub struct UdpTransceiver {
    connection_timeouts: TimeoutTable,
    tokens: UdpTokens,
    next_beacon_time: Instant,
    next_conn_timeout: Option<Instant>,
    timeout: Duration,
    id_filter: RobotIdFilter,
}

impl UdpTransceiver {
    /// When each connected robot counts as disconnected.
    pub closed spec fn timeouts(&self) -> Map<SocketAddr, Instant> {
        self.connection_timeouts@
    }

    pub closed spec fn tokens(&self) -> UdpTokens {
        self.tokens
    }

    pub closed spec fn beacon_time(&self) -> Instant {
        self.next_beacon_time
    }

    /// The cached closest timeout of the connections.
    pub closed spec fn conn_timeout(&self) -> Option<Instant> {
        self.next_conn_timeout
    }

    /// After which time a silent robot counts as disconnected.
    pub closed spec fn timeout(&self) -> Duration {
        self.timeout
    }

    pub closed spec fn id_filter(&self) -> RobotIdFilter {
        self.id_filter
    }

    pub closed spec fn wf(&self) -> bool {
        &&& self.connection_timeouts.wf()
        &&& self.tokens.distinct()
    }

    /// Whether the cached timeout does not lie behind that of any connection.
    pub open spec fn timeouts_cached(&self) -> bool {
        forall|a: SocketAddr| #[trigger]
            self.timeouts().contains_key(a) ==> (self.conn_timeout() matches Some(t) && t.nanos
                <= self.timeouts()[a].nanos)
    }

    /// Whether another transceiver is set up in the same way.
    pub open spec fn same_setup(&self, other: &UdpTransceiver) -> bool {
        &&& self.id_filter() == other.id_filter()
        &&& self.timeout() == other.timeout()
        &&& self.tokens() == other.tokens()
    }

    /// Nothing was received or sent since the start.
    pub open spec fn fresh(&self, tokens: UdpTokens, now: Instant) -> bool {
        &&& self.timeouts() == Map::<SocketAddr, Instant>::empty()
        &&& self.tokens() == tokens
        &&& self.beacon_time().nanos == now.nanos + 1_000_000_000
        &&& self.conn_timeout() is None
        &&& self.timeout().nanos == 1_000_000_000
        &&& forall|id: u8| self.id_filter().accepts(id)
    }

    /// Starts without any connection. The first beacon is sent after one period.
    pub fn start(tokens: UdpTokens, now: Instant) -> (t: Self)
        requires
            tokens.distinct(),
            now.nanos + 1_000_000_000 <= u64::MAX,
        ensures
            t.wf(),
            t.timeouts_cached(),
            t.fresh(tokens, now),
    {
        UdpTransceiver {
            connection_timeouts: TimeoutTable::new(),
            tokens,
            next_beacon_time: now.plus(Duration::from_secs(BEACON_PERIOD_SECS)),
            next_conn_timeout: None,
            timeout: Duration::from_secs(DEFAULT_TIMEOUT_SECS),
            id_filter: RobotIdFilter::default(),
        }
    }

    pub fn set_timeout(&mut self, timeout: Duration)
        requires
            old(self).wf(),
        ensures
            final(self).wf(),
            final(self).timeout() == timeout,
            final(self).id_filter() == old(self).id_filter(),
            final(self).tokens() == old(self).tokens(),
            final(self).timeouts() == old(self).timeouts(),
            final(self).beacon_time() == old(self).beacon_time(),
            final(self).conn_timeout() == old(self).conn_timeout(),
    {
        self.timeout = timeout;
    }

    /// The addresses of all connected robots, in arbitrary order.
    pub fn connected_robots(&self) -> (addrs: Vec<SocketAddr>)
        requires
            self.wf(),
        ensures
            addrs@.no_duplicates(),
            addrs@.to_set() == self.timeouts().dom(),
    {
        self.connection_timeouts.addresses()
    }

    /// Decides where a packet has to be sent: the socket and the address. There is nothing to do for
    /// addresses of other transceivers and for robots that are not connected.
    pub fn send_packet(&self, addr: &RobotTransceiverAddress) -> (r: Option<
        (UdpSocket, SocketAddr),
    >)
        requires
            self.wf(),
        ensures
            r == route(self.timeouts(), addr@),
    {
        match addr {
            RobotTransceiverAddress::Udp(addr) => {
                if !self.connection_timeouts.contains(*addr) {
                    None
                } else if addr.is_ipv4() {
                    Some((UdpSocket::DataV4, *addr))
                } else {
                    Some((UdpSocket::DataV6, *addr))
                }
            },
            RobotTransceiverAddress::Serial(_) => None,
            RobotTransceiverAddress::Test(_) => None,
        }
    }

    /// The effect of dropping the connections that have timed out.
    pub open spec fn expired(
        before: UdpTransceiver,
        now: Instant,
        events: Seq<TransceiverEvent>,
        after: UdpTransceiver,
    ) -> bool {
        &&& after.same_setup(&before)
        &&& after.beacon_time() == before.beacon_time()
        &&& if before.conn_timeout() is Some && before.conn_timeout()->0.nanos < now.nanos {
            &&& after.timeouts() == not_passed(before.timeouts(), now)
            &&& reports_passed(before.timeouts(), now, events)
            &&& is_closest_timeout(after.timeouts(), after.conn_timeout())
        } else {
            &&& after.timeouts() == before.timeouts()
            &&& events.len() == 0
            &&& after.conn_timeout() == before.conn_timeout()
        }
        &&& before.timeouts_cached() ==> {
            &&& after.timeouts_cached()
            &&& after.timeouts() == not_passed(before.timeouts(), now)
            &&& reports_passed(before.timeouts(), now, events)
        }
    }

    /// Drops the connections that have timed out. As long as timeouts are cached, no one is missed.
    pub fn expire(&mut self, now: Instant) -> (events: Vec<TransceiverEvent>)
        requires
            old(self).wf(),
        ensures
            final(self).wf(),
            Self::expired(*old(self), now, events@, *final(self)),
    {
        let due: bool = match self.next_conn_timeout {
            Some(t) => t.nanos < now.nanos,
            None => false,
        };
        let mut events: Vec<TransceiverEvent> = Vec::new();
        let ghost before = self.timeouts();
        if !due {
            proof {
                if self.timeouts_cached() {
                    assert(not_passed(before, now) =~= before);
                    let none = Seq::<SocketAddr>::empty();
                    assert(none.no_duplicates());
                    assert(none.to_set() =~= before.dom().difference(
                        not_passed(before, now).dom(),
                    ));
                }
            }
            return events;
        }
        let gone: Vec<SocketAddr> = self.connection_timeouts.remove_passed(now);
        let mut i: usize = 0;
        while i < gone.len()
            invariant
                i <= gone@.len(),
                events@.len() == i,
                forall|k: int|
                    0 <= k < i ==> (#[trigger] events@[k])@ == EventView::Disconnected(
                        AddressView::Udp(gone@[k]),
                    ),
            decreases gone@.len() - i,
        {
            events.push(TransceiverEvent::Disconnected(RobotTransceiverAddress::Udp(gone[i])));
            i = i + 1;
        }
        self.next_conn_timeout = self.connection_timeouts.closest();
        proof {
            assert(gone@.no_duplicates());
            assert(reports_passed(before, now, events@));
        }
        events
    }

    /// The decision on beacons.
    pub open spec fn beacon_decided(
        before: UdpTransceiver,
        now: Instant,
        due: bool,
        after: UdpTransceiver,
    ) -> bool {
        &&& after.same_setup(&before)
        &&& after.timeouts() == before.timeouts()
        &&& after.conn_timeout() == before.conn_timeout()
        &&& due == (now.nanos >= before.beacon_time().nanos)
        &&& after.beacon_time().nanos == before.beacon_time().nanos + (if due {
            1_000_000_000int
        } else {
            0
        })
    }

    /// Decides whether beacons have to be sent.
    pub fn beacon_due(&mut self, now: Instant) -> (due: bool)
        requires
            old(self).wf(),
            old(self).beacon_time().nanos + 1_000_000_000 <= u64::MAX,
        ensures
            final(self).wf(),
            Self::beacon_decided(*old(self), now, due, *final(self)),
    {
        if now.nanos >= self.next_beacon_time.nanos {
            self.next_beacon_time = self.next_beacon_time.plus(
                Duration::from_secs(BEACON_PERIOD_SECS),
            );
            true
        } else {
            false
        }
    }

    /// The socket with a token.
    pub fn socket(&self, token: usize) -> (r: Option<UdpSocket>)
        requires
            self.wf(),
        ensures
            self.tokens().finds(token, r),
    {
        self.tokens.socket(token)
    }

    /// The effect of a response to a beacon.
    pub open spec fn discovered(
        before: UdpTransceiver,
        robot_id: u8,
        src: SocketAddr,
        now: Instant,
        event: Option<TransceiverEvent>,
        after: UdpTransceiver,
    ) -> bool {
        &&& after.same_setup(&before)
        &&& after.beacon_time() == before.beacon_time()
        &&& after.conn_timeout() == before.conn_timeout()
        &&& match event {
            Some(e) => {
                &&& before.id_filter().accepts(robot_id)
                &&& !before.timeouts().contains_key(data_address(src))
                &&& e@ == EventView::Connected(AddressView::Udp(data_address(src)), robot_id)
                &&& after.timeouts() == before.timeouts().insert(
                    data_address(src),
                    Instant { nanos: (now.nanos + before.timeout().nanos) as u64 },
                )
            },
            None => {
                &&& !before.id_filter().accepts(robot_id) || before.timeouts().contains_key(
                    data_address(src),
                )
                &&& after.timeouts() == before.timeouts()
            },
        }
    }

    /// Takes a response to a beacon. A robot that is wanted and not known yet is connected.
    pub fn receive_discovery(&mut self, robot_id: u8, src: SocketAddr, now: Instant) -> (event:
        Option<TransceiverEvent>)
        requires
            old(self).wf(),
            now.nanos + old(self).timeout().nanos <= u64::MAX,
        ensures
            final(self).wf(),
            Self::discovered(*old(self), robot_id, src, now, event, *final(self)),
    {
        if !self.id_filter.apply(robot_id) {
            return None;
        }
        // Construct the data address by replacing the port of the source address
        let data_addr: SocketAddr = match src {
            SocketAddr::V4 { ip, .. } => SocketAddr::V4 { ip, port: DATA_PORT },
            SocketAddr::V6 { ip, scope_id, .. } => SocketAddr::V6 {
                ip,
                port: DATA_PORT,
                flowinfo: 0,
                scope_id,
            },
        };
        if self.connection_timeouts.contains(data_addr) {
            return None;
        }
        self.connection_timeouts.set(data_addr, now.plus(self.timeout));
        Some(TransceiverEvent::Connected(RobotTransceiverAddress::Udp(data_addr), robot_id))
    }

    /// The effect of a data packet.
    pub open spec fn data_received(
        before: UdpTransceiver,
        src: SocketAddr,
        bytes: Seq<u8>,
        now: Instant,
        event: Option<TransceiverEvent>,
        after: UdpTransceiver,
    ) -> bool {
        &&& after.same_setup(&before)
        &&& after.beacon_time() == before.beacon_time()
        &&& after.conn_timeout() == before.conn_timeout()
        &&& match event {
            Some(e) => {
                &&& before.timeouts().contains_key(src)
                &&& e@ == EventView::PacketReceived(AddressView::Udp(src), bytes, now)
                &&& after.timeouts() == before.timeouts().insert(
                    src,
                    Instant { nanos: (now.nanos + before.timeout().nanos) as u64 },
                )
            },
            None => {
                &&& !before.timeouts().contains_key(src)
                &&& after.timeouts() == before.timeouts()
            },
        }
    }

    /// Takes a data packet. Packets of unknown origin are ignored.
    pub fn receive_data(&mut self, src: SocketAddr, bytes: Vec<u8>, now: Instant) -> (event: Option<
        TransceiverEvent,
    >)
        requires
            old(self).wf(),
            now.nanos + old(self).timeout().nanos <= u64::MAX,
        ensures
            final(self).wf(),
            Self::data_received(*old(self), src, bytes@, now, event, *final(self)),
    {
        if !self.connection_timeouts.contains(src) {
            return None;
        }
        self.connection_timeouts.set(src, now.plus(self.timeout));
        Some(TransceiverEvent::PacketReceived(RobotTransceiverAddress::Udp(src), bytes, now))
    }

    /// Notices all timeouts after everything was read from a socket.
    pub fn end_receive(&mut self)
        requires
            old(self).wf(),
        ensures
            final(self).wf(),
            final(self).same_setup(old(self)),
            final(self).beacon_time() == old(self).beacon_time(),
            final(self).timeouts() == old(self).timeouts(),
            is_closest_timeout(final(self).timeouts(), final(self).conn_timeout()),
            final(self).timeouts_cached(),
    {
        self.next_conn_timeout = self.connection_timeouts.closest();
    }
}

impl Transceiver for UdpTransceiver {
    open spec fn valid(&self) -> bool {
        self.wf()
    }

    open spec fn filter(&self) -> RobotIdFilter {
        self.id_filter()
    }

    open spec fn deadline(&self) -> Instant {
        earliest(self.conn_timeout(), self.beacon_time())
    }

    fn set_id_filter(&mut self, id_filter: RobotIdFilter)
        ensures
            final(self).timeout() == old(self).timeout(),
            final(self).tokens() == old(self).tokens(),
            final(self).timeouts() == old(self).timeouts(),
            final(self).beacon_time() == old(self).beacon_time(),
            final(self).conn_timeout() == old(self).conn_timeout(),
    {
        self.id_filter = id_filter;
    }

    fn next_timeout(&self) -> (t: Instant) {
        match self.next_conn_timeout {
            Some(t) => t.earlier(self.next_beacon_time),
            None => self.next_beacon_time,
        }
    }
}

// ======== Laws of the transceiver ========

/// `addr` is the same host as `src`, at the port for data.
pub open spec fn data_port_of(src: SocketAddr, addr: SocketAddr) -> bool {
    match (src, addr) {
        (SocketAddr::V4 { ip: a, port: _ }, SocketAddr::V4 { ip: b, port }) => a == b && port
            == 11001,
        (
            SocketAddr::V6 { ip: a, port: _, flowinfo: _, scope_id: s },
            SocketAddr::V6 { ip: b, port, flowinfo, scope_id: t },
        ) => a == b && s == t && port == 11001 && flowinfo == 0,
        _ => false,
    }
}

/// A robot that answers a beacon is connected at the port for data of its host, if it is wanted and
/// not connected yet. It is announced once, and has the whole timeout to send something. Nothing
/// else changes.
pub proof fn law_discovery(
    before: UdpTransceiver,
    robot_id: u8,
    src: SocketAddr,
    now: Instant,
    event: Option<TransceiverEvent>,
    after: UdpTransceiver,
    addr: SocketAddr,
)
    requires
        now.nanos + before.timeout().nanos <= u64::MAX,
        UdpTransceiver::discovered(before, robot_id, src, now, event, after),
        data_port_of(src, addr),
    ensures
        event is Some <==> before.id_filter().accepts(robot_id) && !before.timeouts().contains_key(
            addr,
        ),
        event is Some ==> {
            &&& event->0@ == EventView::Connected(AddressView::Udp(addr), robot_id)
            &&& after.timeouts().contains_key(addr)
            &&& after.timeouts()[addr].nanos == now.nanos + before.timeout().nanos
        },
        forall|a: SocketAddr| #[trigger]
            after.timeouts().contains_key(a) <==> before.timeouts().contains_key(a) || (event is Some
                && a == addr),
        forall|a: SocketAddr| #[trigger]
            before.timeouts().contains_key(a) ==> after.timeouts()[a] == before.timeouts()[a],
{
}

/// The packets of a connected robot are handed on, with its address and the time, and put off its
/// timeout. Packets from anywhere else are ignored.
pub proof fn law_data(
    before: UdpTransceiver,
    src: SocketAddr,
    bytes: Seq<u8>,
    now: Instant,
    event: Option<TransceiverEvent>,
    after: UdpTransceiver,
)
    requires
        now.nanos + before.timeout().nanos <= u64::MAX,
        UdpTransceiver::data_received(before, src, bytes, now, event, after),
    ensures
        event is Some <==> before.timeouts().contains_key(src),
        event is Some ==> {
            &&& event->0@ == EventView::PacketReceived(AddressView::Udp(src), bytes, now)
            &&& after.timeouts()[src].nanos == now.nanos + before.timeout().nanos
        },
        after.timeouts().dom() == before.timeouts().dom(),
        forall|a: SocketAddr| #[trigger]
            before.timeouts().contains_key(a) && a != src ==> after.timeouts()[a]
                == before.timeouts()[a],
{
    assert(after.timeouts().dom() =~= before.timeouts().dom());
}

/// A robot that answered a beacon is heard: what it sends next from its port for data is handed on.
pub proof fn law_connected_robot_is_heard(
    before: UdpTransceiver,
    robot_id: u8,
    src: SocketAddr,
    first: Instant,
    announced: Option<TransceiverEvent>,
    mid: UdpTransceiver,
    addr: SocketAddr,
    bytes: Seq<u8>,
    now: Instant,
    event: Option<TransceiverEvent>,
    after: UdpTransceiver,
)
    requires
        first.nanos + before.timeout().nanos <= u64::MAX,
        now.nanos + before.timeout().nanos <= u64::MAX,
        before.id_filter().accepts(robot_id),
        UdpTransceiver::discovered(before, robot_id, src, first, announced, mid),
        data_port_of(src, addr),
        UdpTransceiver::data_received(mid, addr, bytes, now, event, after),
    ensures
        event is Some,
        event->0@ == EventView::PacketReceived(AddressView::Udp(addr), bytes, now),
{
    law_discovery(before, robot_id, src, first, announced, mid, addr);
    law_data(mid, addr, bytes, now, event, after);
}

/// A robot is reported as disconnected, once, and forgotten as soon as its timeout has passed, and not
/// before.
pub proof fn law_silence(
    before: UdpTransceiver,
    now: Instant,
    events: Seq<TransceiverEvent>,
    after: UdpTransceiver,
    addr: SocketAddr,
)
    requires
        before.timeouts_cached(),
        UdpTransceiver::expired(before, now, events, after),
        before.timeouts().contains_key(addr),
    ensures
        now.nanos <= before.timeouts()[addr].nanos ==> {
            &&& after.timeouts().contains_key(addr)
            &&& after.timeouts()[addr] == before.timeouts()[addr]
            &&& forall|i: int|
                0 <= i < events.len() ==> (#[trigger] events[i])@ != EventView::Disconnected(
                    AddressView::Udp(addr),
                )
        },
        now.nanos > before.timeouts()[addr].nanos ==> {
            &&& !after.timeouts().contains_key(addr)
            &&& exists|i: int|
                0 <= i < events.len() && (#[trigger] events[i])@ == EventView::Disconnected(
                    AddressView::Udp(addr),
                )
            &&& forall|i: int, j: int|
                0 <= i < j < events.len() && (#[trigger] events[i])@ == EventView::Disconnected(
                    AddressView::Udp(addr),
                ) ==> (#[trigger] events[j])@ != EventView::Disconnected(AddressView::Udp(addr))
        },
{
    let timeouts = before.timeouts();
    let gone = timeouts.dom().difference(not_passed(timeouts, now).dom());
    let addrs = choose|addrs: Seq<SocketAddr>| #[trigger]
        addrs.no_duplicates() && addrs.to_set() =~= gone && addrs.len() == events.len() && forall|
            i: int,
        |
            0 <= i < addrs.len() ==> (#[trigger] events[i])@ == EventView::Disconnected(
                AddressView::Udp(addrs[i]),
            );
    assert(gone.contains(addr) <==> now.nanos > timeouts[addr].nanos);
    assert(addrs.to_set().contains(addr) <==> addrs.contains(addr));
    if addrs.contains(addr) {
        let k = choose|k: int| 0 <= k < addrs.len() && addrs[k] == addr;
        assert(events[k]@ == EventView::Disconnected(AddressView::Udp(addr)));
    }
    assert forall|i: int| 0 <= i < events.len() && now.nanos <= timeouts[addr].nanos implies (
    #[trigger] events[i])@ != EventView::Disconnected(AddressView::Udp(addr)) by {
        assert(addrs.contains(addrs[i]));
    }
}

/// Whoever was heard at some time is connected until the timeout has passed since then, and no longer.
pub proof fn law_timeout_after_data(
    before: UdpTransceiver,
    src: SocketAddr,
    bytes: Seq<u8>,
    heard: Instant,
    event: Option<TransceiverEvent>,
    mid: UdpTransceiver,
    cached: UdpTransceiver,
    now: Instant,
    events: Seq<TransceiverEvent>,
    after: UdpTransceiver,
)
    requires
        heard.nanos + before.timeout().nanos <= u64::MAX,
        before.timeouts().contains_key(src),
        UdpTransceiver::data_received(before, src, bytes, heard, event, mid),
        cached.timeouts() == mid.timeouts(),
        cached.timeouts_cached(),
        UdpTransceiver::expired(cached, now, events, after),
    ensures
        after.timeouts().contains_key(src) <==> now.nanos <= heard.nanos + before.timeout().nanos,
        (exists|i: int|
            0 <= i < events.len() && (#[trigger] events[i])@ == EventView::Disconnected(
                AddressView::Udp(src),
            )) <==> now.nanos > heard.nanos + before.timeout().nanos,
{
    law_data(before, src, bytes, heard, event, mid);
    law_silence(cached, now, events, after, src);
}

/// Beacons are due once a second, the first one a second after the start: before the n-th beacon, as
/// many seconds have passed.
pub proof fn law_beacons(
    states: Seq<UdpTransceiver>,
    tokens: UdpTokens,
    start: Instant,
    times: Seq<Instant>,
    due: Seq<bool>,
)
    requires
        states.len() == times.len() + 1,
        due.len() == times.len(),
        states[0].fresh(tokens, start),
        forall|i: int|
            0 <= i < times.len() ==> UdpTransceiver::beacon_decided(
                states[i],
                #[trigger] times[i],
                due[i],
                states[i + 1],
            ),
    ensures
        states.last().beacon_time().nanos == start.nanos + 1_000_000_000 * (1 + due.filter(
            |d: bool| d,
        ).len()),
        due.len() > 0 ==> (due.last() <==> times.last().nanos >= start.nanos + 1_000_000_000 * (1
            + due.drop_last().filter(|d: bool| d).len())),
    decreases times.len(),
{
    reveal(Seq::filter);
    if times.len() > 0 {
        let n = times.len() - 1;
        let states0 = states.drop_last();
        let times0 = times.drop_last();
        let due0 = due.drop_last();
        assert forall|i: int| 0 <= i < times0.len() implies UdpTransceiver::beacon_decided(
            states0[i],
            #[trigger] times0[i],
            due0[i],
            states0[i + 1],
        ) by {
            assert(times0[i] == times[i]);
        }
        law_beacons(states0, tokens, start, times0, due0);
        assert(states0.last() == states[n]);
        assert(UdpTransceiver::beacon_decided(states[n], times[n], due[n], states[n + 1]));
    }
}

/// Packets leave through the socket for data of the kind of the address, and only to connected
/// robots.
pub proof fn law_route(
    timeouts: Map<SocketAddr, Instant>,
    ip: u32,
    ip6: u128,
    port: u16,
    flowinfo: u32,
    scope_id: u32,
)
    ensures
        ({
            let v4 = SocketAddr::V4 { ip, port };
            let v6 = SocketAddr::V6 { ip: ip6, port, flowinfo, scope_id };
            &&& timeouts.contains_key(v4) ==> route(timeouts, AddressView::Udp(v4)) == Some(
                (UdpSocket::DataV4, v4),
            )
            &&& timeouts.contains_key(v6) ==> route(timeouts, AddressView::Udp(v6)) == Some(
                (UdpSocket::DataV6, v6),
            )
            &&& !timeouts.contains_key(v4) ==> route(timeouts, AddressView::Udp(v4)) is None
            &&& !timeouts.contains_key(v6) ==> route(timeouts, AddressView::Udp(v6)) is None
        }),
{
}

/// An interface is reached by its first IPv4 address, by its index if it has IPv6 addresses only, and not at
/// all if it has no address.
pub proof fn law_interfaces(addrs: &Vec<InterfaceAddr>, r: Option<MulticastInterface>, i: int)
    requires
        call_ensures(multicast_interface, (addrs,), r),
        0 <= i < addrs@.len(),
        forall|k: int| 0 <= k < i ==> (#[trigger] addrs@[k]) is V6,
    ensures
        addrs@[i] is V4 ==> r == Some(MulticastInterface::V4(addrs@[i]->V4_0)),
        i == addrs@.len() - 1 && addrs@[i] is V6 ==> r == Some(MulticastInterface::V6),
{
    if addrs@[i] is V4 {
        if let Some(MulticastInterface::V4(ip)) = r {
            let j = choose|j: int| #[trigger]
                first_v4(addrs@, j) && addrs@[j] == InterfaceAddr::V4(ip);
            if j < i {
                assert(addrs@[j] is V6);
            }
            if i < j {
                assert(addrs@[i] is V6);
            }
        } else {
            assert(addrs@[i] is V6);
        }
    } else if i == addrs@.len() - 1 {
        if let Some(MulticastInterface::V4(ip)) = r {
            let j = choose|j: int| #[trigger]
                first_v4(addrs@, j) && addrs@[j] == InterfaceAddr::V4(ip);
            assert(addrs@[j] is V6);
        }
    }
}

/// The socket of an allocated token is the one that it was allocated for.
pub proof fn law_sockets(t: UdpTokens, socket: UdpSocket, token: usize, r: Option<UdpSocket>)
    requires
        t.distinct(),
        t.finds(token, r),
        match socket {
            UdpSocket::DiscoveryV4 => token == t.discovery_v4,
            UdpSocket::DiscoveryV6 => token == t.discovery_v6,
            UdpSocket::DataV4 => token == t.data_v4,
            UdpSocket::DataV6 => token == t.data_v6,
        },
    ensures
        r == Some(socket),
{
    assert(t.token(socket) == token);
    assert(r is Some);
    assert(t.token(r->0) == token);
    assert(r->0 == socket);
}

} // verus!
