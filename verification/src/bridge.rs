//! Forwarding between the network and a robot on a serial port.

use crate::framing::{
    carries_packet, checked, cobs_decoded, decode_vec, encodable, frame, framed,
    law_checksum_is_parity, law_checksum_round_trip, law_frame_holds_packet, parity, remove_checksum,
    with_checksum,
};
use crate::time::{Duration, Instant};
use crate::transceivers::address::SocketAddr;
use vstd::prelude::*;

verus! {

/// The size of the packets that are forwarded.
pub const PACKET_SIZE: usize = 29;

/// The time after which another host can take over, in seconds.
pub const CONNECTION_TIMEOUT_SECS: u64 = 1;

/// The number of a message that holds a packet.
pub const MSG_PACKET: u8 = 0;

/// The number of a message that asks for, or reports, the robot id.
pub const MSG_ROBOT_ID: u8 = 1;

// ======== Hosts ========

/// The host that commands the robot.
#[derive(Clone, Copy, Debug, PartialEq, Eq, Structural)]
pub struct CommandSource {
    pub addr: Option<SocketAddr>,
    pub last_received: Instant,
}

/// What becomes of a command packet.
#[derive(Clone, Copy, Debug, PartialEq, Eq, Structural)]
pub enum Arbitration {
    /// Its sender becomes the commanding host.
    NewConnection,
    /// Its sender is the commanding host.
    Continued,
    /// Another host is commanding.
    Ignored,
}

impl CommandSource {
    /// Whether the commanding host was silent for too long.
    pub open spec fn spec_idle(&self, now: Instant) -> bool {
        now.nanos > self.last_received.nanos + 1_000_000_000
    }

    /// Nobody is commanding. The first host is accepted after the timeout has passed.
    pub fn new(now: Instant) -> (s: CommandSource)
        ensures
            s.addr is None,
            s.last_received == now,
    {
        CommandSource { addr: None, last_received: now }
    }

    /// Whether the commanding host was silent for too long.
    pub fn idle(&self, now: Instant) -> (b: bool)
        ensures
            b == self.spec_idle(now),
    {
        now.saturating_duration_since(self.last_received).nanos > Duration::from_secs(
            CONNECTION_TIMEOUT_SECS,
        ).nanos
    }

    /// The decision on a command packet.
    pub open spec fn arbitrates(
        before: CommandSource,
        addr: SocketAddr,
        now: Instant,
        r: Arbitration,
        after: CommandSource,
    ) -> bool {
        &&& r == (if before.spec_idle(now) {
            Arbitration::NewConnection
        } else if before.addr == Some(addr) {
            Arbitration::Continued
        } else {
            Arbitration::Ignored
        })
        &&& after == (if r is Ignored {
            before
        } else {
            CommandSource { addr: Some(addr), last_received: now }
        })
    }

    /// Decides whether to obey a command packet.
    pub fn accept(&mut self, addr: SocketAddr, now: Instant) -> (r: Arbitration)
        ensures
            Self::arbitrates(*old(self), addr, now, r, *final(self)),
    {
        let r: Arbitration = if self.idle(now) {
            self.addr = Some(addr);
            Arbitration::NewConnection
        } else if self.is_host(addr) {
            Arbitration::Continued
        } else {
            return Arbitration::Ignored;
        };
        self.last_received = now;
        r
    }

    /// What is written to the robot for a command packet.
    pub open spec fn writes(packet: Seq<u8>, r: Arbitration, written: Option<Vec<u8>>) -> bool {
        match written {
            Some(bytes) => {
                &&& !(r is Ignored)
                &&& bytes@ == framed(seq![0u8] + packet)
                &&& bytes@.last() == 0
                &&& carries_packet(bytes@.drop_last(), seq![0u8] + packet)
            },
            None => r is Ignored,
        }
    }

    /// Takes a command packet from the network. Returns what is written to the robot, unless another
    /// host is commanding.
    pub fn command(&mut self, addr: SocketAddr, packet: &[u8], now: Instant) -> (r: (
        Arbitration,
        Option<Vec<u8>>,
    ))
        requires
            encodable(packet@.len() + 2),
        ensures
            Self::arbitrates(*old(self), addr, now, r.0, *final(self)),
            Self::writes(packet@, r.0, r.1),
    {
        match self.accept(addr, now) {
            Arbitration::Ignored => (Arbitration::Ignored, None),
            accepted => {
                let msg: Vec<u8> = packet_message(packet);
                (accepted, Some(frame(msg.as_slice())))
            },
        }
    }

    /// What is sent to the commanding host for a message from the robot.
    pub open spec fn relays(
        source: CommandSource,
        msg: Seq<u8>,
        r: Option<(SocketAddr, Vec<u8>)>,
    ) -> bool {
        match r {
            Some((addr, packet)) => source.addr == Some(addr) && packet@ == msg.skip(1),
            None => source.addr is None,
        }
    }

    /// Takes a message from the robot. Returns what is sent to the commanding host.
    pub fn response(&self, msg: &[u8]) -> (r: Option<(SocketAddr, Vec<u8>)>)
        requires
            msg@.len() >= 1,
        ensures
            Self::relays(*self, msg@, r),
    {
        match self.addr {
            Some(addr) => Some((addr, forwarded(msg))),
            None => None,
        }
    }

    fn is_host(&self, addr: SocketAddr) -> (b: bool)
        ensures
            b == (self.addr == Some(addr)),
    {
        match self.addr {
            Some(a) => a == addr,
            None => false,
        }
    }
}

/// The commanding host after command packets from some senders at some times.
pub open spec fn arbitrated(source: CommandSource, packets: Seq<(SocketAddr, Instant)>) -> CommandSource
    decreases packets.len(),
{
    if packets.len() == 0 {
        source
    } else {
        let before = arbitrated(source, packets.drop_last());
        let (addr, now) = packets.last();
        if before.spec_idle(now) || before.addr == Some(addr) {
            CommandSource { addr: Some(addr), last_received: now }
        } else {
            before
        }
    }
}

/// As long as the commanding host sends a packet before each timeout, no one else takes over.
pub proof fn law_host_is_kept(
    source: CommandSource,
    packets: Seq<(SocketAddr, Instant)>,
    host: SocketAddr,
)
    requires
        source.addr == Some(host),
        forall|i: int|
            0 <= i < packets.len() ==> !arbitrated(source, packets.take(i)).spec_idle(
                (#[trigger] packets[i]).1,
            ),
    ensures
        arbitrated(source, packets).addr == Some(host),
    decreases packets.len(),
{
    if packets.len() > 0 {
        let init = packets.drop_last();
        assert forall|i: int| 0 <= i < init.len() implies !arbitrated(source, init.take(i)).spec_idle(
            (#[trigger] init[i]).1,
        ) by {
            assert(init[i] == packets[i]);
            assert(init.take(i) =~= packets.take(i));
        }
        law_host_is_kept(source, init, host);
        assert(packets.take(packets.len() - 1) =~= init);
        assert(!arbitrated(source, packets.take(packets.len() - 1)).spec_idle(
            packets[packets.len() - 1].1,
        ));
    }
}

// ======== Messages ========

/// A message that holds a packet.
pub fn packet_message(packet: &[u8]) -> (msg: Vec<u8>)
    ensures
        msg@ == seq![0u8] + packet@,
{
    let mut msg: Vec<u8> = Vec::new();
    msg.push(MSG_PACKET);
    msg.extend_from_slice(packet);
    proof {
        assert(msg@ =~= seq![0u8] + packet@);
    }
    msg
}

/// A message that asks for the robot id.
pub fn robot_id_request() -> (msg: Vec<u8>)
    ensures
        msg@.len() == 30,
        msg@[0] == 1,
        forall|i: int| 1 <= i < 30 ==> #[trigger] msg@[i] == 0,
{
    let mut msg: Vec<u8> = Vec::new();
    msg.push(MSG_ROBOT_ID);
    while msg.len() < 1 + PACKET_SIZE
        invariant
            1 <= msg@.len() <= 30,
            msg@[0] == 1,
            forall|i: int| 1 <= i < msg@.len() ==> #[trigger] msg@[i] == 0,
        decreases 30 - msg@.len(),
    {
        msg.push(0);
    }
    msg
}

/// Reads the robot id from a response, or the number of a message of another kind.
pub fn robot_id_response(response: &[u8]) -> (r: Result<u8, u8>)
    requires
        response@.len() >= 2,
    ensures
        r == (if response@[0] == 1 {
            Ok::<u8, u8>(response@[1])
        } else {
            Err(response@[0])
        }),
{
    if response[0] == MSG_ROBOT_ID {
        Ok(response[1])
    } else {
        Err(response[0])
    }
}

/// What is forwarded of a message: all but its number.
pub fn forwarded(msg: &[u8]) -> (packet: Vec<u8>)
    requires
        msg@.len() >= 1,
    ensures
        packet@ == msg@.skip(1),
{
    let mut packet: Vec<u8> = Vec::new();
    packet.extend_from_slice(vstd::slice::slice_subrange(msg, 1, msg.len()));
    proof {
        assert(packet@ =~= msg@.skip(1));
    }
    packet
}

// ======== Reading frames ========

/// How many bytes a frame has: one for the number of the message, one for the checksum, and one for
/// the stuffing.
pub const FRAME_SIZE: usize = 32;

/// Why a frame is discarded.
#[derive(Debug)]
pub enum FrameError {
    Malformed(cobs::DecodeError),
    ChecksumMismatch,
}

/// Collects the bytes of a frame.
#[derive(Debug)]
pub struct FrameReader {
    buffer: Vec<u8>,
}

/// The bytes of a frame after one more was read. A zero byte starts over.
pub open spec fn pushed(buffer: Seq<u8>, byte: u8) -> Seq<u8> {
    if byte == 0 {
        Seq::empty()
    } else {
        buffer.push(byte)
    }
}

/// The bytes of a frame after some more were read.
pub open spec fn pushed_all(buffer: Seq<u8>, bytes: Seq<u8>) -> Seq<u8>
    decreases bytes.len(),
{
    if bytes.len() == 0 {
        buffer
    } else {
        pushed(pushed_all(buffer, bytes.drop_last()), bytes.last())
    }
}

/// The message in a frame.
pub open spec fn frame_contents(frame: Seq<u8>) -> Option<Seq<u8>> {
    match cobs_decoded(frame) {
        Some(data) => checked(data),
        None => None,
    }
}

impl FrameReader {
    pub closed spec fn view(&self) -> Seq<u8> {
        self.buffer@
    }

    pub closed spec fn wf(&self) -> bool {
        &&& self.buffer@.len() <= 32
        &&& !self.buffer@.contains(0)
    }

    pub fn new() -> (r: FrameReader)
        ensures
            r.wf(),
            r@ == Seq::<u8>::empty(),
    {
        FrameReader { buffer: Vec::new() }
    }

    /// Whether all bytes of a frame were read.
    pub fn is_complete(&self) -> (b: bool)
        requires
            self.wf(),
        ensures
            b == (self@.len() == 32),
            !b ==> self@.len() < 32,
    {
        self.buffer.len() >= FRAME_SIZE
    }

    /// Takes one byte.
    pub fn push(&mut self, byte: u8)
        requires
            old(self).wf(),
            old(self)@.len() < 32,
        ensures
            final(self).wf(),
            final(self)@ == pushed(old(self)@, byte),
    {
        if byte == 0 {
            self.buffer = Vec::new();
        } else {
            self.buffer.push(byte);
            proof {
                assert(!self.buffer@.contains(0)) by {
                    if self.buffer@.contains(0) {
                        let k = choose|k: int|
                            0 <= k < self.buffer@.len() && self.buffer@[k] == 0;
                        assert(old(self).buffer@[k] == 0);
                    }
                }
            }
        }
    }

    /// Decodes a complete frame.
    pub fn decode(&self) -> (r: Result<Vec<u8>, FrameError>)
        requires
            self.wf(),
            self@.len() == 32,
        ensures
            match r {
                Ok(msg) => frame_contents(self@) == Some(msg@) && msg@.len() == 30,
                Err(FrameError::Malformed(_)) => cobs_decoded(self@) is None,
                Err(FrameError::ChecksumMismatch) => cobs_decoded(self@) is Some && frame_contents(
                    self@,
                ) is None,
            },
    {
        match decode_vec(self.buffer.as_slice()) {
            Ok(decoded) => match remove_checksum(decoded) {
                Some(msg) => Ok(msg),
                None => Err(FrameError::ChecksumMismatch),
            },
            Err(e) => Err(FrameError::Malformed(e)),
        }
    }
}

/// Tests whether a deadline has passed.
pub fn timed_out(deadline: Option<Instant>, now: Instant) -> (b: bool)
    ensures
        b == is_late(deadline, now),
{
    match deadline {
        Some(d) => d.nanos < now.nanos,
        None => false,
    }
}

// ======== Reading a whole message ========

/// What came of reading one byte.
#[derive(Debug)]
pub enum ReadOutcome<E> {
    Byte(u8),
    /// No byte is available right now.
    TimedOut,
    Failed(E),
}

/// Why no message was read.
#[derive(Debug)]
pub enum ReadError<E> {
    /// The deadline has passed.
    TimedOut,
    Failed(E),
    Frame(FrameError),
}

/// How to go on reading a message.
#[derive(Debug)]
pub enum ReadStep<E> {
    /// Read one more byte.
    Read,
    Done(Result<Vec<u8>, ReadError<E>>),
}

/// Whether a deadline has passed.
pub open spec fn is_late(deadline: Option<Instant>, now: Instant) -> bool {
    deadline is Some && deadline->0.nanos < now.nanos
}

/// The decision on the next byte. A complete frame is decoded, even if it is late.
pub open spec fn decided<E>(
    buffer: Seq<u8>,
    deadline: Option<Instant>,
    now: Instant,
    step: ReadStep<E>,
) -> bool {
    if buffer.len() == 32 {
        match step {
            ReadStep::Done(Ok(msg)) => frame_contents(buffer) == Some(msg@) && msg@.len() == 30,
            ReadStep::Done(Err(ReadError::Frame(FrameError::Malformed(_)))) => cobs_decoded(
                buffer,
            ) is None,
            ReadStep::Done(Err(ReadError::Frame(FrameError::ChecksumMismatch))) => cobs_decoded(
                buffer,
            ) is Some && frame_contents(buffer) is None,
            _ => false,
        }
    } else if is_late(deadline, now) {
        step matches ReadStep::Done(Err(ReadError::TimedOut))
    } else {
        step is Read
    }
}

/// The effect of reading a byte: one that is not available yet is waited for, any other failure ends
/// the message.
pub open spec fn read_on<E>(
    before: Seq<u8>,
    outcome: ReadOutcome<E>,
    deadline: Option<Instant>,
    now: Instant,
    step: ReadStep<E>,
    after: Seq<u8>,
) -> bool {
    match outcome {
        ReadOutcome::Byte(byte) => after == pushed(before, byte) && decided(
            after,
            deadline,
            now,
            step,
        ),
        ReadOutcome::TimedOut => after == before && decided(after, deadline, now, step),
        ReadOutcome::Failed(error) => {
            &&& after == before
            &&& step matches ReadStep::Done(Err(ReadError::Failed(e)))
            &&& e == error
        },
    }
}

impl FrameReader {
    /// Decides whether to read a byte.
    pub fn next_step<E>(&self, deadline: Option<Instant>, now: Instant) -> (step: ReadStep<E>)
        requires
            self.wf(),
        ensures
            decided(self@, deadline, now, step),
    {
        if self.is_complete() {
            match self.decode() {
                Ok(msg) => ReadStep::Done(Ok(msg)),
                Err(e) => ReadStep::Done(Err(ReadError::Frame(e))),
            }
        } else if timed_out(deadline, now) {
            ReadStep::Done(Err(ReadError::TimedOut))
        } else {
            ReadStep::Read
        }
    }

    /// Takes the outcome of reading a byte, and decides how to go on.
    pub fn after_read<E>(
        &mut self,
        outcome: ReadOutcome<E>,
        deadline: Option<Instant>,
        now: Instant,
    ) -> (step: ReadStep<E>)
        requires
            old(self).wf(),
            old(self)@.len() < 32,
        ensures
            final(self).wf(),
            read_on(old(self)@, outcome, deadline, now, step, final(self)@),
    {
        match outcome {
            ReadOutcome::Byte(byte) => {
                self.push(byte);
                self.next_step(deadline, now)
            },
            // No data available right now, retry
            ReadOutcome::TimedOut => self.next_step(deadline, now),
            ReadOutcome::Failed(e) => ReadStep::Done(Err(ReadError::Failed(e))),
        }
    }
}

/// The bytes among some outcomes.
pub open spec fn bytes_read<E>(outcomes: Seq<ReadOutcome<E>>) -> Seq<u8>
    decreases outcomes.len(),
{
    if outcomes.len() == 0 {
        Seq::empty()
    } else {
        match outcomes.last() {
            ReadOutcome::Byte(byte) => bytes_read(outcomes.drop_last()).push(byte),
            _ => bytes_read(outcomes.drop_last()),
        }
    }
}

/// A new reader takes the outcomes of some reads. `times[i]` is the time of step `i`.
pub open spec fn read_run<E>(
    buffers: Seq<Seq<u8>>,
    outcomes: Seq<ReadOutcome<E>>,
    deadline: Option<Instant>,
    times: Seq<Instant>,
    steps: Seq<ReadStep<E>>,
) -> bool {
    &&& buffers.len() == outcomes.len() + 1
    &&& times.len() == outcomes.len() + 1
    &&& steps.len() == outcomes.len() + 1
    &&& buffers[0] == Seq::<u8>::empty()
    &&& decided(buffers[0], deadline, times[0], steps[0])
    &&& forall|i: int| 0 <= i < outcomes.len() ==> (#[trigger] steps[i]) is Read
    &&& forall|i: int|
        0 <= i < outcomes.len() ==> read_on(
            buffers[i],
            #[trigger] outcomes[i],
            deadline,
            times[i + 1],
            steps[i + 1],
            buffers[i + 1],
        )
}

/// A message is read byte by byte until a frame is complete: the bytes that were available since the
/// last delimiter. Reading ends earlier if the deadline passes, or with the first failure other than
/// that no byte is available, and that failure is returned.
pub proof fn law_message_is_read<E>(
    buffers: Seq<Seq<u8>>,
    outcomes: Seq<ReadOutcome<E>>,
    deadline: Option<Instant>,
    times: Seq<Instant>,
    steps: Seq<ReadStep<E>>,
)
    requires
        read_run(buffers, outcomes, deadline, times, steps),
    ensures
        buffers.last() == pushed_all(Seq::empty(), bytes_read(outcomes)),
        buffers.last().len() <= 32,
        forall|i: int|
            0 <= i < outcomes.len() ==> buffers[i].len() < 32 && !is_late(deadline, times[i]) && ((
            #[trigger] outcomes[i]) is Failed ==> i == outcomes.len() - 1),
        outcomes.len() > 0 && outcomes.last() is Failed ==> (steps.last() matches ReadStep::Done(
            Err(ReadError::Failed(e)),
        ) && e == outcomes.last()->Failed_0),
        outcomes.len() == 0 || outcomes.last() !is Failed ==> decided(
            pushed_all(Seq::empty(), bytes_read(outcomes)),
            deadline,
            times.last(),
            steps.last(),
        ),
    decreases outcomes.len(),
{
    if outcomes.len() > 0 {
        let n = outcomes.len() - 1;
        let init = outcomes.drop_last();
        let buffers0 = buffers.drop_last();
        let times0 = times.drop_last();
        let steps0 = steps.drop_last();
        assert forall|i: int| 0 <= i < init.len() implies (#[trigger] steps0[i]) is Read by {
            assert(steps0[i] == steps[i]);
        }
        assert forall|i: int| 0 <= i < init.len() implies read_on(
            buffers0[i],
            #[trigger] init[i],
            deadline,
            times0[i + 1],
            steps0[i + 1],
            buffers0[i + 1],
        ) by {
            assert(outcomes[i] == init[i]);
        }
        assert(buffers0[0] == buffers[0] && times0[0] == times[0] && steps0[0] == steps[0]);
        law_message_is_read(buffers0, init, deadline, times0, steps0);
        assert(read_on(
            buffers[n],
            outcomes[n],
            deadline,
            times[n + 1],
            steps[n + 1],
            buffers[n + 1],
        ));
        assert(steps0.last() == steps[n] && times0.last() == times[n] && buffers0.last()
            == buffers[n]);
        if let ReadOutcome::Byte(byte) = outcomes[n] {
            let bytes = bytes_read(outcomes);
            assert(bytes.drop_last() =~= bytes_read(init));
        }
        assert forall|i: int| 0 <= i < outcomes.len() implies buffers[i].len() < 32 && !is_late(
            deadline,
            times[i],
        ) && ((#[trigger] outcomes[i]) is Failed ==> i == outcomes.len() - 1) by {
            if i < n {
                assert(init[i] == outcomes[i]);
                assert(buffers0[i] == buffers[i] && times0[i] == times[i]);
                if init[i] is Failed {
                    assert(i == init.len() - 1);
                    assert(steps[n] !is Read);
                }
            }
        }
    }
}

/// If the available bytes end in a delimiter and a frame, its message is returned, whatever came
/// before, and however often no byte was available.
pub proof fn law_framed_message_is_read<E>(
    buffers: Seq<Seq<u8>>,
    outcomes: Seq<ReadOutcome<E>>,
    deadline: Option<Instant>,
    times: Seq<Instant>,
    steps: Seq<ReadStep<E>>,
    earlier: Seq<u8>,
    body: Seq<u8>,
    msg: Seq<u8>,
)
    requires
        read_run(buffers, outcomes, deadline, times, steps),
        outcomes.len() == 0 || outcomes.last() !is Failed,
        bytes_read(outcomes) == earlier + (seq![0u8] + body),
        body.len() == 32,
        carries_packet(body, msg),
    ensures
        steps.last() matches ReadStep::Done(Ok(read)) && read@ == msg,
{
    law_message_is_read(buffers, outcomes, deadline, times, steps);
    lemma_pushed_all_split(Seq::empty(), earlier, seq![0u8] + body);
    law_frame_is_read(pushed_all(Seq::empty(), earlier), body, msg);
}

proof fn lemma_pushed_all_split(buffer: Seq<u8>, a: Seq<u8>, b: Seq<u8>)
    ensures
        pushed_all(buffer, a + b) == pushed_all(pushed_all(buffer, a), b),
    decreases b.len(),
{
    if b.len() == 0 {
        assert(a + b =~= a);
    } else {
        lemma_pushed_all_split(buffer, a, b.drop_last());
        assert((a + b).drop_last() =~= a + b.drop_last());
    }
}

/// Whatever was read before, a delimiter and the bytes of a frame give the message in the frame.
pub proof fn law_frame_is_read(buffer: Seq<u8>, body: Seq<u8>, msg: Seq<u8>)
    requires
        carries_packet(body, msg),
    ensures
        pushed_all(buffer, seq![0u8] + body) == body,
        frame_contents(pushed_all(buffer, seq![0u8] + body)) == Some(msg),
{
    lemma_pushed_after_delimiter(buffer, body);
    law_checksum_round_trip(msg);
    assert(cobs_decoded(body) == Some(with_checksum(msg)));
}

/// What is written for a command packet is read as a message whose packet is the same, whatever was
/// read before.
pub proof fn law_command_arrives(buffer: Seq<u8>, body: Seq<u8>, packet: Seq<u8>)
    requires
        carries_packet(body, seq![0u8] + packet),
    ensures
        frame_contents(pushed_all(buffer, seq![0u8] + body)) is Some,
        frame_contents(pushed_all(buffer, seq![0u8] + body))->0.skip(1) == packet,
{
    law_frame_is_read(buffer, body, seq![0u8] + packet);
    assert((seq![0u8] + packet).skip(1) =~= packet);
}

proof fn lemma_pushed_after_delimiter(buffer: Seq<u8>, body: Seq<u8>)
    requires
        !body.contains(0),
    ensures
        pushed_all(buffer, seq![0u8] + body) == body,
    decreases body.len(),
{
    let all = seq![0u8] + body;
    if body.len() == 0 {
        assert(all =~= seq![0u8]);
        assert(pushed_all(buffer, all) =~= Seq::<u8>::empty());
    } else {
        let init = body.drop_last();
        assert(all.drop_last() =~= seq![0u8] + init);
        assert(!init.contains(0)) by {
            if init.contains(0) {
                let k = choose|k: int| 0 <= k < init.len() && init[k] == 0;
                assert(body[k] == 0);
            }
        }
        lemma_pushed_after_delimiter(buffer, init);
        assert(body.contains(body.last()));
        assert(init.push(body.last()) =~= body);
    }
}

// ======== Statistics ========

/// The average response time of the robot, and how many responses it sends.
#[derive(Clone, Copy, Debug, PartialEq, Eq, Structural)]
pub struct RttMonitor {
    pub average: Duration,
    pub count: u32,
    pub last_report: Instant,
}

impl RttMonitor {
    pub fn new(now: Instant) -> (m: RttMonitor)
        ensures
            m.average.nanos == 0,
            m.count == 0,
            m.last_report == now,
    {
        RttMonitor { average: Duration { nanos: 0 }, count: 0, last_report: now }
    }

    /// The average after one more response.
    pub open spec fn averaged(&self, rtt: Duration) -> int {
        (19 * self.average.nanos + rtt.nanos) / 20
    }

    /// The effect of a response.
    pub open spec fn measured(
        before: RttMonitor,
        rtt: Duration,
        now: Instant,
        report: Option<(Duration, u32)>,
        after: RttMonitor,
    ) -> bool {
        &&& after.average.nanos == before.averaged(rtt)
        &&& if now.nanos > before.last_report.nanos + 1_000_000_000 {
            &&& report == Some((after.average, (before.count + 1) as u32))
            &&& after.count == 0
            &&& after.last_report == now
        } else {
            &&& report is None
            &&& after.count == before.count + 1
            &&& after.last_report == before.last_report
        }
    }

    /// Takes the response time of one response. Once a second it returns the average and the number
    /// of responses since the last time.
    pub fn response(&mut self, rtt: Duration, now: Instant) -> (report: Option<(Duration, u32)>)
        requires
            old(self).count < i32::MAX,
        ensures
            Self::measured(*old(self), rtt, now, report, *final(self)),
    {
        self.count = self.count + 1;
        let sum: u128 = 19u128 * (self.average.nanos as u128) + rtt.nanos as u128;
        self.average = Duration { nanos: (sum / 20u128) as u64 };
        if now.saturating_duration_since(self.last_report).nanos > Duration::from_secs(1).nanos {
            let report: (Duration, u32) = (self.average, self.count);
            self.count = 0;
            self.last_report = now;
            Some(report)
        } else {
            None
        }
    }
}

// ======== Discovery ========

/// What to do with the beacon multicast groups.
#[derive(Clone, Copy, Debug, PartialEq, Eq, Structural)]
pub enum GroupAction {
    Join,
    Leave,
    Keep,
}

/// The membership in the beacon multicast groups.
#[derive(Clone, Copy, Debug, PartialEq, Eq, Structural)]
pub struct GroupMembership {
    pub joined: bool,
}

impl GroupMembership {
    /// The decision on the groups.
    pub open spec fn updated(
        before: GroupMembership,
        idle: bool,
        action: GroupAction,
        after: GroupMembership,
    ) -> bool {
        &&& action == (if idle {
            GroupAction::Join
        } else if before.joined {
            GroupAction::Leave
        } else {
            GroupAction::Keep
        })
        &&& after.joined == idle
    }

    /// Decides what to do: the groups are joined again and again while nobody is commanding, to
    /// take in new interfaces, and left once as soon as somebody is.
    pub fn update(&mut self, idle: bool) -> (action: GroupAction)
        ensures
            Self::updated(*old(self), idle, action, *final(self)),
    {
        if idle {
            self.joined = true;
            GroupAction::Join
        } else if self.joined {
            self.joined = false;
            GroupAction::Leave
        } else {
            GroupAction::Keep
        }
    }
}

// ======== Laws of the bridge ========

/// Some command packets reach the bridge. `packets[i]` has its sender and the time.
pub open spec fn command_run(
    states: Seq<CommandSource>,
    packets: Seq<(SocketAddr, Instant)>,
    results: Seq<Arbitration>,
) -> bool {
    &&& states.len() == packets.len() + 1
    &&& results.len() == packets.len()
    &&& forall|i: int|
        0 <= i < packets.len() ==> CommandSource::arbitrates(
            states[i],
            (#[trigger] packets[i]).0,
            packets[i].1,
            results[i],
            states[i + 1],
        )
}

/// After a packet was obeyed, its sender commands: until the next packet is obeyed, the packets of
/// all others are ignored for a second, and the packets of the sender are obeyed. Whoever sends a
/// packet later than that takes over.
pub proof fn law_hosts_take_turns(
    states: Seq<CommandSource>,
    packets: Seq<(SocketAddr, Instant)>,
    results: Seq<Arbitration>,
    i: int,
    j: int,
)
    requires
        command_run(states, packets, results),
        0 <= i < j < packets.len(),
        results[i] !is Ignored,
        forall|k: int| i < k < j ==> results[k] is Ignored,
    ensures
        states[i + 1].addr == Some(packets[i].0),
        ({
            let in_time = packets[j].1.nanos <= packets[i].1.nanos + 1_000_000_000;
            &&& !in_time ==> results[j] is NewConnection
            &&& in_time && packets[j].0 == packets[i].0 ==> results[j] is Continued
            &&& in_time && packets[j].0 != packets[i].0 ==> results[j] is Ignored
        }),
{
    assert(CommandSource::arbitrates(
        states[i],
        packets[i].0,
        packets[i].1,
        results[i],
        states[i + 1],
    ));
    lemma_ignored_packets(states, packets, results, i + 1, j);
    assert(CommandSource::arbitrates(
        states[j],
        packets[j].0,
        packets[j].1,
        results[j],
        states[j + 1],
    ));
}

proof fn lemma_ignored_packets(
    states: Seq<CommandSource>,
    packets: Seq<(SocketAddr, Instant)>,
    results: Seq<Arbitration>,
    i: int,
    j: int,
)
    requires
        command_run(states, packets, results),
        0 <= i <= j < packets.len(),
        forall|k: int| i <= k < j ==> results[k] is Ignored,
    ensures
        states[j] == states[i],
    decreases j - i,
{
    if i < j {
        lemma_ignored_packets(states, packets, results, i, j - 1);
        assert(CommandSource::arbitrates(
            states[j - 1],
            packets[j - 1].0,
            packets[j - 1].1,
            results[j - 1],
            states[j],
        ));
    }
}

/// Reading a message ends with a timeout only after the deadline, and goes on until then.
pub proof fn law_deadline_is_kept<E>(
    buffer: Seq<u8>,
    deadline: Option<Instant>,
    now: Instant,
    step: ReadStep<E>,
)
    requires
        decided(buffer, deadline, now, step),
        buffer.len() < 32,
    ensures
        deadline is None ==> step is Read,
        deadline is Some && now.nanos <= deadline->0.nanos ==> step is Read,
        deadline is Some && now.nanos > deadline->0.nanos ==> (step matches ReadStep::Done(
            Err(ReadError::TimedOut),
        )),
{
}

/// A complete frame gives its message without the last byte, if that is the exclusive or of the
/// others, and an error if not.
pub proof fn law_frame_is_checked<E>(
    frame: Seq<u8>,
    deadline: Option<Instant>,
    now: Instant,
    step: ReadStep<E>,
    data: Seq<u8>,
)
    requires
        decided(frame, deadline, now, step),
        frame.len() == 32,
        cobs_decoded(frame) == Some(data),
        data.len() > 0,
    ensures
        parity(data) == 0 ==> (step matches ReadStep::Done(Ok(msg)) && msg@ == data.drop_last()),
        parity(data) != 0 ==> (step matches ReadStep::Done(
            Err(ReadError::Frame(FrameError::ChecksumMismatch)),
        )),
{
    law_checksum_is_parity(data);
}

/// What the average becomes after one more response: 19 parts of the old one and one part of the
/// time of the response, rounded down. A report comes if the last one is more than a second old.
pub proof fn law_response_is_averaged(
    before: RttMonitor,
    rtt: Duration,
    now: Instant,
    report: Option<(Duration, u32)>,
    after: RttMonitor,
)
    requires
        RttMonitor::measured(before, rtt, now, report, after),
    ensures
        20 * after.average.nanos <= 19 * before.average.nanos + rtt.nanos < 20
            * after.average.nanos + 20,
        report is Some <==> now.nanos - before.last_report.nanos > 1_000_000_000,
        report is Some ==> (report->0).0 == after.average && after.last_report == now,
        report is None ==> after.last_report == before.last_report,
{
}

/// The responses in all reports.
pub open spec fn reported(reports: Seq<Option<(Duration, u32)>>) -> int
    decreases reports.len(),
{
    if reports.len() == 0 {
        0
    } else {
        reported(reports.drop_last()) + match reports.last() {
            Some((_, count)) => count as int,
            None => 0,
        }
    }
}

/// Every response is counted in exactly one report, or waits for the next one.
pub proof fn law_responses_are_counted(
    states: Seq<RttMonitor>,
    times: Seq<(Duration, Instant)>,
    reports: Seq<Option<(Duration, u32)>>,
)
    requires
        states.len() == times.len() + 1,
        reports.len() == times.len(),
        states[0].count == 0,
        forall|i: int| 0 <= i < times.len() ==> (#[trigger] states[i]).count < i32::MAX,
        forall|i: int|
            0 <= i < times.len() ==> RttMonitor::measured(
                states[i],
                (#[trigger] times[i]).0,
                times[i].1,
                reports[i],
                states[i + 1],
            ),
    ensures
        reported(reports) + states.last().count == times.len(),
    decreases times.len(),
{
    if times.len() > 0 {
        let n = times.len() - 1;
        let states0 = states.drop_last();
        let times0 = times.drop_last();
        let reports0 = reports.drop_last();
        assert forall|i: int| 0 <= i < times0.len() implies RttMonitor::measured(
            states0[i],
            (#[trigger] times0[i]).0,
            times0[i].1,
            reports0[i],
            states0[i + 1],
        ) by {
            assert(times0[i] == times[i]);
        }
        law_responses_are_counted(states0, times0, reports0);
        assert(states0.last() == states[n]);
        assert(RttMonitor::measured(
            states[n],
            times[n].0,
            times[n].1,
            reports[n],
            states[n + 1],
        ));
    }
}

/// The groups are joined whenever nobody commands, and left exactly when somebody starts to.
pub proof fn law_groups_follow_idleness(
    states: Seq<GroupMembership>,
    idle: Seq<bool>,
    actions: Seq<GroupAction>,
    i: int,
)
    requires
        states.len() == idle.len() + 1,
        actions.len() == idle.len(),
        !states[0].joined,
        forall|k: int|
            0 <= k < idle.len() ==> GroupMembership::updated(
                states[k],
                #[trigger] idle[k],
                actions[k],
                states[k + 1],
            ),
        0 <= i < idle.len(),
    ensures
        actions[i] is Join <==> idle[i],
        actions[i] is Leave <==> !idle[i] && i > 0 && idle[i - 1],
        actions[i] is Keep <==> !idle[i] && (i == 0 || !idle[i - 1]),
{
    assert(GroupMembership::updated(states[i], idle[i], actions[i], states[i + 1]));
    if i > 0 {
        assert(GroupMembership::updated(states[i - 1], idle[i - 1], actions[i - 1], states[i]));
    }
}

/// A command that is obeyed is written to the robot as a frame that ends with its only zero byte. The
/// frame holds the number of the message, which is 0, the packet, and a byte that makes all of them
/// cancel out. A command that is ignored is not written.
pub proof fn law_command_is_written(packet: Seq<u8>, r: Arbitration, written: Option<Vec<u8>>)
    requires
        CommandSource::writes(packet, r, written),
    ensures
        written is Some <==> r is NewConnection || r is Continued,
        written is Some ==> {
            let bytes = written->0@;
            let held = cobs_decoded(bytes.drop_last());
            &&& bytes.last() == 0
            &&& forall|i: int| 0 <= i < bytes.len() - 1 ==> #[trigger] bytes[i] != 0
            &&& held is Some
            &&& held->0.len() == packet.len() + 2
            &&& held->0[0] == 0
            &&& held->0.subrange(1, 1 + packet.len() as int) == packet
            &&& parity(held->0) == 0
        },
{
    if let Some(written) = written {
        let bytes = written@;
        let body = bytes.drop_last();
        let msg = seq![0u8] + packet;
        law_frame_holds_packet(body, msg);
        let held = cobs_decoded(body)->0;
        assert forall|i: int| 0 <= i < bytes.len() - 1 implies #[trigger] bytes[i] != 0 by {
            assert(body[i] == bytes[i]);
        }
        assert(held[0] == held.take(msg.len() as int)[0]);
        assert(held.subrange(1, 1 + packet.len() as int) =~= packet) by {
            assert forall|i: int| 0 <= i < packet.len() implies held[1 + i] == packet[i] by {
                assert(held.take(msg.len() as int)[1 + i] == msg[1 + i]);
            }
        }
    }
}

/// A message of the robot goes to the commanding host, without its number. Without such a host it goes
/// nowhere.
pub proof fn law_response_is_relayed(
    source: CommandSource,
    msg: Seq<u8>,
    r: Option<(SocketAddr, Vec<u8>)>,
)
    requires
        msg.len() >= 1,
        CommandSource::relays(source, msg, r),
    ensures
        r is Some <==> source.addr is Some,
        r is Some ==> {
            &&& (r->0).0 == source.addr->0
            &&& (r->0).1@.len() == msg.len() - 1
            &&& forall|i: int| 0 <= i < msg.len() - 1 ==> #[trigger] (r->0).1@[i] == msg[i + 1]
        },
{
}

// ======== Laws of messages ========

/// A robot is asked for its id by a message with the number 1 and nothing else in it, as long as a
/// message with a packet, and answers with the same number and its id.
pub proof fn law_robot_id_is_asked(request: Vec<u8>, response: &[u8], r: Result<u8, u8>)
    requires
        call_ensures(robot_id_request, (), request),
        response@.len() >= 2,
        call_ensures(robot_id_response, (response,), r),
    ensures
        request@.len() == 30,
        request@[0] == 1,
        forall|i: int| 0 < i < request@.len() ==> #[trigger] request@[i] == 0,
        response@[0] == request@[0] ==> r is Ok && r->Ok_0 == response@[1],
        response@[0] != request@[0] ==> r is Err && r->Err_0 == response@[0],
{
}

/// A packet comes out of the message that it was put into.
pub proof fn law_message_holds_packet(packet: &[u8], msg: Vec<u8>, taken: &[u8], out: Vec<u8>)
    requires
        call_ensures(packet_message, (packet,), msg),
        taken@ == msg@,
        call_ensures(forwarded, (taken,), out),
    ensures
        msg@.len() == packet@.len() + 1,
        msg@[0] == 0,
        out@ == packet@,
{
    assert(out@ =~= packet@);
}

} // verus!
