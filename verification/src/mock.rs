//! A stand-in for a robot that answers every command packet.

use crate::bridge::PACKET_SIZE;
use crate::utils::text::{is_digit, parse_unsigned, parsed};
use vstd::prelude::*;

verus! {

// ======== Id ========

/// The decimal digits at the end of a text.
pub open spec fn trailing_digits(s: Seq<u8>) -> Seq<u8>
    decreases s.len(),
{
    if s.len() > 0 && is_digit(s.last()) {
        trailing_digits(s.drop_last()).push(s.last())
    } else {
        Seq::empty()
    }
}

/// Makes a robot id of the digits at the end of a host name (pi10 -> 10).
pub fn hostname_id(hostname: &[u8]) -> (id: Option<u8>)
    ensures
        match id {
            Some(id) => parsed(trailing_digits(hostname@), 255) == Some(id as nat),
            None => parsed(trailing_digits(hostname@), 255) is None,
        },
{
    let mut start: usize = hostname.len();
    proof {
        assert(hostname@.take(hostname@.len() as int) =~= hostname@);
        assert(trailing_digits(hostname@.take(start as int)) + hostname@.skip(start as int)
            =~= trailing_digits(hostname@));
    }
    while start > 0 && 48 <= hostname[start - 1] && hostname[start - 1] <= 57
        invariant
            start <= hostname@.len(),
            trailing_digits(hostname@) == trailing_digits(hostname@.take(start as int))
                + hostname@.skip(start as int),
        decreases start,
    {
        proof {
            let head = hostname@.take(start as int);
            assert(head.drop_last() =~= hostname@.take(start - 1));
            assert(trailing_digits(head.drop_last()).push(head.last()) + hostname@.skip(
                start as int,
            ) =~= trailing_digits(head.drop_last()) + hostname@.skip(start - 1));
        }
        start = start - 1;
    }
    let digits: &[u8] = vstd::slice::slice_subrange(hostname, start, hostname.len());
    proof {
        let head = hostname@.take(start as int);
        if start > 0 {
            assert(head.last() == hostname@[start - 1]);
        }
        assert(digits@ =~= hostname@.skip(start as int));
        assert(trailing_digits(head) =~= Seq::<u8>::empty());
        assert(trailing_digits(hostname@) =~= digits@);
    }
    match parse_unsigned(digits, 255) {
        Some(id) => Some(id as u8),
        None => None,
    }
}

/// Makes a robot id of the time, where the host name has none.
pub fn fallback_id(millis: u128) -> (id: u8)
    ensures
        id == millis % 16,
{
    (millis % 16) as u8
}

// ======== Packet loss ========

/// How many packets the packet loss is measured over.
pub const LOSS_WINDOW: usize = 100;

/// The counter in the header of a packet: (lsb)[counter: 6bits][acknumber: 1bit][datagram: 1bit].
pub open spec fn counter_of(header: u8) -> u8 {
    header % 64
}

/// How many packets were sent since the last one that was received.
pub open spec fn counter_diff(last: u8, counter: u8) -> int {
    (counter - last) % 64
}

/// The history after a packet was received, latest first. The packets that were skipped are lost.
pub open spec fn recorded(history: Seq<bool>, diff: int) -> Seq<bool> {
    if diff > 0 {
        (seq![true] + Seq::new((diff - 1) as nat, |i: int| false) + history).take(100)
    } else {
        history
    }
}

/// How many packets are missing.
pub open spec fn missing(history: Seq<bool>) -> nat
    decreases history.len(),
{
    if history.len() == 0 {
        0
    } else {
        missing(history.drop_last()) + (if history.last() {
            0nat
        } else {
            1
        })
    }
}

/// Which of the last packets were received.
#[derive(Debug)]
pub struct LossHistory {
    received: Vec<bool>,
    last_counter: u8,
}

impl LossHistory {
    /// Whether each of the last packets was received, latest first.
    pub closed spec fn view(&self) -> Seq<bool> {
        self.received@
    }

    pub closed spec fn last_counter(&self) -> u8 {
        self.last_counter
    }

    pub closed spec fn wf(&self) -> bool {
        &&& self.received@.len() == 100
        &&& self.last_counter < 64
    }

    /// Starts with all packets missing.
    pub fn new() -> (h: LossHistory)
        ensures
            h.wf(),
            h.last_counter() == 0,
            h@ == Seq::new(100, |i: int| false),
    {
        let mut received: Vec<bool> = Vec::new();
        while received.len() < LOSS_WINDOW
            invariant
                received@.len() <= 100,
                forall|i: int| 0 <= i < received@.len() ==> !(#[trigger] received@[i]),
            decreases 100 - received@.len(),
        {
            received.push(false);
        }
        proof {
            assert(received@ =~= Seq::new(100, |i: int| false));
        }
        LossHistory { received, last_counter: 0 }
    }

    /// Takes the header of a packet that was received.
    pub fn record(&mut self, header: u8)
        requires
            old(self).wf(),
        ensures
            final(self).wf(),
            final(self).last_counter() == counter_of(header),
            final(self)@ == recorded(
                old(self)@,
                counter_diff(old(self).last_counter(), counter_of(header)),
            ),
    {
        let counter: u8 = header % 64;
        let diff: u8 = if counter >= self.last_counter {
            counter - self.last_counter
        } else {
            64 - (self.last_counter - counter)
        };
        self.last_counter = counter;
        if diff == 0 {
            return ;
        }
        let ghost lost = seq![true] + Seq::new((diff - 1) as nat, |i: int| false);
        let mut received: Vec<bool> = Vec::new();
        received.push(true);
        while received.len() < diff as usize
            invariant
                0 < diff < 64,
                1 <= received@.len() <= diff,
                lost == seq![true] + Seq::new((diff - 1) as nat, |i: int| false),
                received@ == lost.take(received@.len() as int),
            decreases diff - received@.len(),
        {
            received.push(false);
            proof {
                let n = received@.len() as int;
                assert(lost.take(n) =~= lost.take(n - 1).push(lost[n - 1]));
            }
        }
        let ghost all = lost + old(self)@;
        let mut i: usize = 0;
        proof {
            assert(received@ =~= all.take(received@.len() as int));
        }
        while received.len() < LOSS_WINDOW
            invariant
                0 < diff < 64,
                lost.len() == diff,
                all == lost + old(self)@,
                self.received@ == old(self)@,
                self.received@.len() == 100,
                received@.len() == diff + i,
                received@.len() <= 100,
                received@ == all.take(received@.len() as int),
            decreases 100 - received@.len(),
        {
            received.push(self.received[i]);
            i = i + 1;
            proof {
                let n = received@.len() as int;
                assert(all.take(n) =~= all.take(n - 1).push(all[n - 1]));
            }
        }
        self.received = received;
    }

    /// How many of the last packets are missing.
    pub fn missing(&self) -> (n: u8)
        requires
            self.wf(),
        ensures
            n == missing(self@),
            n <= 100,
    {
        let mut n: u8 = 0;
        let mut i: usize = 0;
        while i < self.received.len()
            invariant
                self.wf(),
                i <= self.received@.len(),
                n <= i <= 100,
                n == missing(self.received@.take(i as int)),
            decreases self.received@.len() - i,
        {
            proof {
                assert(self.received@.take(i + 1).drop_last() =~= self.received@.take(i as int));
            }
            if !self.received[i] {
                n = n + 1;
            }
            i = i + 1;
        }
        proof {
            assert(self.received@.take(i as int) =~= self.received@);
        }
        n
    }
}

/// Packets that arrive without a gap fill the history: after as many of them as the window holds
/// there is no loss.
pub proof fn law_no_loss_without_gaps(history: Seq<bool>, n: nat)
    requires
        history.len() == 100,
    ensures
        n >= 100 ==> missing(without_gaps(history, n)) == 0,
        forall|i: int| 0 <= i < n && i < 100 ==> #[trigger] without_gaps(history, n)[i],
        without_gaps(history, n).len() == 100,
    decreases n,
{
    if n > 0 {
        let before = without_gaps(history, (n - 1) as nat);
        law_no_loss_without_gaps(history, (n - 1) as nat);
        let none = Seq::new(0, |i: int| false);
        let now = without_gaps(history, n);
        assert forall|i: int| 0 <= i < n && i < 100 implies #[trigger] now[i] by {
            if i > 0 {
                assert((seq![true] + none + before)[i] == before[i - 1]);
            }
        }
    }
    if n >= 100 {
        lemma_none_missing(without_gaps(history, n));
    }
}

/// The history after `n` packets without a gap.
pub open spec fn without_gaps(history: Seq<bool>, n: nat) -> Seq<bool>
    decreases n,
{
    if n == 0 {
        history
    } else {
        recorded(without_gaps(history, (n - 1) as nat), 1)
    }
}

proof fn lemma_none_missing(history: Seq<bool>)
    requires
        forall|i: int| 0 <= i < history.len() ==> #[trigger] history[i],
    ensures
        missing(history) == 0,
    decreases history.len(),
{
    if history.len() > 0 {
        lemma_none_missing(history.drop_last());
    }
}

// ======== Response ========

/// The packet loss as it is sent: 255 stands for a loss of everything.
pub fn loss_byte(missing: u8) -> (b: u8)
    requires
        missing <= 100,
    ensures
        b == missing * 255 / 100,
{
    (missing as u32 * 255 / 100) as u8
}

/// Whether `packet` is the response to a packet.
pub open spec fn responds(header: u8, missing: u8, packet: Seq<u8>) -> bool {
    &&& packet.len() == 29
    &&& packet[0] == counter_of(header)
    &&& packet[2] == missing * 255 / 100
    &&& forall|i: int| 0 <= i < 29 && i != 0 && i != 2 ==> #[trigger] packet[i] == 0
}

/// The response to a packet: its counter, and the packet loss in the third byte.
pub fn response(header: u8, missing: u8) -> (packet: Vec<u8>)
    requires
        missing <= 100,
    ensures
        responds(header, missing, packet@),
{
    let mut packet: Vec<u8> = Vec::new();
    while packet.len() < PACKET_SIZE
        invariant
            packet@.len() <= 29,
            forall|i: int| 0 <= i < packet@.len() ==> #[trigger] packet@[i] == 0,
        decreases 29 - packet@.len(),
    {
        packet.push(0);
    }
    packet.set(0, header % 64);
    packet.set(2, loss_byte(missing));
    packet
}

// ======== Laws of the mock robot ========

/// The digits at the end of a host name: all of them, and nothing else.
pub proof fn law_host_name(name: Seq<u8>, digits: Seq<u8>)
    requires
        forall|i: int| 0 <= i < digits.len() ==> 48 <= #[trigger] digits[i] <= 57,
        name.len() > 0 ==> !(48 <= name.last() <= 57),
    ensures
        trailing_digits(name + digits) == digits,
    decreases digits.len(),
{
    let all = name + digits;
    if digits.len() > 0 {
        let init = digits.drop_last();
        assert forall|i: int| 0 <= i < init.len() implies 48 <= #[trigger] init[i] <= 57 by {
            assert(init[i] == digits[i]);
        }
        law_host_name(name, init);
        assert(48 <= digits[digits.len() - 1] <= 57);
        assert(all.last() == digits.last());
        assert(all.drop_last() =~= name + init);
        assert(init.push(digits.last()) =~= digits);
    } else {
        assert(all =~= name);
        assert(trailing_digits(all) =~= digits);
    }
}

/// The number of packets between two counters of 6 bits: so many steps lead from one to the other.
pub proof fn law_counter_steps(last: u8, header: u8)
    requires
        last < 64,
    ensures
        0 <= counter_diff(last, counter_of(header)) < 64,
        (last + counter_diff(last, counter_of(header))) % 64 == header % 64,
{
}

/// A packet `diff` steps after the last one is the latest of the history, behind it are the packets
/// in between, which were lost, and behind them the history before. A repeated packet changes
/// nothing.
pub proof fn law_loss_history(history: Seq<bool>, diff: int)
    requires
        history.len() == 100,
        0 <= diff < 64,
    ensures
        recorded(history, diff).len() == 100,
        diff == 0 ==> recorded(history, diff) == history,
        diff > 0 ==> recorded(history, diff)[0],
        forall|i: int| 0 < i < diff ==> !(#[trigger] recorded(history, diff)[i]),
        forall|i: int|
            diff > 0 && diff <= i < 100 ==> #[trigger] recorded(history, diff)[i] == history[i
                - diff],
{
}

/// The number of missing packets is that of the packets of the history that were not received.
pub proof fn law_missing(history: Seq<bool>)
    ensures
        missing(history) == history.filter(|received: bool| !received).len(),
        missing(history) <= history.len(),
    decreases history.len(),
{
    reveal(Seq::filter);
    if history.len() > 0 {
        law_missing(history.drop_last());
    }
}

/// The response carries the counter of the packet in its first byte, the loss in parts of 255 in its
/// third one, rounded down, and zeros.
pub proof fn law_response_bytes(header: u8, missing: u8, packet: Seq<u8>)
    requires
        missing <= 100,
        responds(header, missing, packet),
    ensures
        packet.len() == 29,
        packet[0] < 64 && (header - packet[0]) % 64 == 0,
        packet[1] == 0,
        100 * packet[2] <= 255 * missing < 100 * packet[2] + 100,
        forall|i: int| 3 <= i < 29 ==> #[trigger] packet[i] == 0,
{
}

} // verus!
