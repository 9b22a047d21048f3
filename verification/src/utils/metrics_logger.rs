//! Log files with the metrics of each robot.

use crate::time::{Duration, Instant};
use crate::utils::metrics_tracker::MetricsSample;
use crate::utils::text::{
    ascii, ascii_bytes, decimal, format_unsigned, has_prefix, has_suffix, law_parse_format,
    matches_at, parse_unsigned, parsed,
};
use crate::ConnectionDriverEvent;
use std::collections::HashSet;
use vstd::prelude::*;

verus! {

broadcast use vstd::std_specs::hash::group_hash_axioms;

/// The part of a file name before the number.
pub open spec fn name_prefix(robot_id: u8) -> Seq<u8> {
    ascii("robot_"@) + decimal(robot_id as nat) + ascii("_metrics_"@)
}

/// The part of a file name after the number.
pub open spec fn name_suffix() -> Seq<u8> {
    ascii(".csv"@)
}

/// The name of a log file.
pub open spec fn file_name(robot_id: u8, lognum: u32) -> Seq<u8> {
    name_prefix(robot_id) + decimal(lognum as nat) + name_suffix()
}

/// The number in the name of a log file of a robot.
pub open spec fn lognum_in(name: Seq<u8>, robot_id: u8) -> Option<nat> {
    let p = name_prefix(robot_id);
    if has_prefix(name, p) {
        let rest = name.skip(p.len() as int);
        if has_suffix(rest, name_suffix()) {
            parsed(rest.take(rest.len() - name_suffix().len()), u32::MAX as nat)
        } else {
            None
        }
    } else {
        None
    }
}

/// The highest number among the log files of a robot.
pub open spec fn highest(names: Seq<Seq<u8>>, robot_id: u8) -> Option<nat>
    decreases names.len(),
{
    if names.len() == 0 {
        None
    } else {
        let rest = highest(names.drop_last(), robot_id);
        match (rest, lognum_in(names.last(), robot_id)) {
            (Some(a), Some(b)) => Some(if b > a { b } else { a }),
            (None, b) => b,
            (a, None) => a,
        }
    }
}

/// The names of some files, as bytes.
pub open spec fn names_view(names: Seq<Vec<u8>>) -> Seq<Seq<u8>> {
    names.map_values(|n: Vec<u8>| n@)
}

fn prefix_bytes(robot_id: u8) -> (p: Vec<u8>)
    ensures
        p@ == name_prefix(robot_id),
{
    proof {
        reveal_strlit("robot_");
        reveal_strlit("_metrics_");
    }
    let mut p: Vec<u8> = Vec::new();
    p.extend_from_slice(ascii_bytes("robot_"));
    let mut id: Vec<u8> = format_unsigned(robot_id as u64);
    p.append(&mut id);
    p.extend_from_slice(ascii_bytes("_metrics_"));
    proof {
        assert(p@ =~= name_prefix(robot_id));
    }
    p
}

fn suffix_bytes() -> (s: Vec<u8>)
    ensures
        s@ == name_suffix(),
{
    proof {
        reveal_strlit(".csv");
    }
    let mut s: Vec<u8> = Vec::new();
    s.extend_from_slice(ascii_bytes(".csv"));
    proof {
        assert(s@ =~= name_suffix());
    }
    s
}

/// Reads the number from the name of a log file of a robot.
pub fn parse_lognum(name: &[u8], robot_id: u8) -> (n: Option<u32>)
    ensures
        match n {
            Some(n) => lognum_in(name@, robot_id) == Some(n as nat),
            None => lognum_in(name@, robot_id) is None,
        },
{
    let p: Vec<u8> = prefix_bytes(robot_id);
    let s: Vec<u8> = suffix_bytes();
    let starts: bool = matches_at(name, p.as_slice(), 0);
    proof {
        assert(name@.subrange(0, p@.len() as int) =~= name@.take(p@.len() as int));
    }
    if !starts {
        return None;
    }
    let rest: &[u8] = vstd::slice::slice_subrange(name, p.len(), name.len());
    proof {
        assert(rest@ =~= name@.skip(p@.len() as int));
    }
    if rest.len() < s.len() {
        return None;
    }
    let digits_len: usize = rest.len() - s.len();
    let ends: bool = matches_at(rest, s.as_slice(), digits_len);
    proof {
        assert(rest@.subrange(digits_len as int, rest@.len() as int) =~= rest@.skip(
            digits_len as int,
        ));
    }
    if !ends {
        return None;
    }
    let digits: &[u8] = vstd::slice::slice_subrange(rest, 0, digits_len);
    proof {
        assert(digits@ =~= rest@.take(digits_len as int));
    }
    match parse_unsigned(digits, u32::MAX as u64) {
        Some(n) => Some(n as u32),
        None => None,
    }
}

/// Finds the highest existing file number for a robot.
pub fn highest_lognum(names: &Vec<Vec<u8>>, robot_id: u8) -> (n: Option<u32>)
    ensures
        match n {
            Some(n) => highest(names_view(names@), robot_id) == Some(n as nat),
            None => highest(names_view(names@), robot_id) is None,
        },
{
    let mut best: Option<u32> = None;
    let mut i: usize = 0;
    while i < names.len()
        invariant
            i <= names@.len(),
            match best {
                Some(n) => highest(names_view(names@).take(i as int), robot_id) == Some(n as nat),
                None => highest(names_view(names@).take(i as int), robot_id) is None,
            },
        decreases names@.len() - i,
    {
        proof {
            let v = names_view(names@);
            assert(v.take(i + 1).drop_last() =~= v.take(i as int));
            assert(v.take(i + 1).last() == names@[i as int]@);
        }
        if let Some(n) = parse_lognum(names[i].as_slice(), robot_id) {
            best = match best {
                Some(b) => Some(if n > b { n } else { b }),
                None => Some(n),
            };
        }
        i = i + 1;
    }
    proof {
        assert(names_view(names@).take(i as int) =~= names_view(names@));
    }
    best
}

/// The number after the highest one, and 0 if there is none.
pub open spec fn number_after(highest: Option<nat>) -> nat {
    match highest {
        Some(n) => n + 1,
        None => 0,
    }
}

/// The number of the next log file.
pub fn next_lognum(highest_prev_lognum: Option<u32>) -> (n: u32)
    requires
        highest_prev_lognum != Some(u32::MAX),
    ensures
        n == number_after(
            match highest_prev_lognum {
                Some(p) => Some(p as nat),
                None => None,
            },
        ),
{
    match highest_prev_lognum {
        Some(n) => n + 1,
        None => 0,
    }
}

/// The name of a log file.
pub fn format_file_name(robot_id: u8, lognum: u32) -> (name: Vec<u8>)
    ensures
        name@ == file_name(robot_id, lognum),
{
    let mut name: Vec<u8> = prefix_bytes(robot_id);
    let mut n: Vec<u8> = format_unsigned(lognum as u64);
    let mut s: Vec<u8> = suffix_bytes();
    name.append(&mut n);
    name.append(&mut s);
    name
}

/// The name of a log file tells its number.
pub proof fn law_file_name_round_trip(robot_id: u8, lognum: u32)
    ensures
        lognum_in(file_name(robot_id, lognum), robot_id) == Some(lognum as nat),
{
    let p = name_prefix(robot_id);
    let d = decimal(lognum as nat);
    let name = file_name(robot_id, lognum);
    assert(name.take(p.len() as int) =~= p);
    let rest = name.skip(p.len() as int);
    assert(rest =~= d + name_suffix());
    assert(rest.skip(rest.len() - name_suffix().len()) =~= name_suffix());
    assert(rest.take(rest.len() - name_suffix().len()) =~= d);
    law_parse_format(lognum as nat, u32::MAX as nat);
}

proof fn lemma_highest_bound(names: Seq<Seq<u8>>, robot_id: u8, i: int)
    requires
        0 <= i < names.len(),
        lognum_in(names[i], robot_id) is Some,
    ensures
        highest(names, robot_id) is Some,
        lognum_in(names[i], robot_id)->0 <= highest(names, robot_id)->0,
    decreases names.len(),
{
    if i < names.len() - 1 {
        assert(names.drop_last()[i] == names[i]);
        lemma_highest_bound(names.drop_last(), robot_id, i);
    }
}

/// The next log file does not exist yet.
pub proof fn law_next_file_is_new(names: Seq<Seq<u8>>, robot_id: u8, next: u32)
    requires
        next == number_after(highest(names, robot_id)),
    ensures
        !names.contains(file_name(robot_id, next)),
{
    if names.contains(file_name(robot_id, next)) {
        let i = choose|i: int| 0 <= i < names.len() && names[i] == file_name(robot_id, next);
        law_file_name_round_trip(robot_id, next);
        lemma_highest_bound(names, robot_id, i);
    }
}

// ======== Logging ========

/// What has to be done with the log files.
#[derive(Debug, PartialEq, Eq)]
pub enum LogAction {
    /// Create the next log file of a robot and report with [MetricsLogger::file_created].
    Create(u8),
    /// Close the log file of a robot.
    Close(u8),
    /// Write a line to the log file of a robot.
    Write(u8, Vec<u8>),
    /// The robot of a sample has no log file.
    Unknown(u8),
    /// Nothing has to be done.
    Nothing,
}

/// The first line of a log file.
pub open spec fn heading() -> Seq<u8> {
    ascii("sent_time_us,rtt_us"@)
}

/// Formats the first line of a log file.
pub fn format_heading() -> (line: Vec<u8>)
    ensures
        line@ == heading(),
{
    proof {
        reveal_strlit("sent_time_us,rtt_us");
    }
    let mut line: Vec<u8> = Vec::new();
    line.extend_from_slice(ascii_bytes("sent_time_us,rtt_us"));
    proof {
        assert(line@ =~= heading());
    }
    line
}

/// The line of a sample: the microseconds from `start` to sending, and the microseconds to the
/// response, or 0 if it was lost.
pub open spec fn sample_line(start: Instant, sample: MetricsSample) -> Seq<u8> {
    decimal((Instant::spec_since(sample.sent_time, start).nanos / 1000) as nat) + ascii(","@)
        + decimal(
        match sample.rtt {
            Some(rtt) => (rtt.nanos / 1000) as nat,
            None => 0,
        },
    )
}

/// Formats the line of a sample.
pub fn format_sample(start: Instant, sample: &MetricsSample) -> (line: Vec<u8>)
    ensures
        line@ == sample_line(start, *sample),
{
    proof {
        reveal_strlit(",");
    }
    let sent: Duration = sample.sent_time.saturating_duration_since(start);
    let rtt_us: u64 = match sample.rtt {
        Some(rtt) => rtt.as_micros(),
        None => 0,
    };
    let mut line: Vec<u8> = format_unsigned(sent.as_micros());
    line.extend_from_slice(ascii_bytes(","));
    let mut rtt: Vec<u8> = format_unsigned(rtt_us);
    line.append(&mut rtt);
    proof {
        assert(line@ =~= sample_line(start, *sample));
    }
    line
}

/// Helper struct for logging connection metrics from a [ConnectionDriverEvent] stream to .csv files.
/// It decides what is written to which file.
#[derive(Debug)]
pub struct MetricsLogger {
    ref_instant: Instant,
    open_files: HashSet<u8>,
}

impl MetricsLogger {
    /// The robots with an open log file.
    pub closed spec fn open(&self) -> Set<u8> {
        self.open_files@
    }

    /// The time that the log counts from.
    pub closed spec fn start(&self) -> Instant {
        self.ref_instant
    }

    /// What has to be done on an event.
    pub open spec fn logged<RR, DR>(
        before: MetricsLogger,
        event: ConnectionDriverEvent<RR, DR>,
        action: LogAction,
        after: MetricsLogger,
    ) -> bool {
        &&& after.start() == before.start()
        &&& match event {
            ConnectionDriverEvent::Connected(id, _) => {
                &&& action == LogAction::Create(id)
                &&& after.open() == before.open()
            },
            ConnectionDriverEvent::Disconnected(id) => {
                &&& action == LogAction::Close(id)
                &&& after.open() == before.open().remove(id)
            },
            ConnectionDriverEvent::MetricsSample(id, sample) => {
                &&& after.open() == before.open()
                &&& if before.open().contains(id) {
                    action matches LogAction::Write(to, line) && to == id && line@ == sample_line(
                        before.start(),
                        sample,
                    )
                } else {
                    action == LogAction::Unknown(id)
                }
            },
            _ => action is Nothing && after.open() == before.open(),
        }
    }

    pub fn new(ref_instant: Instant) -> (l: MetricsLogger)
        ensures
            l.open() == Set::<u8>::empty(),
            l.start() == ref_instant,
    {
        MetricsLogger { ref_instant, open_files: HashSet::new() }
    }

    /// Takes an event and returns what has to be done.
    pub fn update<RR, DR>(&mut self, driver_event: &ConnectionDriverEvent<RR, DR>) -> (action:
        LogAction)
        ensures
            Self::logged(*old(self), *driver_event, action, *final(self)),
    {
        match driver_event {
            ConnectionDriverEvent::Connected(robot_id, _) => LogAction::Create(*robot_id),
            ConnectionDriverEvent::Disconnected(robot_id) => {
                self.open_files.remove(robot_id);
                LogAction::Close(*robot_id)
            },
            ConnectionDriverEvent::MetricsSample(robot_id, sample) => {
                if self.open_files.contains(robot_id) {
                    LogAction::Write(*robot_id, format_sample(self.ref_instant, sample))
                } else {
                    LogAction::Unknown(*robot_id)
                }
            },
            _ => LogAction::Nothing,
        }
    }

    /// Takes the report that the log file of a robot was created.
    pub fn file_created(&mut self, robot_id: u8)
        ensures
            final(self).start() == old(self).start(),
            final(self).open() == old(self).open().insert(robot_id),
    {
        self.open_files.insert(robot_id);
    }
}

// ======== Laws of the log ========

/// The number that decimal digits spell in the usual way.
pub open spec fn spelled(s: Seq<u8>) -> nat
    decreases s.len(),
{
    if s.len() == 0 {
        0
    } else {
        10 * spelled(s.drop_last()) + (s.last() - 48) as nat
    }
}

/// Decimal digits without a leading zero, that spell `n`.
pub open spec fn is_decimal(s: Seq<u8>, n: nat) -> bool {
    &&& s.len() > 0
    &&& forall|i: int| 0 <= i < s.len() ==> 48 <= #[trigger] s[i] <= 57
    &&& s[0] == 48 ==> s.len() == 1
    &&& spelled(s) == n
}

proof fn lemma_is_decimal(n: nat)
    ensures
        is_decimal(decimal(n), n),
        n > 0 ==> decimal(n)[0] != 48,
    decreases n,
{
    if n < 10 {
        assert(decimal(n).drop_last() =~= Seq::empty());
        reveal_with_fuel(spelled, 2);
    } else {
        lemma_is_decimal(n / 10);
        assert(decimal(n).drop_last() =~= decimal(n / 10));
        assert(decimal(n)[0] == decimal(n / 10)[0]);
    }
}

/// The line consists of two decimal numbers, with a comma at `comma` between them.
pub open spec fn two_numbers(line: Seq<u8>, comma: int, first: nat, second: nat) -> bool {
    &&& 0 < comma < line.len()
    &&& line[comma] == 44
    &&& is_decimal(line.take(comma), first)
    &&& is_decimal(line.skip(comma + 1), second)
}

/// `micros` are the whole microseconds in a number of nanoseconds.
pub open spec fn whole_micros(nanos: int, micros: nat) -> bool {
    1000 * micros <= nanos < 1000 * (micros + 1)
}

/// The line of a sample can be read back: two decimal numbers with a comma between them. The first is
/// the whole microseconds from the start to sending, and 0 for a packet that was sent before the
/// start. The second is the whole microseconds of the round trip, and 0 for a lost packet.
pub proof fn law_line_can_be_read(start: Instant, sample: MetricsSample) -> (r: (int, nat, nat))
    ensures
        ({
            let (comma, sent, rtt) = r;
            &&& two_numbers(sample_line(start, sample), comma, sent, rtt)
            &&& sample.sent_time.nanos >= start.nanos ==> whole_micros(
                sample.sent_time.nanos - start.nanos,
                sent,
            )
            &&& sample.sent_time.nanos < start.nanos ==> sent == 0
            &&& match sample.rtt {
                Some(d) => whole_micros(d.nanos as int, rtt),
                None => rtt == 0,
            }
        }),
{
    let sent = (Instant::spec_since(sample.sent_time, start).nanos / 1000) as nat;
    let rtt: nat = match sample.rtt {
        Some(d) => (d.nanos / 1000) as nat,
        None => 0,
    };
    let line = sample_line(start, sample);
    let comma = decimal(sent).len() as int;
    lemma_is_decimal(sent);
    lemma_is_decimal(rtt);
    reveal_strlit(",");
    assert(line.take(comma) =~= decimal(sent));
    assert(line.skip(comma + 1) =~= decimal(rtt));
    (comma, sent, rtt)
}

/// What an event does to the log: a connection asks for a file, a disconnection closes it, and a sample
/// is written as a line to the file of its robot, if there is one. No event touches the file of
/// another robot, and the time that the log counts from stays.
pub proof fn law_log_actions<RR, DR>(
    before: MetricsLogger,
    event: ConnectionDriverEvent<RR, DR>,
    action: LogAction,
    after: MetricsLogger,
    other: u8,
)
    requires
        MetricsLogger::logged(before, event, action, after),
    ensures
        after.start() == before.start(),
        after.open().contains(other) == (before.open().contains(other) && !(
        event matches ConnectionDriverEvent::Disconnected(id) && id == other)),
        match event {
            ConnectionDriverEvent::Connected(id, _) => action == LogAction::Create(id),
            ConnectionDriverEvent::Disconnected(id) => action == LogAction::Close(id),
            ConnectionDriverEvent::MetricsSample(id, sample) => if before.open().contains(id) {
                &&& action matches LogAction::Write(to, line)
                &&& to == id
                &&& exists|comma: int, sent: nat, rtt: nat| #[trigger]
                    two_numbers(line@, comma, sent, rtt) && (sample.sent_time.nanos
                        >= before.start().nanos ==> whole_micros(
                        sample.sent_time.nanos - before.start().nanos,
                        sent,
                    )) && match sample.rtt {
                        Some(d) => whole_micros(d.nanos as int, rtt),
                        None => rtt == 0,
                    }
            } else {
                action == LogAction::Unknown(id)
            },
            ConnectionDriverEvent::PacketReceived(_, _, _) => action is Nothing,
            ConnectionDriverEvent::DatagramReceived(_, _, _) => action is Nothing,
            ConnectionDriverEvent::TransceiverError(_) => action is Nothing,
        },
{
    if let ConnectionDriverEvent::MetricsSample(id, sample) = event {
        if before.open().contains(id) {
            let (comma, sent, rtt) = law_line_can_be_read(before.start(), sample);
            assert(two_numbers(sample_line(before.start(), sample), comma, sent, rtt));
        }
    }
}

/// The name of a log file: the word robot, the id, the word metrics and the number, with underscores
/// between them, and the ending of a table.
pub proof fn law_file_name_shape(robot_id: u8, lognum: u32) -> (r: (int, int))
    ensures
        ({
            let name = file_name(robot_id, lognum);
            let (id_end, number_end) = r;
            &&& 6 < id_end
            &&& id_end + 9 < number_end
            &&& number_end + 4 == name.len()
            // robot_
            &&& name.take(6) == seq![114u8, 111, 98, 111, 116, 95]
            &&& is_decimal(name.subrange(6, id_end), robot_id as nat)
            // _metrics_
            &&& name.subrange(id_end, id_end + 9) == seq![
                95u8,
                109,
                101,
                116,
                114,
                105,
                99,
                115,
                95,
            ]
            &&& is_decimal(name.subrange(id_end + 9, number_end), lognum as nat)
            // .csv
            &&& name.skip(number_end) == seq![46u8, 99, 115, 118]
        }),
{
    reveal_strlit("robot_");
    reveal_strlit("_metrics_");
    reveal_strlit(".csv");
    lemma_is_decimal(robot_id as nat);
    lemma_is_decimal(lognum as nat);
    let name = file_name(robot_id, lognum);
    let id = decimal(robot_id as nat);
    let number = decimal(lognum as nat);
    let id_end = 6 + id.len() as int;
    let number_end = id_end + 9 + number.len() as int;
    assert(name.take(6) =~= seq![114u8, 111, 98, 111, 116, 95]);
    assert(name.subrange(6, id_end) =~= id);
    assert(name.subrange(id_end, id_end + 9) =~= seq![
        95u8,
        109,
        101,
        116,
        114,
        105,
        99,
        115,
        95,
    ]);
    assert(name.subrange(id_end + 9, number_end) =~= number);
    assert(name.skip(number_end) =~= seq![46u8, 99, 115, 118]);
    (id_end, number_end)
}

/// The next number is larger than that of every log file of the robot, and no smaller number is: it is
/// 0 without any file, and follows the number of a file else.
pub proof fn law_next_number(names: Seq<Seq<u8>>, robot_id: u8)
    ensures
        forall|i: int|
            0 <= i < names.len() && (#[trigger] lognum_in(names[i], robot_id)) is Some
                ==> lognum_in(names[i], robot_id)->0 < number_after(highest(names, robot_id)),
        number_after(highest(names, robot_id)) == 0 || exists|i: int|
            0 <= i < names.len() && #[trigger] lognum_in(names[i], robot_id) == Some(
                (number_after(highest(names, robot_id)) - 1) as nat,
            ),
    decreases names.len(),
{
    assert forall|i: int|
        0 <= i < names.len() && (#[trigger] lognum_in(names[i], robot_id)) is Some implies lognum_in(
        names[i],
        robot_id,
    )->0 < number_after(highest(names, robot_id)) by {
        lemma_highest_bound(names, robot_id, i);
    }
    if highest(names, robot_id) is Some {
        let top = highest(names, robot_id)->0;
        let init = names.drop_last();
        law_next_number(init, robot_id);
        if lognum_in(names.last(), robot_id) == Some(top) {
            assert(lognum_in(names[names.len() - 1], robot_id) == Some(top));
        } else {
            let i = choose|i: int|
                0 <= i < init.len() && #[trigger] lognum_in(init[i], robot_id) == Some(
                    (number_after(highest(init, robot_id)) - 1) as nat,
                );
            assert(init[i] == names[i]);
        }
    }
}

/// The number in a file name is what stands between the fixed parts: digits, with an optional plus
/// sign before them. A name of any other form has no number.
pub proof fn law_number_in_name(name: Seq<u8>, robot_id: u8, n: nat)
    ensures
        lognum_in(name, robot_id) == Some(n) ==> exists|digits: Seq<u8>| #[trigger]
            spelled(digits) == n && digits.len() > 0 && (forall|i: int|
                0 <= i < digits.len() ==> 48 <= #[trigger] digits[i] <= 57) && n <= u32::MAX && (
            name == ascii("robot_"@) + decimal(robot_id as nat) + ascii("_metrics_"@) + digits
                + ascii(".csv"@) || name == ascii("robot_"@) + decimal(robot_id as nat) + ascii(
                "_metrics_"@,
            ) + seq![43u8] + digits + ascii(".csv"@)),
{
    if lognum_in(name, robot_id) == Some(n) {
        let p = name_prefix(robot_id);
        let rest = name.skip(p.len() as int);
        let text = rest.take(rest.len() - name_suffix().len());
        let digits = crate::utils::text::unsigned_digits(text);
        lemma_spelled(digits);
        assert(rest =~= text + name_suffix());
        assert(name =~= p + text + name_suffix());
        assert forall|i: int| 0 <= i < digits.len() implies 48 <= #[trigger] digits[i] <= 57 by {
            assert(crate::utils::text::is_digit(digits[i]));
        }
        if text.len() > 0 && text[0] == 43 {
            assert(text =~= seq![43u8] + digits);
            assert(name =~= p + seq![43u8] + digits + name_suffix());
        }
        assert(spelled(digits) == n);
    }
}

proof fn lemma_spelled(s: Seq<u8>)
    ensures
        spelled(s) == crate::utils::text::digits_value(s),
    decreases s.len(),
{
    if s.len() > 0 {
        lemma_spelled(s.drop_last());
    }
}

} // verus!
