//! Telling robots from other devices on serial ports.

use crate::transceivers::address::{PortTypeView, SerialPortInfo, SerialPortType};
use crate::utils::text::{ascii, has_prefix, is_utf8, parse_unsigned, parsed};
use vstd::prelude::*;
use vstd::string::StrSliceExecFns;

verus! {

// ======== Ports ========

/// The lower case of an ASCII letter. Other characters stay the same.
pub open spec fn lower(c: char) -> char {
    if 'A' <= c <= 'Z' {
        (c as u32 + 32) as char
    } else {
        c
    }
}

/// Whether `part` occurs at position `at` when upper and lower case letters count as the same.
pub open spec fn part_at(s: Seq<char>, part: Seq<char>, at: int) -> bool {
    &&& 0 <= at
    &&& at + part.len() <= s.len()
    &&& forall|k: int| 0 <= k < part.len() ==> lower(s[at + k]) == #[trigger] part[k]
}

/// Whether the lower case of `s` contains `part`.
pub open spec fn lower_contains(s: Seq<char>, part: Seq<char>) -> bool {
    exists|at: int| part_at(s, part, at)
}

fn to_lower(c: char) -> (r: char)
    ensures
        r == lower(c),
{
    if 'A' <= c && c <= 'Z' {
        ((c as u8) + 32) as char
    } else {
        c
    }
}

/// The characters of a text.
fn chars_of(s: &str) -> (chars: Vec<char>)
    ensures
        chars@ == s@,
{
    let n: usize = s.unicode_len();
    let mut chars: Vec<char> = Vec::new();
    let mut i: usize = 0;
    while i < n
        invariant
            i <= n,
            n == s@.len(),
            chars@ == s@.take(i as int),
        decreases n - i,
    {
        chars.push(s.get_char(i));
        i = i + 1;
        proof {
            assert(s@.take(i as int) =~= s@.take(i - 1).push(s@[i - 1]));
        }
    }
    proof {
        assert(s@.take(n as int) =~= s@);
    }
    chars
}

fn matches_lower(s: &Vec<char>, part: &Vec<char>, at: usize) -> (b: bool)
    requires
        at + part@.len() <= s@.len(),
    ensures
        b == part_at(s@, part@, at as int),
{
    let mut k: usize = 0;
    while k < part.len()
        invariant
            k <= part@.len(),
            at + part@.len() <= s@.len(),
            s@.len() == s.len(),
            forall|i: int| 0 <= i < k ==> lower(s@[at + i]) == #[trigger] part@[i],
        decreases part@.len() - k,
    {
        if to_lower(s[at + k]) != part[k] {
            return false;
        }
        k = k + 1;
    }
    true
}

/// Whether the lower case of a text contains `part`.
pub fn contains_lower(s: &str, part: &str) -> (b: bool)
    ensures
        b == lower_contains(s@, part@),
{
    let all: Vec<char> = chars_of(s);
    let sought: Vec<char> = chars_of(part);
    if sought.len() > all.len() {
        return false;
    }
    let last: usize = all.len() - sought.len();
    let mut at: usize = 0;
    loop
        invariant
            all@ == s@,
            sought@ == part@,
            sought@.len() <= all@.len(),
            last == all@.len() - sought@.len(),
            at <= last,
            forall|k: int| 0 <= k < at ==> !part_at(all@, sought@, k),
        decreases last - at,
    {
        if matches_lower(&all, &sought, at) {
            return true;
        }
        if at == last {
            proof {
                assert forall|k: int| !part_at(all@, sought@, k) by {
                    if 0 <= k && k + sought@.len() <= all@.len() {
                        assert(k <= last);
                    }
                }
            }
            return false;
        }
        at = at + 1;
    }
}

/// Whether a robot could be attached to a port of this kind.
pub open spec fn plausible(port_type: PortTypeView) -> bool {
    match port_type {
        PortTypeView::UsbPort(details) => match details.product {
            Some(product) => lower_contains(product, "uart"@) || lower_contains(product, "serial"@),
            None => false,
        },
        PortTypeView::PciPort => true,
        PortTypeView::BluetoothPort => false,
        PortTypeView::Unknown => false,
    }
}

/// Whether a robot could be attached to the port.
pub fn is_plausible(port: &SerialPortInfo) -> (b: bool)
    ensures
        b == plausible(port@.port_type),
{
    match &port.port_type {
        SerialPortType::UsbPort(details) => match &details.product {
            Some(product) => contains_lower(product.as_str(), "uart") || contains_lower(
                product.as_str(),
                "serial",
            ),
            None => false,
        },
        SerialPortType::PciPort => true,
        SerialPortType::BluetoothPort => false,
        SerialPortType::Unknown => false,
    }
}

// ======== Responses ========

/// A line without the carriage return at its end.
pub open spec fn without_return(line: Seq<u8>) -> Seq<u8> {
    if line.len() > 0 && line.last() == 13 {
        line.drop_last()
    } else {
        line
    }
}

/// The lines of a text. A line ends with a line feed, with or without a carriage return in front of
/// it. The last line does not need an end.
pub open spec fn lines_of(s: Seq<u8>) -> Seq<Seq<u8>>
    decreases s.len(),
{
    if s.len() == 0 {
        Seq::empty()
    } else {
        match s.index_of_first(10u8) {
            Some(i) => if 0 <= i < s.len() {
                seq![without_return(s.take(i))] + lines_of(s.skip(i + 1))
            } else {
                Seq::empty()
            },
            None => seq![s],
        }
    }
}

/// What a line that carries a robot id starts with.
pub open spec fn id_prefix() -> Seq<u8> {
    ascii("robot_id "@)
}

/// The id of the last line that carries one. It counts even if it is not a number.
pub open spec fn id_in_lines(lines: Seq<Seq<u8>>) -> Option<nat>
    decreases lines.len(),
{
    if lines.len() == 0 {
        None
    } else if has_prefix(lines.last(), id_prefix()) {
        parsed(lines.last().skip(id_prefix().len() as int), 255)
    } else {
        id_in_lines(lines.drop_last())
    }
}

/// The robot id in a response.
pub open spec fn reported_id(response: Seq<u8>) -> Option<nat> {
    id_in_lines(lines_of(response))
}

proof fn lemma_id_prefix()
    ensures
        id_prefix() == seq![114u8, 111, 98, 111, 116, 95, 105, 100, 32],
{
    reveal_strlit("robot_id ");
    assert(id_prefix() =~= seq![114u8, 111, 98, 111, 116, 95, 105, 100, 32]);
}

/// The id in a line, and whether the line carries one at all.
fn id_in_line(line: &[u8]) -> (r: (bool, Option<u8>))
    ensures
        r.0 == has_prefix(line@, id_prefix()),
        r.0 ==> (match r.1 {
            Some(id) => parsed(line@.skip(id_prefix().len() as int), 255) == Some(id as nat),
            None => parsed(line@.skip(id_prefix().len() as int), 255) is None,
        }),
{
    let prefix: [u8; 9] = [114, 111, 98, 111, 116, 95, 105, 100, 32];
    proof {
        lemma_id_prefix();
        assert(prefix@ =~= id_prefix());
    }
    if line.len() < 9 {
        return (false, None);
    }
    let mut i: usize = 0;
    while i < 9
        invariant
            i <= 9,
            9 <= line@.len(),
            prefix@ == id_prefix(),
            prefix@.len() == 9,
            forall|k: int| 0 <= k < i ==> line@[k] == prefix@[k],
        decreases 9 - i,
    {
        if line[i] != prefix[i] {
            proof {
                assert(line@.take(9)[i as int] != id_prefix()[i as int]);
            }
            return (false, None);
        }
        i = i + 1;
    }
    proof {
        assert(line@.take(9) =~= id_prefix());
    }
    let rest: &[u8] = vstd::slice::slice_subrange(line, 9, line.len());
    proof {
        assert(rest@ =~= line@.skip(9));
    }
    match parse_unsigned(rest, 255) {
        Some(id) => (true, Some(id as u8)),
        None => (true, None),
    }
}

/// The end of the line that starts at `from`.
fn line_end(s: &[u8], from: usize) -> (end: Option<usize>)
    requires
        from <= s@.len(),
    ensures
        match end {
            Some(e) => from <= e < s@.len() && s@.skip(from as int).index_of_first(10u8) == Some(
                e - from,
            ),
            None => s@.skip(from as int).index_of_first(10u8) is None,
        },
{
    let ghost rest = s@.skip(from as int);
    let mut i: usize = from;
    while i < s.len()
        invariant
            from <= i <= s@.len(),
            rest == s@.skip(from as int),
            forall|k: int| from <= k < i ==> s@[k] != 10,
        decreases s@.len() - i,
    {
        if s[i] == 10 {
            proof {
                assert(rest[i - from] == 10);
                rest.index_of_first_ensures(10u8);
                let f = rest.index_of_first(10u8)->0;
                assert(f == i - from) by {
                    if f < i - from {
                        assert(rest[f] == s@[from + f]);
                    }
                    if i - from < f {
                        assert(rest.take(f)[i - from] == 10);
                    }
                }
            }
            return Some(i);
        }
        i = i + 1;
    }
    proof {
        rest.index_of_first_ensures(10u8);
        assert(!rest.contains(10)) by {
            if rest.contains(10) {
                let k = choose|k: int| 0 <= k < rest.len() && rest[k] == 10;
                assert(s@[from + k] == 10);
            }
        }
    }
    None
}

/// Reads the robot id from the bytes of a response.
fn read_id(response: &[u8]) -> (id: Option<u8>)
    ensures
        match id {
            Some(id) => reported_id(response@) == Some(id as nat),
            None => reported_id(response@) is None,
        },
{
    let mut id: Option<u8> = None;
    let mut start: usize = 0;
    let ghost mut done: Seq<Seq<u8>> = Seq::empty();
    proof {
        assert(response@.skip(0) =~= response@);
        assert(done + lines_of(response@) =~= lines_of(response@));
    }
    while start < response.len()
        invariant
            start <= response@.len(),
            lines_of(response@) == done + lines_of(response@.skip(start as int)),
            match id {
                Some(id) => id_in_lines(done) == Some(id as nat),
                None => id_in_lines(done) is None,
            },
        decreases response@.len() - start,
    {
        let ghost rest = response@.skip(start as int);
        let end: Option<usize> = line_end(response, start);
        let mut stop: usize = match end {
            Some(e) => e,
            None => response.len(),
        };
        let next: usize = match end {
            Some(e) => e + 1,
            None => response.len(),
        };
        if end.is_some() && stop > start && response[stop - 1] == 13 {
            stop = stop - 1;
        }
        let line: &[u8] = vstd::slice::slice_subrange(response, start, stop);
        let (carries, value) = id_in_line(line);
        if carries {
            id = value;
        }
        proof {
            let full = match end {
                Some(e) => rest.take(e - start),
                None => rest,
            };
            assert(line@ =~= (if end is Some {
                without_return(full)
            } else {
                full
            })) by {
                if end is Some && full.len() > 0 {
                    assert(full.last() == response@[(end->0) - 1]);
                }
            }
            assert(response@.skip(next as int) =~= (if end is Some {
                rest.skip((end->0) - start + 1)
            } else {
                Seq::<u8>::empty()
            }));
            assert(lines_of(rest) =~= seq![line@] + lines_of(response@.skip(next as int)));
            let before = done;
            done = done.push(line@);
            assert(before + (seq![line@] + lines_of(response@.skip(next as int))) =~= done
                + lines_of(response@.skip(next as int)));
            assert(done.drop_last() =~= before);
        }
        start = next;
    }
    proof {
        assert(response@.skip(start as int) =~= Seq::<u8>::empty());
        assert(done + lines_of(response@.skip(start as int)) =~= done);
    }
    id
}

/// What a device on a serial port has answered.
#[derive(Clone, Copy, Debug, PartialEq, Eq, Structural)]
pub enum Response {
    /// It is a robot.
    Robot(u8),
    /// It does not say that it is a robot.
    Unrelated,
    /// It is not text.
    Garbled,
}

/// Reads a response.
pub fn parse_response(response: &[u8]) -> (r: Response)
    ensures
        (r is Garbled) == !vstd::utf8::valid_utf8(response@),
        r !is Garbled ==> (match reported_id(response@) {
            Some(id) => r matches Response::Robot(i) && i == id,
            None => r is Unrelated,
        }),
{
    if !is_utf8(response) {
        return Response::Garbled;
    }
    match read_id(response) {
        Some(id) => Response::Robot(id),
        None => Response::Unrelated,
    }
}

// ======== Laws of discovery ========

/// Whether a character is one of two.
pub open spec fn one_of(c: char, a: char, b: char) -> bool {
    c == a || c == b
}

/// Whether the letters UART stand in `s` at `at`, each of them large or small.
pub open spec fn spells_uart(s: Seq<char>, at: int) -> bool {
    &&& 0 <= at <= s.len() - 4
    &&& one_of(s[at], 'u', 'U')
    &&& one_of(s[at + 1], 'a', 'A')
    &&& one_of(s[at + 2], 'r', 'R')
    &&& one_of(s[at + 3], 't', 'T')
}

/// Whether the letters SERIAL stand in `s` at `at`, each of them large or small.
pub open spec fn spells_serial(s: Seq<char>, at: int) -> bool {
    &&& 0 <= at <= s.len() - 6
    &&& one_of(s[at], 's', 'S')
    &&& one_of(s[at + 1], 'e', 'E')
    &&& one_of(s[at + 2], 'r', 'R')
    &&& one_of(s[at + 3], 'i', 'I')
    &&& one_of(s[at + 4], 'a', 'A')
    &&& one_of(s[at + 5], 'l', 'L')
}

/// Robots are sought on PCI ports, and on USB ports whose product has "uart" or "serial" in its name,
/// in any case.
pub proof fn law_plausible_ports(port: PortTypeView)
    ensures
        port is PciPort ==> plausible(port),
        port is BluetoothPort || port is Unknown ==> !plausible(port),
        port is UsbPort && port->UsbPort_0.product is None ==> !plausible(port),
        port is UsbPort && port->UsbPort_0.product is Some ==> {
            let product = port->UsbPort_0.product->0;
            plausible(port) <==> (exists|at: int| spells_uart(product, at)) || (exists|at: int|
                spells_serial(product, at))
        },
{
    if port is UsbPort && port->UsbPort_0.product is Some {
        let s = port->UsbPort_0.product->0;
        if exists|at: int| part_at(s, "uart"@, at) {
            let at = choose|at: int| part_at(s, "uart"@, at);
            lemma_spells_uart(s, at);
        }
        if exists|at: int| part_at(s, "serial"@, at) {
            let at = choose|at: int| part_at(s, "serial"@, at);
            lemma_spells_serial(s, at);
        }
        if exists|at: int| spells_uart(s, at) {
            let at = choose|at: int| spells_uart(s, at);
            lemma_spells_uart(s, at);
            assert(lower_contains(s, "uart"@));
        }
        if exists|at: int| spells_serial(s, at) {
            let at = choose|at: int| spells_serial(s, at);
            lemma_spells_serial(s, at);
            assert(lower_contains(s, "serial"@));
        }
    }
}

proof fn lemma_spells_uart(s: Seq<char>, at: int)
    ensures
        spells_uart(s, at) <==> part_at(s, "uart"@, at),
{
    reveal_strlit("uart");
    let part = "uart"@;
    if part_at(s, part, at) {
        assert(lower(s[at + 0]) == part[0]);
        assert(lower(s[at + 1]) == part[1]);
        assert(lower(s[at + 2]) == part[2]);
        assert(lower(s[at + 3]) == part[3]);
    }
    if spells_uart(s, at) {
        assert(lower(s[at + 0]) == part[0]);
        assert(lower(s[at + 1]) == part[1]);
        assert(lower(s[at + 2]) == part[2]);
        assert(lower(s[at + 3]) == part[3]);
        assert forall|k: int| 0 <= k < part.len() implies lower(s[at + k]) == #[trigger] part[k] by {
            assert(k == 0 || k == 1 || k == 2 || k == 3);
        }
    }
}

proof fn lemma_spells_serial(s: Seq<char>, at: int)
    ensures
        spells_serial(s, at) <==> part_at(s, "serial"@, at),
{
    reveal_strlit("serial");
    let part = "serial"@;
    if part_at(s, part, at) {
        assert(lower(s[at + 0]) == part[0]);
        assert(lower(s[at + 1]) == part[1]);
        assert(lower(s[at + 2]) == part[2]);
        assert(lower(s[at + 3]) == part[3]);
        assert(lower(s[at + 4]) == part[4]);
        assert(lower(s[at + 5]) == part[5]);
    }
    if spells_serial(s, at) {
        assert(lower(s[at + 0]) == part[0]);
        assert(lower(s[at + 1]) == part[1]);
        assert(lower(s[at + 2]) == part[2]);
        assert(lower(s[at + 3]) == part[3]);
        assert(lower(s[at + 4]) == part[4]);
        assert(lower(s[at + 5]) == part[5]);
        assert forall|k: int| 0 <= k < part.len() implies lower(s[at + k]) == #[trigger] part[k] by {
            assert(k == 0 || k == 1 || k == 2 || k == 3 || k == 4 || k == 5);
        }
    }
}

/// One line at the end of a response, with or without an end of line behind it. There is neither a
/// line feed nor a carriage return in the line.
pub open spec fn last_line(before: Seq<u8>, line: Seq<u8>, end: Seq<u8>) -> bool {
    &&& before.len() == 0 || before.last() == 10
    &&& forall|i: int| 0 <= i < line.len() ==> #[trigger] line[i] != 10 && line[i] != 13
    &&& end == Seq::<u8>::empty() || end == seq![10u8] || end == seq![13u8, 10u8]
    &&& line.len() + end.len() > 0
}

/// The bytes of "robot_id " and a number after it.
pub open spec fn id_line(number: Seq<u8>) -> Seq<u8> {
    seq![114u8, 111, 98, 111, 116, 95, 105, 100, 32] + number
}

/// If the last line of a response is "robot_id " and something, the id is that number, whatever came
/// before. It is none if that is not a number up to 255.
pub proof fn law_last_id_counts(before: Seq<u8>, number: Seq<u8>, end: Seq<u8>)
    requires
        last_line(before, id_line(number), end),
    ensures
        reported_id(before + id_line(number) + end) == parsed(number, 255),
{
    let line = id_line(number);
    lemma_id_prefix();
    lemma_last_line(before, line, end);
    let lines = lines_of(before + line + end);
    assert(lines.drop_last() =~= lines_of(before));
    assert(lines.last() == line);
    assert(line.take(9) =~= id_prefix());
    assert(line.skip(9) =~= number);
}

/// If the last line of a response starts with anything else, the id is that of the lines before.
pub proof fn law_other_lines_do_not_count(before: Seq<u8>, line: Seq<u8>, end: Seq<u8>)
    requires
        last_line(before, line, end),
        forall|number: Seq<u8>| line != #[trigger] id_line(number),
    ensures
        reported_id(before + line + end) == reported_id(before),
{
    lemma_id_prefix();
    lemma_last_line(before, line, end);
    let lines = lines_of(before + line + end);
    assert(lines.drop_last() =~= lines_of(before));
    assert(lines.last() == line);
    if has_prefix(line, id_prefix()) {
        assert(line =~= id_line(line.skip(9))) by {
            assert forall|i: int| 0 <= i < 9 implies line[i] == id_line(line.skip(9))[i] by {
                assert(line.take(9)[i] == id_prefix()[i]);
            }
        }
    }
}

/// An empty response has no id.
pub proof fn law_no_lines()
    ensures
        reported_id(Seq::empty()) is None,
{
    assert(lines_of(Seq::empty()).len() == 0);
}

proof fn lemma_last_line(before: Seq<u8>, line: Seq<u8>, end: Seq<u8>)
    requires
        last_line(before, line, end),
    ensures
        lines_of(before + line + end) == lines_of(before).push(line),
{
    let tail = line + end;
    lemma_lines_append(before, tail);
    assert(before + line + end =~= before + tail);
    assert(!line.contains(10)) by {
        if line.contains(10) {
            let k = choose|k: int| 0 <= k < line.len() && line[k] == 10;
            assert(line[k] != 10);
        }
    }
    tail.index_of_first_ensures(10u8);
    if end.len() == 0 {
        assert(tail =~= line);
        assert(lines_of(tail) =~= seq![line]);
    } else {
        let n = tail.len() - 1;
        assert(tail[n] == 10);
        assert(tail.contains(10));
        let first = tail.index_of_first(10u8)->0;
        assert(first == n) by {
            if first < n {
                if first < line.len() {
                    assert(line[first] != 10);
                } else {
                    assert(tail[first] == end[first - line.len()]);
                }
            }
            if n < first {
                assert(tail.take(first)[n] == 10);
            }
        }
        assert(tail.skip(n + 1) =~= Seq::<u8>::empty());
        assert(lines_of(tail.skip(n + 1)) =~= Seq::<Seq<u8>>::empty());
        let full = tail.take(n);
        if end.len() == 1 {
            assert(full =~= line);
            if line.len() > 0 {
                assert(line[line.len() - 1] != 13);
            }
        } else {
            assert(full =~= line.push(13u8));
            assert(full.drop_last() =~= line);
        }
        assert(without_return(full) == line);
        assert(lines_of(tail) =~= seq![line]);
    }
    assert(lines_of(before) + seq![line] =~= lines_of(before).push(line));
}

/// The lines of two texts, of which the first ends with a line feed.
proof fn lemma_lines_append(a: Seq<u8>, b: Seq<u8>)
    requires
        a.len() == 0 || a.last() == 10,
    ensures
        lines_of(a + b) == lines_of(a) + lines_of(b),
    decreases a.len(),
{
    let all = a + b;
    if a.len() == 0 {
        assert(all =~= b);
        assert(lines_of(a) =~= Seq::<Seq<u8>>::empty());
        assert(lines_of(a) + lines_of(b) =~= lines_of(b));
    } else {
        assert(a[a.len() - 1] == 10);
        assert(a.contains(10));
        assert(all[a.len() - 1] == 10);
        assert(all.contains(10));
        a.index_of_first_ensures(10u8);
        all.index_of_first_ensures(10u8);
        let i = a.index_of_first(10u8)->0;
        let j = all.index_of_first(10u8)->0;
        assert(i == j) by {
            if i < j {
                assert(all.take(j)[i] == 10);
            }
            if j < i {
                assert(a.take(i)[j] == 10);
            }
        }
        assert(all.take(i) =~= a.take(i));
        assert(all.skip(i + 1) =~= a.skip(i + 1) + b);
        let rest = a.skip(i + 1);
        if rest.len() > 0 {
            assert(rest.last() == a.last());
        }
        lemma_lines_append(rest, b);
        assert(lines_of(all) =~= lines_of(a) + lines_of(b));
    }
}

} // verus!
