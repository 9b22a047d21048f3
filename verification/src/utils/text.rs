//! Text as bytes.

use vstd::prelude::*;

verus! {

/// Whether `b` is a decimal digit.
pub open spec fn is_digit(b: u8) -> bool {
    48 <= b <= 57
}

/// The number that decimal digits spell.
pub open spec fn digits_value(s: Seq<u8>) -> nat
    decreases s.len(),
{
    if s.len() == 0 {
        0
    } else {
        10 * digits_value(s.drop_last()) + (s.last() - 48) as nat
    }
}

/// Decimal digits, with an optional plus sign in front.
pub open spec fn unsigned_digits(s: Seq<u8>) -> Seq<u8> {
    if s.len() > 0 && s[0] == 43 {
        s.skip(1)
    } else {
        s
    }
}

/// The number up to `max` that `s` spells.
pub open spec fn parsed(s: Seq<u8>, max: nat) -> Option<nat> {
    let d = unsigned_digits(s);
    if d.len() > 0 && (forall|i: int| 0 <= i < d.len() ==> is_digit(#[trigger] d[i])) && digits_value(
        d,
    ) <= max {
        Some(digits_value(d))
    } else {
        None
    }
}

/// The decimal digits of a number.
pub open spec fn decimal(n: nat) -> Seq<u8>
    decreases n,
{
    if n < 10 {
        seq![(48 + n) as u8]
    } else {
        decimal(n / 10).push((48 + n % 10) as u8)
    }
}

proof fn lemma_digits_prefix(s: Seq<u8>, i: int)
    requires
        0 <= i <= s.len(),
        forall|k: int| 0 <= k < s.len() ==> is_digit(#[trigger] s[k]),
    ensures
        digits_value(s.take(i)) <= digits_value(s),
    decreases s.len() - i,
{
    if i < s.len() {
        lemma_digits_prefix(s, i + 1);
        assert(s.take(i + 1).drop_last() =~= s.take(i));
        assert(is_digit(s[i]));
    } else {
        assert(s.take(i) =~= s);
    }
}

/// Reads a number of at most `max`: digits, with an optional plus sign in front.
pub fn parse_unsigned(s: &[u8], max: u64) -> (r: Option<u64>)
    ensures
        match r {
            Some(n) => parsed(s@, max as nat) == Some(n as nat),
            None => parsed(s@, max as nat) is None,
        },
{
    let start: usize = if s.len() > 0 && s[0] == 43 {
        1
    } else {
        0
    };
    let ghost d = unsigned_digits(s@);
    proof {
        assert(d =~= s@.skip(start as int));
    }
    if start == s.len() {
        return None;
    }
    let mut n: u64 = 0;
    let mut i: usize = start;
    while i < s.len()
        invariant
            start <= i <= s@.len(),
            start <= 1,
            d == s@.skip(start as int),
            d == unsigned_digits(s@),
            n == digits_value(d.take(i - start)),
            n <= max,
            forall|k: int| 0 <= k < i - start ==> is_digit(#[trigger] d[k]),
        decreases s@.len() - i,
    {
        let b: u8 = s[i];
        assert(d[i - start] == b);
        if b < 48 || b > 57 {
            assert(!is_digit(d[i - start]));
            return None;
        }
        proof {
            assert(d.take(i - start + 1).drop_last() =~= d.take(i - start));
            if forall|k: int| 0 <= k < d.len() ==> is_digit(#[trigger] d[k]) {
                lemma_digits_prefix(d, i - start + 1);
            }
        }
        let digit: u64 = (b - 48) as u64;
        if n > (u64::MAX - digit) / 10 || 10 * n + digit > max {
            return None;
        }
        n = 10 * n + digit;
        i = i + 1;
    }
    proof {
        assert(d.take(i - start) =~= d);
    }
    Some(n)
}

/// The decimal digits of a number.
pub fn format_unsigned(n: u64) -> (s: Vec<u8>)
    ensures
        s@ == decimal(n as nat),
    decreases n,
{
    if n < 10 {
        let mut s: Vec<u8> = Vec::new();
        s.push(48 + n as u8);
        s
    } else {
        let mut s: Vec<u8> = format_unsigned(n / 10);
        s.push(48 + (n % 10) as u8);
        s
    }
}

/// Numbers are formatted by digits alone.
pub proof fn lemma_decimal_digits(n: nat)
    ensures
        decimal(n).len() > 0,
        forall|i: int| 0 <= i < decimal(n).len() ==> is_digit(#[trigger] decimal(n)[i]),
        digits_value(decimal(n)) == n,
    decreases n,
{
    if n < 10 {
        assert(decimal(n).drop_last() =~= Seq::empty());
        reveal_with_fuel(digits_value, 2);
    } else {
        lemma_decimal_digits(n / 10);
        assert(decimal(n).drop_last() =~= decimal(n / 10));
    }
}

/// A number that was formatted can be read back.
pub proof fn law_parse_format(n: nat, max: nat)
    requires
        n <= max,
    ensures
        parsed(decimal(n), max) == Some(n),
{
    lemma_decimal_digits(n);
    assert(is_digit(decimal(n)[0]));
}

/// Whether `s` starts with `prefix`.
pub open spec fn has_prefix(s: Seq<u8>, prefix: Seq<u8>) -> bool {
    prefix.len() <= s.len() && s.take(prefix.len() as int) == prefix
}

/// Whether `s` ends with `suffix`.
pub open spec fn has_suffix(s: Seq<u8>, suffix: Seq<u8>) -> bool {
    suffix.len() <= s.len() && s.skip(s.len() - suffix.len()) == suffix
}

/// Whether `part` occurs in `s` at position `at`.
pub open spec fn occurs_at(s: Seq<u8>, part: Seq<u8>, at: int) -> bool {
    0 <= at && at + part.len() <= s.len() && s.subrange(at, at + part.len()) == part
}

/// Tests whether `part` occurs in `s` at position `at`.
pub fn matches_at(s: &[u8], part: &[u8], at: usize) -> (b: bool)
    ensures
        b == occurs_at(s@, part@, at as int),
{
    if at > s.len() || s.len() - at < part.len() {
        return false;
    }
    let mut i: usize = 0;
    while i < part.len()
        invariant
            i <= part@.len(),
            at + part@.len() <= s@.len(),
            s@.len() <= usize::MAX,
            forall|k: int| 0 <= k < i ==> s@[at + k] == part@[k],
        decreases part@.len() - i,
    {
        if s[at + i] != part[i] {
            proof {
                assert(s@.subrange(at as int, at + part@.len())[i as int] != part@[i as int]);
            }
            return false;
        }
        i = i + 1;
    }
    proof {
        assert(s@.subrange(at as int, at + part@.len()) =~= part@);
    }
    true
}

/// The bytes of ASCII text.
pub open spec fn ascii(s: Seq<char>) -> Seq<u8> {
    Seq::new(s.len(), |i: int| s[i] as u8)
}

/// The bytes of ASCII text.
pub fn ascii_bytes(s: &str) -> (b: &[u8])
    requires
        s.is_ascii(),
    ensures
        b@ == ascii(s@),
{
    proof {
        vstd::string::is_ascii_spec_bytes(s);
        assert(vstd::utf8::encode_utf8(s@) =~= ascii(s@));
    }
    s.as_bytes()
}

/// Whether some bytes are valid UTF-8. Calls [std::str::from_utf8], which accepts exactly the byte
/// sequences that are valid UTF-8.
#[verifier::external_body]
pub(crate) fn is_utf8(s: &[u8]) -> (b: bool)
    ensures
        b == vstd::utf8::valid_utf8(s@),
{
    std::str::from_utf8(s).is_ok()
}

// ======== Numbers ========

/// Ten to the power of `n`.
pub open spec fn power_of_ten(n: nat) -> nat
    decreases n,
{
    if n == 0 {
        1
    } else {
        10 * power_of_ten((n - 1) as nat)
    }
}

/// What is read as a number: digits, of which each counts ten times as much as the one behind it, with
/// at most one plus sign in front. A number above the limit is refused, like anything else.
pub proof fn law_numbers(digits: Seq<u8>, max: nat)
    requires
        digits.len() > 0,
        forall|i: int| 0 <= i < digits.len() ==> 48 <= #[trigger] digits[i] <= 57,
    ensures
        digits_value(digits) == digits_value(digits.drop_first()) + (digits[0] - 48) * power_of_ten(
            (digits.len() - 1) as nat,
        ),
        digits.len() == 1 ==> digits_value(digits) == digits[0] - 48,
        digits_value(digits) <= max ==> parsed(digits, max) == Some(digits_value(digits)) && parsed(
            seq![43u8] + digits,
            max,
        ) == Some(digits_value(digits)),
        digits_value(digits) > max ==> parsed(digits, max) is None && parsed(
            seq![43u8] + digits,
            max,
        ) is None,
    decreases digits.len(),
{
    lemma_first_digit(digits);
    assert((seq![43u8] + digits).skip(1) =~= digits);
    assert(48 <= digits[0] <= 57);
    if digits.len() == 1 {
        assert(digits.drop_last() =~= Seq::<u8>::empty());
        reveal_with_fuel(digits_value, 2);
    }
}

/// Nothing else is read as a number.
pub proof fn law_no_number(s: Seq<u8>, max: nat)
    requires
        s.len() == 0 || (exists|i: int| 1 <= i < s.len() && !(48 <= #[trigger] s[i] <= 57)) || !(48
            <= s[0] <= 57 || s[0] == 43) || s == seq![43u8],
    ensures
        parsed(s, max) is None,
{
    let d = unsigned_digits(s);
    if s.len() > 0 {
        if exists|i: int| 1 <= i < s.len() && !(48 <= #[trigger] s[i] <= 57) {
            let i = choose|i: int| 1 <= i < s.len() && !(48 <= #[trigger] s[i] <= 57);
            if s[0] == 43 {
                assert(!is_digit(d[i - 1]));
            } else {
                assert(!is_digit(d[i]));
            }
        } else if s == seq![43u8] {
            assert(d.len() == 0);
        } else {
            assert(!is_digit(d[0]));
        }
    }
}

proof fn lemma_first_digit(digits: Seq<u8>)
    requires
        digits.len() > 0,
        forall|i: int| 0 <= i < digits.len() ==> 48 <= #[trigger] digits[i] <= 57,
    ensures
        digits_value(digits) == digits_value(digits.drop_first()) + (digits[0] - 48) * power_of_ten(
            (digits.len() - 1) as nat,
        ),
    decreases digits.len(),
{
    let n = (digits.len() - 1) as nat;
    let first = digits[0] - 48;
    assert(48 <= digits[0] <= 57);
    if n == 0 {
        assert(digits.drop_first() =~= Seq::<u8>::empty());
        assert(digits.drop_last() =~= Seq::<u8>::empty());
        reveal_with_fuel(digits_value, 2);
        assert(power_of_ten(0) == 1);
    } else {
        let init = digits.drop_last();
        assert forall|i: int| 0 <= i < init.len() implies 48 <= #[trigger] init[i] <= 57 by {
            assert(init[i] == digits[i]);
        }
        lemma_first_digit(init);
        assert(digits.drop_first().drop_last() =~= init.drop_first());
        assert(48 <= digits[digits.len() - 1] <= 57);
        assert(digits.drop_first().last() == digits.last());
        let p = power_of_ten((n - 1) as nat);
        assert(power_of_ten(n) == 10 * p);
        assert(10 * (first * p) == first * (10 * p)) by (nonlinear_arith);
    }
}

} // verus!
