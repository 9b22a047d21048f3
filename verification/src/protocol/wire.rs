//! Numbers in the bytes of a packet.
//!
//! The bytes of a packet are read as one large number, lowest byte first. A field is a range of the
//! binary digits of that number.

use crate::protocol::bits::{
    bits_of, bits_of_bytes, decode, lemma_first_missing, lemma_value_bound, lemma_value_of_bits,
    offset, value_of,
};
use vstd::arithmetic::power2::{
    lemma2_to64, lemma_pow2_pos, lemma_pow2_strictly_increases, lemma_pow2_unfold, pow2,
};
use vstd::prelude::*;

verus! {

/// The number that bytes hold, lowest byte first.
pub open spec fn number(bytes: Seq<u8>) -> nat
    decreases bytes.len(),
{
    if bytes.len() == 0 {
        0
    } else {
        bytes[0] as nat + 256 * number(bytes.skip(1))
    }
}

/// The `width` binary digits from digit `from` on.
pub open spec fn digits_at(bytes: Seq<u8>, from: nat, width: nat) -> nat {
    (number(bytes) / pow2(from)) % pow2(width)
}

/// The digit at `from` is set exactly if `b` is true.
pub open spec fn holds_flag(bytes: Seq<u8>, from: nat, b: bool) -> bool {
    digits_at(bytes, from, 1) == (if b { 1nat } else { 0nat })
}

/// The digits from `from` on spell `y`.
pub open spec fn holds_number(bytes: Seq<u8>, from: nat, width: nat, y: nat) -> bool {
    y < pow2(width) && digits_at(bytes, from, width) == y
}

/// The digits from `from` on spell `y` in two's complement.
pub open spec fn holds_signed(bytes: Seq<u8>, from: nat, width: nat, y: int) -> bool {
    let half = pow2((width - 1) as nat);
    &&& -half <= y < half
    &&& y >= 0 ==> digits_at(bytes, from, width) == y
    &&& y < 0 ==> digits_at(bytes, from, width) == y + pow2(width)
}

/// The digits from `from` on spell `y`, or the largest number that fits if `y` is larger.
pub open spec fn carries_number(bytes: Seq<u8>, from: nat, width: nat, y: nat) -> bool {
    &&& y < pow2(width) ==> digits_at(bytes, from, width) == y
    &&& y >= pow2(width) ==> digits_at(bytes, from, width) == pow2(width) - 1
}

/// The digits from `from` on spell `y` in two's complement, or the nearest number that fits.
pub open spec fn carries_signed(bytes: Seq<u8>, from: nat, width: nat, y: int) -> bool {
    let half = pow2((width - 1) as nat);
    &&& y >= half ==> digits_at(bytes, from, width) == half - 1
    &&& 0 <= y < half ==> digits_at(bytes, from, width) == y
    &&& -half <= y < 0 ==> digits_at(bytes, from, width) == y + pow2(width)
    &&& y < -half ==> digits_at(bytes, from, width) == half
}

// ======== Fields ========

proof fn lemma_value_concat(a: Seq<bool>, b: Seq<bool>)
    ensures
        value_of(a + b) == value_of(a) + pow2(a.len()) * value_of(b),
    decreases a.len(),
{
    lemma2_to64();
    if a.len() == 0 {
        assert(a + b =~= b);
    } else {
        lemma_value_concat(a.skip(1), b);
        assert((a + b).skip(1) =~= a.skip(1) + b);
        lemma_pow2_unfold(a.len());
        let p = pow2((a.len() - 1) as nat);
        let v = value_of(b);
        assert(2 * (p * v) == (2 * p) * v) by (nonlinear_arith);
    }
}

proof fn lemma_value_part(bits: Seq<bool>, from: int, to: int)
    requires
        0 <= from <= to <= bits.len(),
    ensures
        value_of(bits.subrange(from, to)) == (value_of(bits) / pow2(from as nat)) % pow2(
            (to - from) as nat,
        ),
{
    let a = bits.subrange(0, from);
    let b = bits.subrange(from, to);
    let c = bits.subrange(to, bits.len() as int);
    assert(bits =~= a + (b + c));
    lemma_value_concat(a, b + c);
    lemma_value_concat(b, c);
    lemma_value_bound(a);
    lemma_value_bound(b);
    lemma_pow2_pos(from as nat);
    lemma_pow2_pos((to - from) as nat);
    let p = pow2(from as nat) as int;
    let q = pow2((to - from) as nat) as int;
    let rest = value_of(b + c) as int;
    assert(p * rest == rest * p) by (nonlinear_arith);
    vstd::arithmetic::div_mod::lemma_fundamental_div_mod_converse(
        value_of(bits) as int,
        p,
        rest,
        value_of(a) as int,
    );
    assert(rest == value_of(c) * q + value_of(b)) by (nonlinear_arith)
        requires
            rest == value_of(b) + q * value_of(c),
    ;
    vstd::arithmetic::div_mod::lemma_fundamental_div_mod_converse(
        rest,
        q,
        value_of(c) as int,
        value_of(b) as int,
    );
}

proof fn lemma_number(bytes: Seq<u8>)
    ensures
        value_of(bits_of_bytes(bytes)) == number(bytes),
    decreases bytes.len(),
{
    if bytes.len() > 0 {
        let rest = bytes.skip(1);
        lemma_number(rest);
        let first = bits_of(bytes[0] as nat, 8);
        let all = bits_of_bytes(bytes);
        assert forall|p: int| 0 <= p < all.len() implies all[p] == (first + bits_of_bytes(rest))[p] by {
            if p >= 8 {
                assert((p - 8) / 8 == p / 8 - 1);
                assert((p - 8) % 8 == p % 8);
            }
        }
        assert(all =~= first + bits_of_bytes(rest));
        lemma_value_concat(first, bits_of_bytes(rest));
        lemma_value_of_bits(bytes[0] as nat, 8);
        lemma2_to64();
    } else {
        assert(bits_of_bytes(bytes) =~= Seq::empty());
    }
}

/// A field that was read stands at its offset.
pub proof fn lemma_field_digits(bytes: Seq<u8>, layout: Seq<usize>, i: int)
    requires
        0 <= i < layout.len(),
        layout[i] <= 32,
        decode(bits_of_bytes(bytes), layout) is Ok,
    ensures
        decode(bits_of_bytes(bytes), layout)->Ok_0.len() == layout.len(),
        decode(bits_of_bytes(bytes), layout)->Ok_0[i] == digits_at(
            bytes,
            offset(layout, i),
            layout[i] as nat,
        ),
{
    let bits = bits_of_bytes(bytes);
    let from = offset(layout, i) as int;
    let to = from + layout[i];
    lemma_first_missing(layout, bits.len(), 0);
    assert(from + layout[i] <= bits.len());
    lemma_value_part(bits, from, to);
    lemma_number(bytes);
    lemma_value_bound(bits.subrange(from, to));
    lemma2_to64();
    if layout[i] < 32 {
        lemma_pow2_strictly_increases(layout[i] as nat, 32);
    }
}

} // verus!
