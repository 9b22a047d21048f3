//! Bit fields, least significant bit first.
//!
//! A packet is a stream of bits: bit `p` of the stream is bit `p % 8` of byte `p / 8`. A layout
//! lists the widths of consecutive fields, and each field is stored with its lowest bit first.

use vstd::arithmetic::div_mod::lemma_div_denominator;
use vstd::arithmetic::power2::{lemma2_to64, lemma_pow2_pos, lemma_pow2_unfold, pow2};
use vstd::prelude::*;

verus! {

/// Why a packet could not be read.
#[derive(Clone, Copy, Debug, PartialEq, Eq, Structural)]
pub enum UnpackError {
    /// The input ended inside a field of this many bits.
    Incomplete { bits: usize },
    /// A tag does not belong to any known variant.
    UnknownTag { tag: u8 },
}

/// Bit `k` of `v`.
pub open spec fn bit(v: nat, k: nat) -> bool {
    (v / pow2(k)) % 2 == 1
}

/// The `width` lowest bits of `v`, lowest first.
pub open spec fn bits_of(v: nat, width: nat) -> Seq<bool> {
    Seq::new(width, |k: int| bit(v, k as nat))
}

/// The number that `bits` spell, lowest bit first.
pub open spec fn value_of(bits: Seq<bool>) -> nat
    decreases bits.len(),
{
    if bits.len() == 0 {
        0
    } else {
        (if bits[0] { 1nat } else { 0nat }) + 2 * value_of(bits.skip(1))
    }
}

/// The bit stream that `bytes` hold.
pub open spec fn bits_of_bytes(bytes: Seq<u8>) -> Seq<bool> {
    Seq::new(8 * bytes.len(), |p: int| bit(bytes[p / 8] as nat, (p % 8) as nat))
}

/// The bytes that hold a bit stream of whole bytes.
pub open spec fn bytes_of_bits(bits: Seq<bool>) -> Seq<u8> {
    Seq::new(bits.len() / 8, |j: int| value_of(bits.subrange(8 * j, 8 * j + 8)) as u8)
}

/// The position of field `i` in a layout: the total width of the fields before it.
pub open spec fn offset(layout: Seq<usize>, i: int) -> nat
    decreases i,
{
    if i <= 0 {
        0
    } else {
        offset(layout, i - 1) + layout[i - 1] as nat
    }
}

/// The bit stream of `values`, one field of `layout` each.
pub open spec fn encode(values: Seq<u32>, layout: Seq<usize>) -> Seq<bool>
    decreases layout.len(),
{
    if layout.len() == 0 {
        Seq::empty()
    } else {
        encode(values.drop_last(), layout.drop_last()) + bits_of(
            values.last() as nat,
            layout.last() as nat,
        )
    }
}

/// The value of field `i` of `layout` in `bits`.
pub open spec fn field(bits: Seq<bool>, layout: Seq<usize>, i: int) -> u32 {
    value_of(
        bits.subrange(offset(layout, i) as int, offset(layout, i) + layout[i] as int),
    ) as u32
}

/// The first field that does not lie within `len` bits, if there is one.
pub open spec fn first_missing(layout: Seq<usize>, len: nat, i: int) -> Option<int>
    decreases layout.len() - i,
{
    if i < 0 || i >= layout.len() {
        None
    } else if offset(layout, i) + layout[i] > len {
        Some(i)
    } else {
        first_missing(layout, len, i + 1)
    }
}

/// All fields of `layout` in `bits`, or the width of the first field that is cut off.
pub open spec fn decode(bits: Seq<bool>, layout: Seq<usize>) -> Result<Seq<u32>, UnpackError> {
    match first_missing(layout, bits.len(), 0) {
        Some(i) => Err(UnpackError::Incomplete { bits: layout[i] }),
        None => Ok(Seq::new(layout.len(), |i: int| field(bits, layout, i))),
    }
}

/// A layout whose fields fit into 32 bits each.
pub open spec fn layout_ok(layout: Seq<usize>) -> bool {
    &&& forall|i: int| 0 <= i < layout.len() ==> #[trigger] layout[i] <= 32
    &&& layout.len() <= 1024
}

proof fn lemma_bit_step(v: nat, k: nat)
    requires
        k > 0,
    ensures
        bit(v, k) == bit(v / 2, (k - 1) as nat),
{
    lemma_pow2_unfold(k);
    lemma_pow2_pos((k - 1) as nat);
    lemma_div_denominator(v as int, 2, pow2((k - 1) as nat) as int);
}

/// Reading back the bits of a number gives the number, reduced to the width.
pub proof fn lemma_value_of_bits(v: nat, width: nat)
    ensures
        value_of(bits_of(v, width)) == v % pow2(width),
        value_of(bits_of(v, width)) < pow2(width),
    decreases width,
{
    lemma_pow2_pos(width);
    if width == 0 {
        lemma2_to64();
    } else {
        let rest = bits_of(v, width).skip(1);
        assert(rest =~= bits_of(v / 2, (width - 1) as nat)) by {
            assert forall|k: int| 0 <= k < rest.len() implies rest[k] == bits_of(
                v / 2,
                (width - 1) as nat,
            )[k] by {
                lemma_bit_step(v, (k + 1) as nat);
            }
        }
        lemma_value_of_bits(v / 2, (width - 1) as nat);
        lemma_pow2_unfold(width);
        lemma2_to64();
        assert(bits_of(v, width)[0] == bit(v, 0));
        assert(v / 1 == v);
        let p = pow2((width - 1) as nat);
        lemma_pow2_pos((width - 1) as nat);
        assert(v % (2 * p) == v % 2 + 2 * ((v / 2) % p)) by {
            vstd::arithmetic::div_mod::lemma_mod_breakdown(v as int, 2, p as int);
        }
    }
}

/// A number of `bits.len()` bits is smaller than the matching power of two.
pub proof fn lemma_value_bound(bits: Seq<bool>)
    ensures
        value_of(bits) < pow2(bits.len()),
    decreases bits.len(),
{
    lemma2_to64();
    if bits.len() > 0 {
        lemma_value_bound(bits.skip(1));
        lemma_pow2_unfold(bits.len());
    }
}

/// The bits of the number that `bits` spell are `bits`.
pub proof fn lemma_bits_of_value(bits: Seq<bool>)
    ensures
        bits_of(value_of(bits), bits.len()) =~= bits,
    decreases bits.len(),
{
    if bits.len() > 0 {
        let rest = bits.skip(1);
        lemma_bits_of_value(rest);
        let v = value_of(bits);
        assert(v / 2 == value_of(rest));
        lemma2_to64();
        assert(v / 1 == v);
        assert forall|k: int| 0 <= k < bits.len() implies bits_of(v, bits.len())[k] == bits[k] by {
            if k > 0 {
                lemma_bit_step(v, k as nat);
                assert(bits_of(value_of(rest), rest.len())[k - 1] == rest[k - 1]);
            }
        }
    }
}

/// The position of a field depends on the fields before it alone.
pub proof fn lemma_offset_prefix(a: Seq<usize>, b: Seq<usize>, i: int)
    requires
        i <= a.len(),
        i <= b.len(),
        forall|k: int| 0 <= k < i ==> a[k] == b[k],
    ensures
        offset(a, i) == offset(b, i),
    decreases i,
{
    if i > 0 {
        lemma_offset_prefix(a, b, i - 1);
    }
}

proof fn lemma_offset_mono(layout: Seq<usize>, i: int, j: int)
    requires
        0 <= i <= j <= layout.len(),
    ensures
        offset(layout, i) <= offset(layout, j),
        i < j ==> offset(layout, i) + layout[i] <= offset(layout, j),
    decreases j,
{
    if i < j {
        lemma_offset_mono(layout, i, j - 1);
    }
}

/// A layout of 32-bit fields is at most 32 bits per field long.
proof fn lemma_offset_bound(layout: Seq<usize>, i: int)
    requires
        layout_ok(layout),
        0 <= i <= layout.len(),
    ensures
        offset(layout, i) <= 32 * i,
    decreases i,
{
    if i > 0 {
        lemma_offset_bound(layout, i - 1);
        assert(layout[i - 1] <= 32);
    }
}

/// The stream of a list of fields has the length of its layout, and each field stands at its
/// offset.
pub proof fn lemma_encode(values: Seq<u32>, layout: Seq<usize>)
    requires
        values.len() == layout.len(),
    ensures
        encode(values, layout).len() == offset(layout, layout.len() as int),
        forall|i: int|
            0 <= i < layout.len() ==> offset(layout, i) + #[trigger] layout[i] <= encode(
                values,
                layout,
            ).len() && encode(values, layout).subrange(
                offset(layout, i) as int,
                offset(layout, i) + layout[i],
            ) == bits_of(values[i] as nat, layout[i] as nat),
    decreases layout.len(),
{
    let n = layout.len() as int;
    if n > 0 {
        let init_v = values.drop_last();
        let init_l = layout.drop_last();
        lemma_encode(init_v, init_l);
        lemma_offset_prefix(layout, init_l, n - 1);
        let whole = encode(values, layout);
        let head = encode(init_v, init_l);
        assert forall|i: int| 0 <= i < n implies offset(layout, i) + #[trigger] layout[i]
            <= whole.len() && whole.subrange(
            offset(layout, i) as int,
            offset(layout, i) + layout[i],
        ) == bits_of(values[i] as nat, layout[i] as nat) by {
            lemma_offset_prefix(layout, init_l, i);
            if i < n - 1 {
                assert(init_l[i] == layout[i]);
                assert(whole.subrange(offset(layout, i) as int, offset(layout, i) + layout[i])
                    =~= head.subrange(offset(layout, i) as int, offset(layout, i) + layout[i]));
            } else {
                assert(whole.subrange(offset(layout, i) as int, offset(layout, i) + layout[i])
                    =~= bits_of(values.last() as nat, layout.last() as nat));
            }
        }
    }
}

/// What the first missing field says of the others.
pub proof fn lemma_first_missing(layout: Seq<usize>, len: nat, i: int)
    requires
        0 <= i <= layout.len(),
    ensures
        match first_missing(layout, len, i) {
            Some(k) => i <= k < layout.len() && offset(layout, k) + layout[k] > len && forall|j: int|
                i <= j < k ==> offset(layout, j) + #[trigger] layout[j] <= len,
            None => forall|j: int| i <= j < layout.len() ==> offset(layout, j) + #[trigger] layout[j]
                <= len,
        },
    decreases layout.len() - i,
{
    if i < layout.len() && offset(layout, i) + layout[i] <= len {
        lemma_first_missing(layout, len, i + 1);
    }
}

/// All fields of a layout can be read exactly if there are enough bits for all of them.
pub proof fn lemma_decodes(bits: Seq<bool>, layout: Seq<usize>)
    ensures
        decode(bits, layout) is Ok <==> offset(layout, layout.len() as int) <= bits.len(),
{
    let n = layout.len() as int;
    lemma_first_missing(layout, bits.len(), 0);
    match first_missing(layout, bits.len(), 0) {
        Some(k) => lemma_offset_mono(layout, k, n),
        None => {
            if n > 0 {
                assert(offset(layout, n - 1) + layout[n - 1] <= bits.len());
            }
        },
    }
}

/// Each value fits into its field.
pub open spec fn values_fit(values: Seq<u32>, layout: Seq<usize>) -> bool {
    &&& values.len() == layout.len()
    &&& forall|i: int| 0 <= i < layout.len() ==> (#[trigger] values[i] as nat) < pow2(layout[i] as nat)
}

/// Fields that were written can be read back, whatever follows them in the stream.
pub proof fn law_decode_encode(values: Seq<u32>, layout: Seq<usize>, rest: Seq<bool>)
    requires
        values_fit(values, layout),
    ensures
        decode(encode(values, layout) + rest, layout) == Ok::<Seq<u32>, UnpackError>(values),
{
    let bits = encode(values, layout) + rest;
    lemma_encode(values, layout);
    lemma_first_missing(layout, bits.len(), 0);
    let read = Seq::new(layout.len(), |i: int| field(bits, layout, i));
    assert forall|i: int| 0 <= i < layout.len() implies read[i] == values[i] by {
        let w = layout[i] as nat;
        let off = offset(layout, i) as int;
        assert(bits.subrange(off, off + w) =~= encode(values, layout).subrange(off, off + w));
        lemma_value_of_bits(values[i] as nat, w);
        vstd::arithmetic::div_mod::lemma_small_mod(values[i] as nat, pow2(w));
    }
    assert(read =~= values);
    match first_missing(layout, bits.len(), 0) {
        Some(k) => {
            assert(offset(layout, k) + layout[k] <= encode(values, layout).len());
        },
        None => {},
    }
}

/// A field of `w` bits is smaller than two to the `w`.
pub proof fn lemma_field_bound(bits: Seq<bool>, layout: Seq<usize>, i: int)
    requires
        0 <= i < layout.len(),
        layout[i] <= 32,
        decode(bits, layout) is Ok,
    ensures
        decode(bits, layout)->Ok_0.len() == layout.len(),
        (decode(bits, layout)->Ok_0[i] as nat) < pow2(layout[i] as nat),
{
    lemma_first_missing(layout, bits.len(), 0);
    let part = bits.subrange(offset(layout, i) as int, offset(layout, i) + layout[i]);
    assert(offset(layout, i) + layout[i] <= bits.len());
    lemma_value_bound(part);
    lemma2_to64();
    if layout[i] < 32 {
        vstd::arithmetic::power2::lemma_pow2_strictly_increases(layout[i] as nat, 32);
    }
}

/// A bit stream of whole bytes survives being stored in bytes, whatever bytes follow.
pub proof fn law_bits_of_bytes(bits: Seq<bool>, rest: Seq<u8>)
    requires
        bits.len() % 8 == 0,
    ensures
        bits_of_bytes(bytes_of_bits(bits) + rest) == bits + bits_of_bytes(rest),
{
    let bytes = bytes_of_bits(bits) + rest;
    let n = bits.len() as int;
    assert forall|p: int| 0 <= p < 8 * bytes.len() implies bits_of_bytes(bytes)[p] == (bits
        + bits_of_bytes(rest))[p] by {
        if p < n {
            let j = p / 8;
            let part = bits.subrange(8 * j, 8 * j + 8);
            lemma_value_bound(part);
            lemma2_to64();
            lemma_bits_of_value(part);
            assert(bits_of(value_of(part), 8)[p % 8] == part[p % 8]);
        } else {
            assert((p - n) / 8 == p / 8 - n / 8);
            assert((p - n) % 8 == p % 8);
        }
    }
    assert(bits_of_bytes(bytes) =~= bits + bits_of_bytes(rest));
}

/// Fields that were packed into whole bytes can be read back, whatever bytes follow.
pub proof fn law_fields_round_trip(values: Seq<u32>, layout: Seq<usize>, rest: Seq<u8>)
    requires
        values_fit(values, layout),
        offset(layout, layout.len() as int) % 8 == 0,
    ensures
        decode(bits_of_bytes(bytes_of_bits(encode(values, layout)) + rest), layout) == Ok::<
            Seq<u32>,
            UnpackError,
        >(values),
        bytes_of_bits(encode(values, layout)).len() == offset(layout, layout.len() as int) / 8,
{
    lemma_encode(values, layout);
    law_bits_of_bytes(encode(values, layout), rest);
    law_decode_encode(values, layout, bits_of_bytes(rest));
}

/// Appends the `width` lowest bits of `v`.
fn write_bits(out: &mut Vec<bool>, v: u32, width: usize)
    ensures
        final(out)@ == old(out)@ + bits_of(v as nat, width as nat),
{
    let mut k: usize = 0;
    let mut cur: u32 = v;
    proof {
        lemma2_to64();
    }
    while k < width
        invariant
            k <= width,
            cur == v as nat / pow2(k as nat),
            out@ == old(out)@ + bits_of(v as nat, k as nat),
        decreases width - k,
    {
        out.push(cur % 2 == 1);
        proof {
            lemma_pow2_unfold((k + 1) as nat);
            lemma_pow2_pos(k as nat);
            lemma_div_denominator(v as int, pow2(k as nat) as int, 2);
            assert(bits_of(v as nat, (k + 1) as nat) =~= bits_of(v as nat, k as nat).push(
                bit(v as nat, k as nat),
            ));
        }
        cur = cur / 2;
        k = k + 1;
    }
}

/// The number that bits `from..to` of `bits` spell.
fn read_bits(bits: &Vec<bool>, from: usize, to: usize) -> (v: u32)
    requires
        from <= to <= bits@.len(),
        to - from <= 32,
    ensures
        v == value_of(bits@.subrange(from as int, to as int)),
{
    let mut j: usize = to;
    let mut acc: u64 = 0;
    proof {
        lemma2_to64();
    }
    while j > from
        invariant
            from <= j <= to <= bits@.len(),
            to - from <= 32,
            acc == value_of(bits@.subrange(j as int, to as int)),
            pow2(32) == 0x1_0000_0000,
        decreases j,
    {
        let ghost s = bits@.subrange(j as int, to as int);
        j = j - 1;
        proof {
            let t = bits@.subrange(j as int, to as int);
            assert(t.skip(1) =~= s);
            lemma_value_bound(s);
            lemma_value_bound(t);
            vstd::arithmetic::power2::lemma_pow2_strictly_increases(s.len(), 32);
        }
        acc = 2 * acc + (if bits[j] { 1 } else { 0 });
    }
    proof {
        let t = bits@.subrange(from as int, to as int);
        lemma_value_bound(t);
        if t.len() < 32 {
            vstd::arithmetic::power2::lemma_pow2_strictly_increases(t.len(), 32);
        }
    }
    acc as u32
}

/// Stores a bit stream of whole bytes in bytes.
fn bits_to_bytes(bits: &Vec<bool>) -> (bytes: Vec<u8>)
    ensures
        bytes@ == bytes_of_bits(bits@),
{
    let mut bytes: Vec<u8> = Vec::new();
    let len: usize = bits.len();
    let mut j: usize = 0;
    while j < len / 8
        invariant
            j <= len / 8,
            len == bits@.len(),
            bytes@.len() == j,
            forall|i: int| 0 <= i < j ==> bytes@[i] == bytes_of_bits(bits@)[i],
        decreases len - j,
    {
        let v: u32 = read_bits(bits, 8 * j, 8 * j + 8);
        proof {
            lemma_value_bound(bits@.subrange(8 * j as int, 8 * j + 8));
            lemma2_to64();
        }
        bytes.push(v as u8);
        j = j + 1;
    }
    proof {
        assert(bytes@ =~= bytes_of_bits(bits@));
    }
    bytes
}

/// The bit stream that `bytes` hold.
fn bytes_to_bits(bytes: &[u8]) -> (bits: Vec<bool>)
    ensures
        bits@ == bits_of_bytes(bytes@),
{
    let mut bits: Vec<bool> = Vec::new();
    let mut j: usize = 0;
    while j < bytes.len()
        invariant
            j <= bytes@.len(),
            bits@ == bits_of_bytes(bytes@.take(j as int)),
        decreases bytes@.len() - j,
    {
        let ghost before = bits@;
        write_bits(&mut bits, bytes[j] as u32, 8);
        proof {
            let next = bytes@.take(j + 1);
            assert forall|p: int| 0 <= p < 8 * (j + 1) implies bits@[p] == bits_of_bytes(next)[p] by {
                if p < 8 * j {
                    assert(before[p] == bits_of_bytes(bytes@.take(j as int))[p]);
                } else {
                    assert(p / 8 == j);
                    assert(bits@[p] == bits_of(bytes@[j as int] as nat, 8)[p - 8 * j]);
                }
            }
            assert(bits@ =~= bits_of_bytes(next));
        }
        j = j + 1;
    }
    proof {
        assert(bytes@.take(j as int) =~= bytes@);
    }
    bits
}

/// Packs `values` into the fields of `layout`.
pub fn write_fields(values: &Vec<u32>, layout: &Vec<usize>) -> (bytes: Vec<u8>)
    requires
        values@.len() == layout@.len(),
    ensures
        bytes@ == bytes_of_bits(encode(values@, layout@)),
{
    let mut bits: Vec<bool> = Vec::new();
    let mut i: usize = 0;
    while i < layout.len()
        invariant
            i <= layout@.len(),
            values@.len() == layout@.len(),
            bits@ == encode(values@.take(i as int), layout@.take(i as int)),
        decreases layout@.len() - i,
    {
        write_bits(&mut bits, values[i], layout[i]);
        proof {
            assert(values@.take(i + 1).drop_last() =~= values@.take(i as int));
            assert(layout@.take(i + 1).drop_last() =~= layout@.take(i as int));
        }
        i = i + 1;
    }
    proof {
        assert(values@.take(i as int) =~= values@);
        assert(layout@.take(i as int) =~= layout@);
    }
    bits_to_bytes(&bits)
}

/// Reads the fields of `layout` from the start of `bytes`.
pub fn read_fields(bytes: &[u8], layout: &Vec<usize>) -> (r: Result<Vec<u32>, UnpackError>)
    requires
        layout_ok(layout@),
    ensures
        match r {
            Ok(values) => decode(bits_of_bytes(bytes@), layout@) == Ok::<Seq<u32>, UnpackError>(
                values@,
            ),
            Err(e) => decode(bits_of_bytes(bytes@), layout@) == Err::<Seq<u32>, UnpackError>(e),
        },
{
    let bits: Vec<bool> = bytes_to_bits(bytes);
    let mut values: Vec<u32> = Vec::new();
    let mut i: usize = 0;
    let mut pos: usize = 0;
    while i < layout.len()
        invariant
            i <= layout@.len(),
            layout_ok(layout@),
            pos == offset(layout@, i as int),
            pos <= bits@.len(),
            bits@ == bits_of_bytes(bytes@),
            first_missing(layout@, bits@.len(), 0) == first_missing(layout@, bits@.len(), i as int),
            values@.len() == i,
            forall|k: int| 0 <= k < i ==> values@[k] == field(bits@, layout@, k),
        decreases layout@.len() - i,
    {
        let width: usize = layout[i];
        if bits.len() - pos < width {
            return Err(UnpackError::Incomplete { bits: width });
        }
        let v: u32 = read_bits(&bits, pos, pos + width);
        values.push(v);
        pos = pos + width;
        i = i + 1;
    }
    proof {
        assert(values@ =~= Seq::new(layout@.len(), |k: int| field(bits@, layout@, k)));
    }
    Ok(values)
}

/// Fields cannot be read exactly if the stream ends inside one of them, and the error tells the
/// width of the field that is cut off.
pub proof fn law_cut_off_field(bits: Seq<bool>, layout: Seq<usize>)
    ensures
        decode(bits, layout) is Err <==> exists|i: int|
            0 <= i < layout.len() && offset(layout, i) <= bits.len() < offset(layout, i)
                + #[trigger] layout[i],
        decode(bits, layout) is Err ==> exists|i: int|
            0 <= i < layout.len() && offset(layout, i) <= bits.len() < offset(layout, i)
                + #[trigger] layout[i] && decode(bits, layout)->Err_0 == (UnpackError::Incomplete {
                bits: layout[i],
            }),
{
    lemma_first_missing(layout, bits.len(), 0);
    if let Some(k) = first_missing(layout, bits.len(), 0) {
        if k > 0 {
            assert(offset(layout, k - 1) + layout[k - 1] <= bits.len());
        }
        assert(offset(layout, k) <= bits.len() < offset(layout, k) + layout[k]);
    }
}

} // verus!
