//! Fixed-size packing, and the integer codes that stand for real numbers in a packet.

use crate::protocol::bits::UnpackError;
use vstd::arithmetic::power2::{lemma2_to64, lemma_pow2_pos, lemma_pow2_strictly_increases, lemma_pow2_unfold, pow2};
use vstd::prelude::*;

verus! {

/// Types with an encoding in bytes.
pub trait PackBytes {
    /// Whether every part of the value fits into its place in the encoding.
    spec fn packable(&self) -> bool;

    /// The encoding, without any padding.
    spec fn bytes(&self) -> Seq<u8>;

    fn to_bytes(&self) -> (bytes: Vec<u8>)
        requires
            self.packable(),
        ensures
            bytes@ == self.bytes(),
    ;
}

/// Reverse of [PackBytes].
pub trait UnpackBytes: Sized {
    /// Why `bytes` do not start with an encoded value, or `None` if they do.
    spec fn unpack_error(bytes: Seq<u8>) -> Option<UnpackError>;

    /// Whether this is the value at the start of `bytes`.
    spec fn unpacked(&self, bytes: Seq<u8>) -> bool;

    fn from_bytes(bytes: &[u8]) -> (r: Result<Self, UnpackError>)
        ensures
            match r {
                Ok(v) => Self::unpack_error(bytes@) is None && v.unpacked(bytes@),
                Err(e) => Self::unpack_error(bytes@) == Some(e),
            },
    ;
}

/// `bytes`, filled up with zeros to `size`.
pub open spec fn padded(bytes: Seq<u8>, size: nat) -> Seq<u8> {
    bytes + Seq::new((size - bytes.len()) as nat, |i: int| 0u8)
}

/// Encodings tightly pack enums, but the packets are fixed-size, regardless of which variant is
/// used. This trait provides fixed-size packing functions that make enums at the end of a struct
/// take the space of their largest variant.
pub trait PacketPacking<const SIZE: usize> {
    /// Whether the value can be packed into `SIZE` bytes.
    spec fn can_pack(&self) -> bool;

    /// The `SIZE` bytes of the packed value.
    spec fn packed(&self) -> Seq<u8>;

    fn packed_size() -> (size: usize)
        ensures
            size == SIZE,
    {
        SIZE
    }

    /// Writes the packed value to the start of `slice`.
    fn pack_to_slice(&self, slice: &mut [u8])
        requires
            self.can_pack(),
            old(slice)@.len() >= SIZE,
        ensures
            self.packed().len() == SIZE,
            final(slice)@ == self.packed() + old(slice)@.skip(SIZE as int),
    ;

    fn pack_to_vec(&self) -> (bytes: Vec<u8>)
        requires
            self.can_pack(),
        ensures
            bytes@ == self.packed(),
            bytes@.len() == SIZE,
    {
        let mut bytes: Vec<u8> = vec![0u8; SIZE];
        self.pack_to_slice(bytes.as_mut_slice());
        proof {
            assert(bytes@ =~= self.packed());
        }
        bytes
    }
}

/// Reverse of [PacketPacking].
pub trait PacketUnpacking<const SIZE: usize>: Sized {
    /// Why `bytes` do not start with a packed value, or `None` if they do.
    spec fn refused(bytes: Seq<u8>) -> Option<UnpackError>;

    /// Whether this is the value at the start of `bytes`.
    spec fn read_from(&self, bytes: Seq<u8>) -> bool;

    fn packed_size() -> (size: usize)
        ensures
            size == SIZE,
    {
        SIZE
    }

    fn unpack(slice: &[u8]) -> (r: Result<Self, UnpackError>)
        ensures
            match r {
                Ok(v) => Self::refused(slice@) is None && v.read_from(slice@),
                Err(e) => Self::refused(slice@) == Some(e),
            },
    ;
}

/// Marker trait providing [PacketPacking] and [PacketUnpacking] for types with an encoding.
pub trait DekuPackedSize<const SIZE: usize>: PackBytes + UnpackBytes {

}

/// Overwrites the start of `slice` with `bytes`.
fn write_prefix(slice: &mut [u8], bytes: &[u8])
    requires
        bytes@.len() <= old(slice)@.len(),
    ensures
        final(slice)@ == bytes@ + old(slice)@.skip(bytes@.len() as int),
{
    let mut i: usize = 0;
    while i < bytes.len()
        invariant
            i <= bytes@.len() <= slice@.len(),
            slice@.len() == old(slice)@.len(),
            slice@ == bytes@.take(i as int) + old(slice)@.skip(i as int),
        decreases bytes@.len() - i,
    {
        slice[i] = bytes[i];
        i = i + 1;
        proof {
            assert(slice@ =~= bytes@.take(i as int) + old(slice)@.skip(i as int));
        }
    }
    proof {
        assert(bytes@.take(i as int) =~= bytes@);
    }
}

impl<const N: usize> PacketPacking<N> for [u8; N] {
    open spec fn can_pack(&self) -> bool {
        true
    }

    open spec fn packed(&self) -> Seq<u8> {
        self@
    }

    fn pack_to_slice(&self, slice: &mut [u8]) {
        write_prefix(slice, self);
    }
}

impl<const N: usize> PacketPacking<N> for Box<[u8; N]> {
    open spec fn can_pack(&self) -> bool {
        true
    }

    open spec fn packed(&self) -> Seq<u8> {
        (**self)@
    }

    fn pack_to_slice(&self, slice: &mut [u8]) {
        write_prefix(slice, &**self);
    }
}

impl<T: DekuPackedSize<SIZE>, const SIZE: usize> PacketPacking<SIZE> for T {
    open spec fn can_pack(&self) -> bool {
        self.packable() && self.bytes().len() <= SIZE
    }

    open spec fn packed(&self) -> Seq<u8> {
        padded(self.bytes(), SIZE as nat)
    }

    fn pack_to_slice(&self, slice: &mut [u8]) {
        let mut bytes: Vec<u8> = self.to_bytes();
        bytes.resize(SIZE, 0);
        proof {
            assert(bytes@ =~= self.packed());
        }
        write_prefix(slice, bytes.as_slice());
    }
}

/// The number of bits in `n` bytes, as far as it fits into a `usize`.
pub open spec fn bits_in(n: usize) -> usize {
    if n * 8 > usize::MAX {
        usize::MAX
    } else {
        (n * 8) as usize
    }
}

fn count_bits(n: usize) -> (bits: usize)
    ensures
        bits == bits_in(n),
{
    if n > usize::MAX / 8 {
        usize::MAX
    } else {
        n * 8
    }
}

/// The first `N` bytes of a slice, as an array.
fn array_prefix<const N: usize>(slice: &[u8]) -> (out: [u8; N])
    requires
        slice@.len() >= N,
    ensures
        out@ == slice@.take(N as int),
{
    let mut out: [u8; N] = [0u8; N];
    let mut i: usize = 0;
    while i < N
        invariant
            i <= N <= slice@.len(),
            out@.len() == N,
            forall|k: int| 0 <= k < i ==> out@[k] == slice@[k],
        decreases N - i,
    {
        out[i] = slice[i];
        i = i + 1;
    }
    proof {
        assert(out@ =~= slice@.take(N as int));
    }
    out
}

impl<const N: usize> PacketUnpacking<N> for [u8; N] {
    open spec fn refused(bytes: Seq<u8>) -> Option<UnpackError> {
        if bytes.len() < N {
            Some(UnpackError::Incomplete { bits: bits_in(N) })
        } else {
            None
        }
    }

    open spec fn read_from(&self, bytes: Seq<u8>) -> bool {
        self@ == bytes.take(N as int)
    }

    fn unpack(slice: &[u8]) -> (r: Result<Self, UnpackError>) {
        if slice.len() < N {
            return Err(UnpackError::Incomplete { bits: count_bits(N) });
        }
        Ok(array_prefix::<N>(slice))
    }
}

impl<const N: usize> PacketUnpacking<N> for Box<[u8; N]> {
    open spec fn refused(bytes: Seq<u8>) -> Option<UnpackError> {
        if bytes.len() < N {
            Some(UnpackError::Incomplete { bits: bits_in(N) })
        } else {
            None
        }
    }

    open spec fn read_from(&self, bytes: Seq<u8>) -> bool {
        (**self)@ == bytes.take(N as int)
    }

    fn unpack(slice: &[u8]) -> (r: Result<Self, UnpackError>) {
        if slice.len() < N {
            return Err(UnpackError::Incomplete { bits: count_bits(N) });
        }
        Ok(Box::new(array_prefix::<N>(slice)))
    }
}

impl<T: DekuPackedSize<SIZE>, const SIZE: usize> PacketUnpacking<SIZE> for T {
    open spec fn refused(bytes: Seq<u8>) -> Option<UnpackError> {
        T::unpack_error(bytes)
    }

    open spec fn read_from(&self, bytes: Seq<u8>) -> bool {
        self.unpacked(bytes)
    }

    fn unpack(slice: &[u8]) -> (r: Result<Self, UnpackError>) {
        T::from_bytes(slice)
    }
}

/// `y`, moved to the nearest number that a signed field of `bits` bits holds.
pub open spec fn clamp_int(y: int, bits: nat) -> int {
    let half = pow2((bits - 1) as nat) as int;
    if y < -half {
        -half
    } else if y > half - 1 {
        half - 1
    } else {
        y
    }
}

/// `y`, moved to the nearest number that an unsigned field of `bits` bits holds.
pub open spec fn clamp_uint(y: int, bits: nat) -> int {
    let max = pow2(bits) - 1;
    if y < 0 {
        0
    } else if y > max {
        max
    } else {
        y
    }
}

/// The field of `bits` bits that holds the code `y` in two's complement.
pub open spec fn int_field(y: int, bits: nat) -> int {
    let c = clamp_int(y, bits);
    if c < 0 {
        c + pow2(bits)
    } else {
        c
    }
}

/// The code that a field of `bits` bits holds in two's complement.
pub open spec fn int_of_field(field: int, bits: nat) -> int {
    if field >= pow2((bits - 1) as nat) {
        field - pow2(bits)
    } else {
        field
    }
}

/// `1 << bits`.
fn power_of_two(bits: usize) -> (p: i64)
    requires
        bits <= 32,
    ensures
        p == pow2(bits as nat),
        0 < p <= 0x1_0000_0000,
{
    let mut p: i64 = 1;
    let mut k: usize = 0;
    proof {
        lemma2_to64();
    }
    while k < bits
        invariant
            k <= bits <= 32,
            p == pow2(k as nat),
            pow2(32) == 0x1_0000_0000,
        decreases bits - k,
    {
        proof {
            lemma_pow2_unfold((k + 1) as nat);
            lemma_pow2_strictly_increases(k as nat, 32);
        }
        p = p * 2;
        k = k + 1;
    }
    proof {
        lemma_pow2_pos(bits as nat);
        if bits < 32 {
            lemma_pow2_strictly_increases(bits as nat, 32);
        }
    }
    p
}

/// The field that a signed code is written as.
pub fn int_to_field(y: i32, bits: usize) -> (field: u32)
    requires
        0 < bits <= 32,
    ensures
        field == int_field(y as int, bits as nat),
        field < pow2(bits as nat),
{
    let full: i64 = power_of_two(bits);
    let half: i64 = power_of_two(bits - 1);
    proof {
        lemma_pow2_unfold(bits as nat);
    }
    let mut c: i64 = y as i64;
    if c < -half {
        c = -half;
    } else if c > half - 1 {
        c = half - 1;
    }
    if c < 0 {
        (c + full) as u32
    } else {
        c as u32
    }
}

/// The signed code that a field holds.
pub fn int_from_field(field: u32, bits: usize) -> (y: i32)
    requires
        0 < bits <= 32,
        field < pow2(bits as nat),
    ensures
        y == int_of_field(field as int, bits as nat),
        clamp_int(y as int, bits as nat) == y,
        int_field(y as int, bits as nat) == field,
{
    let full: i64 = power_of_two(bits);
    let half: i64 = power_of_two(bits - 1);
    proof {
        lemma_pow2_unfold(bits as nat);
    }
    let f: i64 = field as i64;
    if f >= half {
        (f - full) as i32
    } else {
        f as i32
    }
}

/// The field that an unsigned code is written as.
pub fn uint_to_field(y: u32, bits: usize) -> (field: u32)
    requires
        0 < bits <= 32,
    ensures
        field == clamp_uint(y as int, bits as nat),
        field < pow2(bits as nat),
{
    let max: i64 = power_of_two(bits) - 1;
    if y as i64 > max {
        max as u32
    } else {
        y
    }
}

/// A signed code survives being written to a field and read back, but for codes that lie outside
/// the range of the field, which are moved into it.
pub proof fn law_int_field(y: int, bits: nat)
    requires
        bits > 0,
    ensures
        0 <= int_field(y, bits) < pow2(bits),
        int_of_field(int_field(y, bits), bits) == clamp_int(y, bits),
{
    lemma_pow2_unfold(bits);
    lemma_pow2_pos((bits - 1) as nat);
}

/// Filling up keeps the bytes and adds zeros behind them.
pub proof fn law_padding(bytes: Seq<u8>, size: nat)
    requires
        bytes.len() <= size,
    ensures
        padded(bytes, size).len() == size,
        padded(bytes, size).take(bytes.len() as int) == bytes,
        forall|i: int| bytes.len() <= i < size ==> #[trigger] padded(bytes, size)[i] == 0,
{
    assert(padded(bytes, size).take(bytes.len() as int) =~= bytes);
}

/// Codes that fit into a field stay as they are, all others become the nearest one that fits. Two's
/// complement: a negative code is stored as the code and all that the field can count.
pub proof fn law_codes(y: int, bits: nat)
    requires
        bits > 0,
    ensures
        ({
            let half = pow2((bits - 1) as nat) as int;
            &&& pow2(bits) == 2 * half
            &&& 0 <= y < half ==> int_field(y, bits) == y && int_of_field(y, bits) == y
            &&& -half <= y < 0 ==> int_field(y, bits) == y + 2 * half && int_of_field(
                y + 2 * half,
                bits,
            ) == y
            &&& y >= half ==> int_field(y, bits) == half - 1
            &&& y < -half ==> int_field(y, bits) == half
            &&& 0 <= y < 2 * half ==> clamp_uint(y, bits) == y
            &&& y >= 2 * half ==> clamp_uint(y, bits) == 2 * half - 1
            &&& y < 0 ==> clamp_uint(y, bits) == 0
        }),
{
    lemma_pow2_unfold(bits);
    lemma_pow2_pos((bits - 1) as nat);
}

/// An array is packed as its bytes, and read back from the front of any bytes that start with them.
pub proof fn law_array_round_trip<const N: usize>(a: [u8; N], b: [u8; N], rest: Seq<u8>)
    ensures
        <[u8; N] as PacketPacking<N>>::packed(&a) == a@,
        <[u8; N] as PacketUnpacking<N>>::refused(a@ + rest) is None,
        <[u8; N] as PacketUnpacking<N>>::read_from(&b, a@ + rest) <==> b@ == a@,
        rest.len() < N ==> <[u8; N] as PacketUnpacking<N>>::refused(rest) is Some,
{
    assert((a@ + rest).take(N as int) =~= a@);
}

/// A boxed array is packed and read like the array in it. Bytes that are too few are refused as a
/// field of the size of the array that is cut off.
pub proof fn law_boxed_array_round_trip<const N: usize>(
    a: Box<[u8; N]>,
    b: Box<[u8; N]>,
    rest: Seq<u8>,
)
    ensures
        <Box<[u8; N]> as PacketPacking<N>>::packed(&a) == (*a)@,
        <Box<[u8; N]> as PacketUnpacking<N>>::refused((*a)@ + rest) is None,
        <Box<[u8; N]> as PacketUnpacking<N>>::read_from(&b, (*a)@ + rest) <==> (*b)@ == (*a)@,
        rest.len() < N && 8 * N <= usize::MAX ==> {
            let error = UnpackError::Incomplete { bits: (8 * N) as usize };
            &&& <Box<[u8; N]> as PacketUnpacking<N>>::refused(rest) == Some(error)
            &&& <[u8; N] as PacketUnpacking<N>>::refused(rest) == Some(error)
        },
{
    assert(((*a)@ + rest).take(N as int) =~= (*a)@);
}

/// A packed value starts with its encoding, and zeros follow. It is read back by its encoding alone.
pub proof fn law_packed_value<T: DekuPackedSize<SIZE>, const SIZE: usize>(v: T, bytes: Seq<u8>)
    requires
        <T as PacketPacking<SIZE>>::can_pack(&v),
    ensures
        v.packable() && v.bytes().len() <= SIZE,
        <T as PacketPacking<SIZE>>::packed(&v).len() == SIZE,
        <T as PacketPacking<SIZE>>::packed(&v).take(v.bytes().len() as int) == v.bytes(),
        forall|i: int|
            v.bytes().len() <= i < SIZE ==> #[trigger] <T as PacketPacking<SIZE>>::packed(&v)[i]
                == 0,
        <T as PacketUnpacking<SIZE>>::refused(bytes) == T::unpack_error(bytes),
        <T as PacketUnpacking<SIZE>>::read_from(&v, bytes) <==> v.unpacked(bytes),
{
    law_padding(v.bytes(), SIZE as nat);
}

} // verus!
