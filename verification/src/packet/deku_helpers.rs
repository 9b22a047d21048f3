//! Packing into packets of a fixed size.

use crate::protocol::deku_helpers::{padded, PackBytes};
use vstd::prelude::*;

verus! {

/// `bytes`, cut off or filled up with zeros to `size`.
pub open spec fn resized(bytes: Seq<u8>, size: nat) -> Seq<u8> {
    if bytes.len() > size {
        bytes.take(size as int)
    } else {
        padded(bytes, size)
    }
}

/// Packed sizes cannot be inferred because the size of an enum depends on its variant.
/// This trait provides fixed-size packing methods that make enums take the space of their largest
/// variant, as long as they only appear as the last element in a struct.
pub trait FixedSizePacking<const SIZE: usize>: PackBytes {
    fn packed_size() -> (size: usize)
        ensures
            size == SIZE,
    {
        SIZE
    }

    fn pack_padded(&self) -> (bytes: Vec<u8>)
        requires
            self.packable(),
        ensures
            bytes@ == resized(self.bytes(), SIZE as nat),
    {
        let mut bytes: Vec<u8> = self.to_bytes();
        bytes.resize(Self::packed_size(), 0);
        proof {
            assert(bytes@ =~= resized(self.bytes(), SIZE as nat));
        }
        bytes
    }
}

} // verus!
