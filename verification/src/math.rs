//! Numbers and vectors as the containers store them.

use vstd::bytes::{
    lemma_auto_spec_u32_to_from_le_bytes, spec_u32_from_le_bytes, spec_u32_to_le_bytes,
    u32_from_le_bytes, u32_to_le_bytes,
};
use vstd::prelude::*;
use vstd::slice::slice_subrange;

verus! {

/// A single-precision number, held as its IEEE 754 bit pattern.
pub type ScalarBits = u32;

/// The four bytes of a single-precision number, least significant first.
pub open spec fn scalar_bytes(bits: ScalarBits) -> Seq<u8> {
    spec_u32_to_le_bytes(bits)
}

/// The single-precision number that four bytes hold.
pub open spec fn scalar_of_bytes(bytes: Seq<u8>) -> ScalarBits {
    spec_u32_from_le_bytes(bytes)
}

/// The four bytes of a single-precision number.
pub fn scalar_to_bytes(bits: ScalarBits) -> (bytes: Vec<u8>)
    ensures
        bytes@ == scalar_bytes(bits),
        bytes@.len() == 4,
{
    proof {
        lemma_auto_spec_u32_to_from_le_bytes();
    }
    u32_to_le_bytes(bits)
}

/// The single-precision number held by the four bytes of `bytes` that start
/// at `offset`.
pub fn scalar_from_bytes(bytes: &Vec<u8>, offset: usize) -> (bits: ScalarBits)
    requires
        offset + 4 <= bytes.len(),
    ensures
        bits == scalar_of_bytes(bytes@.subrange(offset as int, offset + 4)),
{
    u32_from_le_bytes(slice_subrange(bytes.as_slice(), offset, offset + 4))
}

/// A two-dimensional vector of single-precision numbers, each held as its
/// bit pattern.
#[derive(Clone, Copy, Debug, PartialEq, Eq, Structural)]
pub struct Vec2 {
    pub x: ScalarBits,
    pub y: ScalarBits,
}

impl Default for Vec2 {
    /// The vector whose two coordinates are positive zero.
    fn default() -> (vector: Vec2)
        ensures
            vector == (Vec2 { x: 0, y: 0 }),
    {
        Vec2 { x: 0, y: 0 }
    }
}

impl Vec2 {
    /// The eight bytes of the vector: `x`, then `y`.
    pub open spec fn bytes(self) -> Seq<u8> {
        scalar_bytes(self.x) + scalar_bytes(self.y)
    }

    /// The vector that eight bytes hold.
    pub open spec fn of_bytes(bytes: Seq<u8>) -> Vec2 {
        Vec2 {
            x: scalar_of_bytes(bytes.subrange(0, 4)),
            y: scalar_of_bytes(bytes.subrange(4, 8)),
        }
    }

    /// The eight bytes of the vector.
    pub fn to_bytes(&self) -> (bytes: Vec<u8>)
        ensures
            bytes@ == self.bytes(),
            bytes@.len() == 8,
    {
        let mut bytes = scalar_to_bytes(self.x);
        let mut tail = scalar_to_bytes(self.y);
        bytes.append(&mut tail);
        bytes
    }

    /// The vector held by the eight bytes of `bytes` that start at
    /// `offset`.
    pub fn from_bytes(bytes: &Vec<u8>, offset: usize) -> (vector: Vec2)
        requires
            offset + 8 <= bytes.len(),
        ensures
            vector == Vec2::of_bytes(bytes@.subrange(offset as int, offset + 8)),
    {
        let ghost part = bytes@.subrange(offset as int, offset + 8);
        assert(part.subrange(0, 4) =~= bytes@.subrange(offset as int, offset + 4));
        assert(part.subrange(4, 8) =~= bytes@.subrange(offset + 4, offset + 8));
        Vec2 { x: scalar_from_bytes(bytes, offset), y: scalar_from_bytes(bytes, offset + 4) }
    }

    /// A vector is read back from its bytes, and eight bytes are the bytes
    /// of the vector that they hold.
    pub proof fn lemma_bytes_round_trip()
        ensures
            forall|vector: Vec2| #[trigger]
                vector.bytes().len() == 8 && Vec2::of_bytes(vector.bytes()) == vector,
            forall|bytes: Seq<u8>|
                bytes.len() == 8 ==> (#[trigger] Vec2::of_bytes(bytes)).bytes() == bytes,
    {
        lemma_auto_spec_u32_to_from_le_bytes();
        assert forall|vector: Vec2| #[trigger]
            vector.bytes().len() == 8 && Vec2::of_bytes(vector.bytes()) == vector by {
            let bytes = vector.bytes();
            assert(bytes.subrange(0, 4) =~= scalar_bytes(vector.x));
            assert(bytes.subrange(4, 8) =~= scalar_bytes(vector.y));
        }
        assert forall|bytes: Seq<u8>| bytes.len() == 8 implies (#[trigger] Vec2::of_bytes(
            bytes,
        )).bytes() == bytes by {
            assert(bytes.subrange(0, 4) + bytes.subrange(4, 8) =~= bytes);
        }
    }
}

} // verus!
