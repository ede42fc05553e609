//! Identifiers of entities and of component types.

use vstd::bytes::{
    lemma_auto_spec_u128_to_from_le_bytes, spec_u128_from_le_bytes, spec_u128_to_le_bytes,
    u128_from_le_bytes, u128_to_le_bytes,
};
use vstd::prelude::*;

verus! {

/// Identifier of an entity inside one container.
pub type EntityId = u64;

/// Stable identity of a component type.
///
/// The identity is a 16-byte value that is assigned where the type is
/// defined and never derived from an address or an allocation. It is held
/// as the 128-bit integer whose big-endian bytes are those 16 bytes.
#[derive(Clone, Copy, Debug, PartialEq, Eq, Structural, Hash)]
pub struct TypeKey {
    pub value: u128,
}

/// A copy of `bytes` in the opposite order.
fn reversed(bytes: &[u8]) -> (result: Vec<u8>)
    ensures
        result@ == bytes@.reverse(),
{
    let mut result: Vec<u8> = Vec::new();
    let mut i: usize = 0;
    while i < bytes.len()
        invariant
            i <= bytes.len(),
            result@.len() == i,
            forall|j: int| 0 <= j < i ==> result@[j] == bytes@[bytes@.len() - 1 - j],
        decreases bytes.len() - i,
    {
        result.push(bytes[bytes.len() - 1 - i]);
        i += 1;
    }
    assert(result@ =~= bytes@.reverse());
    result
}

impl TypeKey {
    /// The key whose 16 bytes are `bytes`, first byte first.
    pub open spec fn of_bytes(bytes: Seq<u8>) -> TypeKey {
        TypeKey { value: spec_u128_from_le_bytes(bytes.reverse()) }
    }

    /// The 16 bytes of the key, first byte first.
    pub open spec fn bytes(self) -> Seq<u8> {
        spec_u128_to_le_bytes(self.value).reverse()
    }

    /// The key with the given 128-bit value.
    pub fn new(value: u128) -> (key: TypeKey)
        ensures
            key.value == value,
    {
        TypeKey { value }
    }

    /// The key whose 16 bytes are `bytes`, or `None` where `bytes` are not
    /// 16 bytes.
    pub fn from_bytes(bytes: &[u8]) -> (key: Option<TypeKey>)
        ensures
            key == (if bytes@.len() == 16 {
                Some(TypeKey::of_bytes(bytes@))
            } else {
                None
            }),
    {
        if bytes.len() != 16 {
            return None;
        }
        let turned = reversed(bytes);
        Some(TypeKey { value: u128_from_le_bytes(turned.as_slice()) })
    }

    /// The 16 bytes of the key.
    pub fn to_bytes(&self) -> (bytes: Vec<u8>)
        ensures
            bytes@ == self.bytes(),
            bytes@.len() == 16,
    {
        proof {
            lemma_auto_spec_u128_to_from_le_bytes();
        }
        let low_first = u128_to_le_bytes(self.value);
        reversed(low_first.as_slice())
    }

    /// A key is read back from its bytes, and 16 bytes are the bytes of the
    /// key that they make.
    pub proof fn lemma_bytes_round_trip()
        ensures
            forall|key: TypeKey| #[trigger]
                key.bytes().len() == 16 && TypeKey::of_bytes(key.bytes()) == key,
            forall|bytes: Seq<u8>|
                bytes.len() == 16 ==> (#[trigger] TypeKey::of_bytes(bytes)).bytes() == bytes,
    {
        lemma_auto_spec_u128_to_from_le_bytes();
        assert forall|key: TypeKey| #[trigger]
            key.bytes().len() == 16 && TypeKey::of_bytes(key.bytes()) == key by {
            let low_first = spec_u128_to_le_bytes(key.value);
            assert(low_first.reverse().reverse() =~= low_first);
        }
        assert forall|bytes: Seq<u8>| bytes.len() == 16 implies (#[trigger] TypeKey::of_bytes(
            bytes,
        )).bytes() == bytes by {
            assert(bytes.reverse().len() == 16);
            assert(bytes.reverse().reverse() =~= bytes);
        }
    }
}

} // verus!
