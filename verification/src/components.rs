//! Component types, and typed access to the components of a container.

use crate::registry::{ComponentRegistration, RegistrationView, RuntimeTypeId};
use crate::type_key::{EntityId, TypeKey};
use crate::world::World;
use vstd::prelude::*;

pub mod transform;

verus! {

/// A component type: values that a container stores as bytes under the
/// type's key.
pub trait TypedComponent: Sized {
    /// The stable key of the type.
    spec fn key() -> TypeKey;

    /// The alignment in bytes of a value.
    spec fn alignment() -> nat;

    /// The value that the type constructs by default.
    spec fn default_value() -> Self;

    /// The bytes of a value.
    spec fn bytes(self) -> Seq<u8>;

    /// The value that `bytes` hold, or `None` where they hold none.
    spec fn of_bytes(bytes: Seq<u8>) -> Option<Self>;

    /// A value is read back from its bytes.
    proof fn lemma_round_trip(self)
        ensures
            Self::of_bytes(self.bytes()) == Some(self),
    ;

    /// Bytes that hold a value are the bytes of that value.
    proof fn lemma_of_bytes(bytes: Seq<u8>)
        ensures
            Self::of_bytes(bytes) matches Some(value) ==> value.bytes() == bytes,
    ;

    /// The stable key of the type.
    fn type_key() -> (key: TypeKey)
        ensures
            key == Self::key(),
    ;

    /// The bytes of the value.
    fn to_bytes(&self) -> (bytes: Vec<u8>)
        ensures
            bytes@ == self.bytes(),
    ;

    /// The value that `bytes` hold, or `None` where they hold none.
    fn from_bytes(bytes: &Vec<u8>) -> (value: Option<Self>)
        ensures
            value == Self::of_bytes(bytes@),
    ;

    /// The behaviour table of the type, for the in-process token
    /// `runtime_type`.
    fn registration(runtime_type: RuntimeTypeId) -> (table: ComponentRegistration)
        ensures
            table@ == (RegistrationView {
                type_key: Self::key(),
                runtime_type,
                align: Self::alignment(),
                default_value: Self::default_value().bytes(),
            }),
    ;
}

/// Stores `value` as the component of its type on `entity`, replacing the
/// one that was there. Does nothing and returns `false` when the entity is
/// not in the container.
pub fn insert_component<T: TypedComponent>(world: &mut World, entity: EntityId, value: &T) -> (stored:
    bool)
    requires
        old(world).wf(),
    ensures
        final(world).wf(),
        stored == old(world)@.entities.contains(entity),
        final(world)@.entities == old(world)@.entities,
        final(world)@.next_id == old(world)@.next_id,
        stored ==> final(world)@.components == old(world)@.components.insert(
            (entity, T::key()),
            value.bytes(),
        ),
        !stored ==> final(world)@.components == old(world)@.components,
{
    world.insert(entity, T::type_key(), value.to_bytes())
}

/// The component of type `T` on `entity`: the value that the bytes stored
/// under the key of `T` hold. `None` where the entity has no such
/// component, or where the bytes hold no value of `T`.
pub fn get_component<T: TypedComponent>(world: &World, entity: EntityId) -> (value: Option<T>)
    ensures
        value == (if world@.has(entity, T::key()) {
            T::of_bytes(world@.components[(entity, T::key())])
        } else {
            None
        }),
{
    match world.get(entity, T::type_key()) {
        Some(bytes) => T::from_bytes(bytes),
        None => None,
    }
}

} // verus!
