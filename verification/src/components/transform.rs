//! The components that place an entity in the plane.

use crate::components::TypedComponent;
use crate::math::{
    scalar_bytes, scalar_from_bytes, scalar_of_bytes, scalar_to_bytes, ScalarBits, Vec2,
};
use crate::registry::{ComponentRegistration, RuntimeTypeId};
use crate::type_key::TypeKey;
use vstd::bytes::lemma_auto_spec_u32_to_from_le_bytes;
use vstd::prelude::*;

verus! {

/// The type key of `Position2DComponent`.
pub const POSITION_2D_KEY: u128 = 0x8bf67228_f96c_4649_b306_ecd107194cf0;

/// The type key of `UniformScale2DComponent`.
pub const UNIFORM_SCALE_2D_KEY: u128 = 0xea1118ac_ebbe_433b_8532_e8938cd3a2dc;

/// The type key of `NonUniformScale2DComponent`.
pub const NON_UNIFORM_SCALE_2D_KEY: u128 = 0x3318484f_d816_4f8e_b6d2_accd66e49276;

/// The type key of `Rotation2DComponent`.
pub const ROTATION_2D_KEY: u128 = 0x6841f13d_fe38_4320_a8f8_1a6133f45e33;

/// No two of the four component types share a type key.
pub proof fn lemma_keys_distinct()
    ensures
        Position2DComponent::key() != UniformScale2DComponent::key(),
        Position2DComponent::key() != NonUniformScale2DComponent::key(),
        Position2DComponent::key() != Rotation2DComponent::key(),
        UniformScale2DComponent::key() != NonUniformScale2DComponent::key(),
        UniformScale2DComponent::key() != Rotation2DComponent::key(),
        NonUniformScale2DComponent::key() != Rotation2DComponent::key(),
{
}

/// The position of an entity in the plane.
#[derive(Clone, Copy, Debug, PartialEq, Eq, Structural)]
pub struct Position2DComponent {
    pub position: Vec2,
}

impl Default for Position2DComponent {
    fn default() -> (value: Position2DComponent)
        ensures
            value == (Position2DComponent { position: Vec2 { x: 0, y: 0 } }),
    {
        Position2DComponent { position: Vec2 { x: 0, y: 0 } }
    }
}

impl TypedComponent for Position2DComponent {
    open spec fn key() -> TypeKey {
        TypeKey { value: POSITION_2D_KEY }
    }

    open spec fn alignment() -> nat {
        4
    }

    open spec fn default_value() -> Position2DComponent {
        Position2DComponent { position: Vec2 { x: 0, y: 0 } }
    }

    open spec fn bytes(self) -> Seq<u8> {
        self.position.bytes()
    }

    open spec fn of_bytes(bytes: Seq<u8>) -> Option<Position2DComponent> {
        if bytes.len() == 8 {
            Some(Position2DComponent { position: Vec2::of_bytes(bytes) })
        } else {
            None
        }
    }

    proof fn lemma_round_trip(self) {
        Vec2::lemma_bytes_round_trip();
        assert(self.position.bytes().len() == 8);
    }

    proof fn lemma_of_bytes(bytes: Seq<u8>) {
        Vec2::lemma_bytes_round_trip();
        if bytes.len() == 8 {
            assert(Vec2::of_bytes(bytes).bytes() == bytes);
        }
    }

    fn type_key() -> (key: TypeKey) {
        TypeKey { value: POSITION_2D_KEY }
    }

    fn to_bytes(&self) -> (bytes: Vec<u8>) {
        self.position.to_bytes()
    }

    fn from_bytes(bytes: &Vec<u8>) -> (value: Option<Position2DComponent>) {
        if bytes.len() == 8 {
            assert(bytes@.subrange(0, 8) =~= bytes@);
            Some(Position2DComponent { position: Vec2::from_bytes(bytes, 0) })
        } else {
            None
        }
    }

    fn registration(runtime_type: RuntimeTypeId) -> (table: ComponentRegistration) {
        ComponentRegistration::new(
            Self::type_key(),
            runtime_type,
            4,
            Position2DComponent::default().to_bytes(),
        )
    }
}

/// The scale of an entity, the same along both axes.
#[derive(Clone, Copy, Debug, PartialEq, Eq, Structural)]
pub struct UniformScale2DComponent {
    pub uniform_scale: ScalarBits,
}

impl Default for UniformScale2DComponent {
    fn default() -> (value: UniformScale2DComponent)
        ensures
            value == (UniformScale2DComponent { uniform_scale: 0 }),
    {
        UniformScale2DComponent { uniform_scale: 0 }
    }
}

impl TypedComponent for UniformScale2DComponent {
    open spec fn key() -> TypeKey {
        TypeKey { value: UNIFORM_SCALE_2D_KEY }
    }

    open spec fn alignment() -> nat {
        4
    }

    open spec fn default_value() -> UniformScale2DComponent {
        UniformScale2DComponent { uniform_scale: 0 }
    }

    open spec fn bytes(self) -> Seq<u8> {
        scalar_bytes(self.uniform_scale)
    }

    open spec fn of_bytes(bytes: Seq<u8>) -> Option<UniformScale2DComponent> {
        if bytes.len() == 4 {
            Some(UniformScale2DComponent { uniform_scale: scalar_of_bytes(bytes) })
        } else {
            None
        }
    }

    proof fn lemma_round_trip(self) {
        lemma_auto_spec_u32_to_from_le_bytes();
    }

    proof fn lemma_of_bytes(bytes: Seq<u8>) {
        lemma_auto_spec_u32_to_from_le_bytes();
    }

    fn type_key() -> (key: TypeKey) {
        TypeKey { value: UNIFORM_SCALE_2D_KEY }
    }

    fn to_bytes(&self) -> (bytes: Vec<u8>) {
        scalar_to_bytes(self.uniform_scale)
    }

    fn from_bytes(bytes: &Vec<u8>) -> (value: Option<UniformScale2DComponent>) {
        if bytes.len() == 4 {
            assert(bytes@.subrange(0, 4) =~= bytes@);
            Some(UniformScale2DComponent { uniform_scale: scalar_from_bytes(bytes, 0) })
        } else {
            None
        }
    }

    fn registration(runtime_type: RuntimeTypeId) -> (table: ComponentRegistration) {
        ComponentRegistration::new(
            Self::type_key(),
            runtime_type,
            4,
            UniformScale2DComponent::default().to_bytes(),
        )
    }
}

/// The scale of an entity along each axis.
#[derive(Clone, Copy, Debug, PartialEq, Eq, Structural)]
pub struct NonUniformScale2DComponent {
    pub non_uniform_scale: Vec2,
}

impl Default for NonUniformScale2DComponent {
    fn default() -> (value: NonUniformScale2DComponent)
        ensures
            value == (NonUniformScale2DComponent { non_uniform_scale: Vec2 { x: 0, y: 0 } }),
    {
        NonUniformScale2DComponent { non_uniform_scale: Vec2 { x: 0, y: 0 } }
    }
}

impl TypedComponent for NonUniformScale2DComponent {
    open spec fn key() -> TypeKey {
        TypeKey { value: NON_UNIFORM_SCALE_2D_KEY }
    }

    open spec fn alignment() -> nat {
        4
    }

    open spec fn default_value() -> NonUniformScale2DComponent {
        NonUniformScale2DComponent { non_uniform_scale: Vec2 { x: 0, y: 0 } }
    }

    open spec fn bytes(self) -> Seq<u8> {
        self.non_uniform_scale.bytes()
    }

    open spec fn of_bytes(bytes: Seq<u8>) -> Option<NonUniformScale2DComponent> {
        if bytes.len() == 8 {
            Some(NonUniformScale2DComponent { non_uniform_scale: Vec2::of_bytes(bytes) })
        } else {
            None
        }
    }

    proof fn lemma_round_trip(self) {
        Vec2::lemma_bytes_round_trip();
        assert(self.non_uniform_scale.bytes().len() == 8);
    }

    proof fn lemma_of_bytes(bytes: Seq<u8>) {
        Vec2::lemma_bytes_round_trip();
        if bytes.len() == 8 {
            assert(Vec2::of_bytes(bytes).bytes() == bytes);
        }
    }

    fn type_key() -> (key: TypeKey) {
        TypeKey { value: NON_UNIFORM_SCALE_2D_KEY }
    }

    fn to_bytes(&self) -> (bytes: Vec<u8>) {
        self.non_uniform_scale.to_bytes()
    }

    fn from_bytes(bytes: &Vec<u8>) -> (value: Option<NonUniformScale2DComponent>) {
        if bytes.len() == 8 {
            assert(bytes@.subrange(0, 8) =~= bytes@);
            Some(NonUniformScale2DComponent { non_uniform_scale: Vec2::from_bytes(bytes, 0) })
        } else {
            None
        }
    }

    fn registration(runtime_type: RuntimeTypeId) -> (table: ComponentRegistration) {
        ComponentRegistration::new(
            Self::type_key(),
            runtime_type,
            4,
            NonUniformScale2DComponent::default().to_bytes(),
        )
    }
}

/// The rotation of an entity in the plane.
#[derive(Clone, Copy, Debug, PartialEq, Eq, Structural)]
pub struct Rotation2DComponent {
    pub rotation: ScalarBits,
}

impl Default for Rotation2DComponent {
    fn default() -> (value: Rotation2DComponent)
        ensures
            value == (Rotation2DComponent { rotation: 0 }),
    {
        Rotation2DComponent { rotation: 0 }
    }
}

impl TypedComponent for Rotation2DComponent {
    open spec fn key() -> TypeKey {
        TypeKey { value: ROTATION_2D_KEY }
    }

    open spec fn alignment() -> nat {
        4
    }

    open spec fn default_value() -> Rotation2DComponent {
        Rotation2DComponent { rotation: 0 }
    }

    open spec fn bytes(self) -> Seq<u8> {
        scalar_bytes(self.rotation)
    }

    open spec fn of_bytes(bytes: Seq<u8>) -> Option<Rotation2DComponent> {
        if bytes.len() == 4 {
            Some(Rotation2DComponent { rotation: scalar_of_bytes(bytes) })
        } else {
            None
        }
    }

    proof fn lemma_round_trip(self) {
        lemma_auto_spec_u32_to_from_le_bytes();
    }

    proof fn lemma_of_bytes(bytes: Seq<u8>) {
        lemma_auto_spec_u32_to_from_le_bytes();
    }

    fn type_key() -> (key: TypeKey) {
        TypeKey { value: ROTATION_2D_KEY }
    }

    fn to_bytes(&self) -> (bytes: Vec<u8>) {
        scalar_to_bytes(self.rotation)
    }

    fn from_bytes(bytes: &Vec<u8>) -> (value: Option<Rotation2DComponent>) {
        if bytes.len() == 4 {
            assert(bytes@.subrange(0, 4) =~= bytes@);
            Some(Rotation2DComponent { rotation: scalar_from_bytes(bytes, 0) })
        } else {
            None
        }
    }

    fn registration(runtime_type: RuntimeTypeId) -> (table: ComponentRegistration) {
        ComponentRegistration::new(
            Self::type_key(),
            runtime_type,
            4,
            Rotation2DComponent::default().to_bytes(),
        )
    }
}

} // verus!
