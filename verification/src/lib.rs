//! A type-erased component registry and an entity clone/merge engine.
//!
//! Component values are stored as byte buffers tagged with a stable
//! [`TypeKey`]. A [`Registry`] maps each key to the behaviour table of its
//! component type, a [`TransformHandlerSet`] says how one component type is
//! turned into another while entities are copied, and a [`CloneMergeEngine`]
//! copies the entities of one [`World`] into another. An
//! [`EditorSelectableRegistry`] lets component types take part in building a
//! selection index over the entities of a world.

pub mod clone_merge;
pub mod components;
pub mod fn_selectable;
pub mod fn_transform;
pub mod handler_set;
pub mod math;
pub mod merge_laws;
pub mod prefab;
pub mod registry;
pub mod remap;
pub mod selection;
pub mod type_key;
pub mod world;

pub use clone_merge::{
    create_spawn_clone_impl, merge_allowed, CloneMergeEngine, CloneMergeError,
};
pub use components::transform::{
    NonUniformScale2DComponent, Position2DComponent, Rotation2DComponent,
    UniformScale2DComponent,
};
pub use components::{get_component, insert_component, TypedComponent};
pub use fn_selectable::FnSelectable;
pub use fn_transform::FnTransform;
pub use handler_set::{
    create_spawn_clone_impl_handler_set, ComponentTransform, FieldCopy, TransformHandlerSet,
    TransformMapping,
};
pub use math::{ScalarBits, Vec2};
pub use prefab::{temp_force_load_asset, temp_force_prefab_cook};
pub use registry::{
    create_component_registry, create_component_registry_by_uuid, ComponentRegistration,
    Registry, RegistryError, RuntimeTypeId,
};
pub use remap::EntityRemapTable;
pub use selection::{
    create_editor_selection_registry, ComponentShape, EditorSelectable,
    EditorSelectableRegistry, SelectableEntry, SelectionShape, SelectionVisit, SelectionWorld,
};
pub use type_key::{EntityId, TypeKey};
pub use world::{World, WorldView};
