//! Runs over a loaded prefab: the demonstration merges and the indices for
//! cooking.

use crate::clone_merge::{
    create_spawn_clone_impl, fails_at, lemma_assigned_counter, merged, CloneMergeError,
};
use crate::components::transform::Position2DComponent;
use crate::components::TypedComponent;
use crate::handler_set::{FieldCopy, TransformHandlerSet, TransformMapping};
use crate::registry::{
    all_accepted, create_component_registry, create_component_registry_by_uuid, keyed_tables,
    register_error, registered_upto, table_views, ComponentRegistration, RegistrationView,
    Registry, RegistryError,
};
use std::collections::HashMap;
use crate::remap::{lemma_paired, paired, shorter, EntityRemapTable};
use crate::type_key::{EntityId, TypeKey};
use crate::world::{World, WorldView};
use vstd::prelude::*;

verus! {

/// The handler set that copies definitions as they are.
pub open spec fn copy_set(definition: TypeKey) -> Seq<TransformMapping<FieldCopy>> {
    seq![TransformMapping { source: definition, destination: definition, transform: None }]
}

/// The handler set that makes a position of each definition: the position
/// is the first eight bytes of the definition.
pub open spec fn spawn_set(definition: TypeKey) -> Seq<TransformMapping<FieldCopy>> {
    seq![
        TransformMapping {
            source: definition,
            destination: Position2DComponent::key(),
            transform: Some(FieldCopy { source_offset: 0, destination_offset: 0, len: 8 }),
        },
    ]
}

/// A container without entities.
pub open spec fn empty_world() -> WorldView {
    WorldView { entities: Seq::empty(), components: Map::empty(), next_id: 0 }
}

/// The world after the definitions of the prefab were copied into an empty
/// world.
pub open spec fn after_copy(
    registry: Map<TypeKey, RegistrationView>,
    prefab: WorldView,
    definition: TypeKey,
) -> WorldView {
    merged(prefab, empty_world(), registry, copy_set(definition), Map::empty(), None)
}

/// The world after the prefab was then spawned into new entities.
pub open spec fn after_spawn(
    registry: Map<TypeKey, RegistrationView>,
    prefab: WorldView,
    definition: TypeKey,
) -> WorldView {
    merged(
        prefab,
        after_copy(registry, prefab, definition),
        registry,
        spawn_set(definition),
        Map::empty(),
        None,
    )
}

/// The table that pairs the prefab entities that hold a definition with the
/// entities of `world` that hold a position, position by position.
pub open spec fn replace_table(prefab: WorldView, world: WorldView, definition: TypeKey) -> Map<
    EntityId,
    EntityId,
> {
    paired(
        prefab.holders(definition),
        world.holders(Position2DComponent::key()),
        shorter(
            prefab.holders(definition).len(),
            world.holders(Position2DComponent::key()).len(),
        ),
    )
}

/// The world after the prefab was then spawned once more, over the
/// entities that hold a position already.
pub open spec fn after_replace(
    registry: Map<TypeKey, RegistrationView>,
    prefab: WorldView,
    definition: TypeKey,
) -> WorldView {
    let world = after_spawn(registry, prefab, definition);
    merged(
        prefab,
        world,
        registry,
        spawn_set(definition),
        replace_table(prefab, world, definition),
        None,
    )
}

/// Runs the three merges of a loaded prefab and returns the world that they
/// leave.
///
/// The first merge copies the components of type `definition` into new
/// entities of an empty world. The second spawns the prefab into new
/// entities again and makes a position of each definition. The third spawns
/// the prefab over existing entities: the prefab entities that hold a
/// definition are paired, in order, with the entities that hold a position,
/// and a prefab entity without a partner gets a new entity.
///
/// The merges are given up where a definition cannot be made into a
/// position.
pub fn temp_force_load_asset(registry: &Registry, prefab_world: &World, definition: TypeKey) -> (result:
    Result<World, CloneMergeError>)
    requires
        prefab_world.wf(),
        3 * prefab_world@.entities.len() <= u64::MAX,
    ensures
        match result {
            Ok(world) => {
                &&& world.wf()
                &&& !fails_at(prefab_world@, registry@, spawn_set(definition), None, 0)
                &&& world@ == after_replace(registry@, prefab_world@, definition)
            },
            Err(error) => {
                &&& fails_at(prefab_world@, registry@, spawn_set(definition), None, 0)
                &&& error == (CloneMergeError::TransformFailed {
                    source: definition,
                    destination: Position2DComponent::key(),
                })
            },
        },
{
    let ghost prefab = prefab_world@;
    let ghost count = prefab.entities.len();
    let position = Position2DComponent::type_key();
    let mut world = World::new();
    proof {
        lemma_assigned_counter(prefab.entities, Map::empty(), 0, 0, count);
    }

    let mut copies: TransformHandlerSet<FieldCopy> = TransformHandlerSet::new();
    copies.add_identity_mapping(definition);
    assert(copies@ =~= copy_set(definition));
    let copying = create_spawn_clone_impl(&copies, registry);
    match copying.clone_merge(prefab_world, &mut world, None, None) {
        Ok(_) => {},
        Err(_) => {
            assert(false);
        },
    }
    let ghost copied = world@;
    assert(copied =~= after_copy(registry@, prefab, definition));
    proof {
        lemma_assigned_counter(prefab.entities, Map::empty(), copied.next_id, 0, count);
    }

    let mut spawns: TransformHandlerSet<FieldCopy> = TransformHandlerSet::new();
    spawns.add_cross_type_mapping(
        definition,
        position,
        FieldCopy { source_offset: 0, destination_offset: 0, len: 8 },
    );
    assert(spawns@ =~= spawn_set(definition));
    let spawning = create_spawn_clone_impl(&spawns, registry);
    match spawning.clone_merge(prefab_world, &mut world, None, None) {
        Ok(_) => {},
        Err(error) => {
            return Err(error);
        },
    }
    let ghost spawned = world@;
    assert(spawned =~= after_spawn(registry@, prefab, definition));

    let prefab_entities = prefab_world.column(definition).0;
    let world_entities = world.column(position).0;
    let mappings = EntityRemapTable::from_pairs(&prefab_entities, &world_entities);
    proof {
        let paired_count = shorter(prefab_entities@.len(), world_entities@.len());
        lemma_paired(prefab_entities@, world_entities@, paired_count);
        prefab_world.lemma_view_wf();
        prefab.lemma_holders(definition);
        spawned.lemma_holders(position);
        assert forall|e: EntityId| #[trigger]
            mappings@.contains_key(e) && prefab.entities.contains(e) implies spawned.entities.contains(
            mappings@[e],
        ) by {
            assert(paired(prefab_entities@, world_entities@, paired_count).contains_key(e));
            assert(prefab_entities@.take(paired_count as int).contains(e));
            let p = choose|p: int|
                0 <= p < paired_count && prefab_entities@.take(paired_count as int)[p] == e;
            assert(prefab_entities@[p] == e);
            assert(mappings@[prefab_entities@[p]] == world_entities@[p]);
            assert(spawned.entities.contains(spawned.holders(position)[p]));
        }
        lemma_assigned_counter(prefab.entities, mappings@, spawned.next_id, 0, count);
    }
    match spawning.clone_merge(prefab_world, &mut world, Some(mappings), None) {
        Ok(_) => {},
        Err(_) => {
            assert(false);
        },
    }
    assert(world@ =~= after_replace(registry@, prefab, definition));
    Ok(world)
}

/// Builds the two indices that cooking a prefab reads: the registry, which
/// finds a behaviour table by key and by in-process type, and the map from
/// the values of the type keys to the tables.
///
/// The result is the reason for which the first refused table was refused
/// where the tables cannot all be registered.
pub fn temp_force_prefab_cook(registrations: &Vec<ComponentRegistration>) -> (result: Result<
    (Registry, HashMap<u128, ComponentRegistration>),
    RegistryError,
>)
    ensures
        match result {
            Ok(indices) => {
                &&& indices.0.wf()
                &&& all_accepted(table_views(registrations@), registrations@.len())
                &&& indices.0@ == registered_upto(
                    table_views(registrations@),
                    registrations@.len(),
                )
                &&& keyed_tables(indices.1@) == indices.0@
            },
            Err(error) => exists|j: int|
                0 <= j < registrations@.len() && all_accepted(
                    table_views(registrations@),
                    j as nat,
                ) && #[trigger] register_error(
                    registered_upto(table_views(registrations@), j as nat),
                    table_views(registrations@)[j],
                ) == Some(error),
        },
{
    let registered_components = match create_component_registry(registrations) {
        Ok(registry) => registry,
        Err(error) => {
            return Err(error);
        },
    };
    match create_component_registry_by_uuid(registrations) {
        Ok(registered_components_by_uuid) => Ok(
            (registered_components, registered_components_by_uuid),
        ),
        Err(error) => Err(error),
    }
}

} // verus!
