use entity_merge::{
    create_component_registry, temp_force_load_asset, CloneMergeError, ComponentRegistration,
    Position2DComponent, Registry, TypeKey, TypedComponent, Vec2, World,
};

const DEFINITION: TypeKey = TypeKey { value: 0xdef };

fn registry() -> Registry {
    create_component_registry(&vec![
        ComponentRegistration::new(DEFINITION, 1, 4, vec![0; 8]),
        Position2DComponent::registration(2),
    ])
    .unwrap()
}

fn definition(x: u32, y: u32) -> Vec<u8> {
    Position2DComponent { position: Vec2 { x, y } }.to_bytes()
}

/// Entities 0 and 2 hold a definition, entity 1 holds none.
fn prefab() -> World {
    let mut world = World::new();
    for _ in 0..3 {
        world.allocate().unwrap();
    }
    assert!(world.insert(0, DEFINITION, definition(1, 2)));
    assert!(world.insert(2, DEFINITION, definition(3, 4)));
    world
}

#[test]
fn the_three_merges_leave_copies_and_spawned_positions() {
    let position = Position2DComponent::type_key();
    let world = temp_force_load_asset(&registry(), &prefab(), DEFINITION).unwrap();
    assert_eq!(world.entities(), vec![0, 1, 2, 3, 4, 5, 6]);
    assert_eq!(world.next_id(), 7);
    assert_eq!(
        world.column(DEFINITION),
        (vec![0, 2], vec![definition(1, 2), definition(3, 4)])
    );
    assert_eq!(
        world.column(position),
        (vec![3, 5], vec![definition(1, 2), definition(3, 4)])
    );
    assert_eq!(
        entity_merge::get_component::<Position2DComponent>(&world, 5),
        Some(Position2DComponent { position: Vec2 { x: 3, y: 4 } })
    );
}

#[test]
fn a_definition_that_is_too_short_gives_the_merges_up() {
    let mut prefab = prefab();
    assert!(prefab.insert(1, DEFINITION, vec![1, 2, 3, 4]));
    assert_eq!(
        temp_force_load_asset(&registry(), &prefab, DEFINITION).err(),
        Some(CloneMergeError::TransformFailed {
            source: DEFINITION,
            destination: Position2DComponent::type_key(),
        })
    );
}

#[test]
fn without_registered_types_only_entities_are_made() {
    let world = temp_force_load_asset(&Registry::new(), &prefab(), DEFINITION).unwrap();
    assert_eq!(world.entities(), vec![0, 1, 2, 3, 4, 5, 6, 7, 8]);
    assert_eq!(world.column(DEFINITION), (vec![], vec![]));
    assert_eq!(world.column(Position2DComponent::type_key()), (vec![], vec![]));
}

#[test]
fn an_empty_prefab_leaves_an_empty_world() {
    let world = temp_force_load_asset(&registry(), &World::new(), DEFINITION).unwrap();
    assert_eq!(world.entity_count(), 0);
}
