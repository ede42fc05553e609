use entity_merge::{
    create_component_registry, create_spawn_clone_impl, CloneMergeError, ComponentRegistration,
    EntityRemapTable, FieldCopy, Registry, TransformHandlerSet, TypeKey, World,
};

const DEFINITION: TypeKey = TypeKey { value: 0x11 };
const POSITION: TypeKey = TypeKey { value: 0x22 };
const NAME: TypeKey = TypeKey { value: 0x33 };
const UNKNOWN: TypeKey = TypeKey { value: 0x44 };

fn registry() -> Registry {
    let tables = vec![
        ComponentRegistration::new(DEFINITION, 1, 4, vec![0; 8]),
        ComponentRegistration::new(POSITION, 2, 4, vec![0xff; 12]),
        ComponentRegistration::new(NAME, 3, 1, vec![b'?']),
    ];
    create_component_registry(&tables).unwrap()
}

fn definition(i: u8) -> Vec<u8> {
    vec![i, 1, 2, 3, 4, 5, 6, 7]
}

/// Three entities: 0 and 2 hold a definition, 1 and 2 hold a name.
fn source_world() -> World {
    let mut world = World::new();
    for _ in 0..3 {
        world.allocate().unwrap();
    }
    assert!(world.insert(0, DEFINITION, definition(10)));
    assert!(world.insert(2, DEFINITION, definition(12)));
    assert!(world.insert(1, NAME, vec![b'b']));
    assert!(world.insert(2, NAME, vec![b'c']));
    assert!(world.insert(2, UNKNOWN, vec![1, 2, 3]));
    world
}

fn spawn_set() -> TransformHandlerSet<FieldCopy> {
    let mut set = TransformHandlerSet::new();
    set.add_cross_type_mapping(
        DEFINITION,
        POSITION,
        FieldCopy { source_offset: 0, destination_offset: 4, len: 8 },
    );
    set
}

fn position(i: u8) -> Vec<u8> {
    vec![0xff, 0xff, 0xff, 0xff, i, 1, 2, 3, 4, 5, 6, 7]
}

fn components(world: &World) -> Vec<(u64, TypeKey, Vec<u8>)> {
    let mut all = Vec::new();
    for entity in world.entities() {
        for key in [DEFINITION, POSITION, NAME, UNKNOWN] {
            if let Some(bytes) = world.get(entity, key) {
                all.push((entity, key, bytes.clone()));
            }
        }
    }
    all
}

#[test]
fn identity_mapping_copies_the_bytes() {
    let registry = registry();
    let mut set: TransformHandlerSet<FieldCopy> = TransformHandlerSet::new();
    set.add_identity_mapping(DEFINITION);
    let engine = create_spawn_clone_impl(&set, &registry);
    let source = source_world();
    let mut destination = World::new();
    let table = engine.clone_merge(&source, &mut destination, None, None).unwrap();
    assert_eq!(destination.entities(), vec![0, 1, 2]);
    assert_eq!(table.len(), 3);
    for entity in source.entities() {
        let target = table.get(entity).unwrap();
        assert_eq!(destination.get(target, DEFINITION), source.get(entity, DEFINITION));
    }
    assert_eq!(
        components(&destination),
        vec![(0, DEFINITION, definition(10)), (2, DEFINITION, definition(12))]
    );
    assert_eq!(components(&source).len(), 5);
}

#[test]
fn cross_type_mapping_copies_one_field() {
    let registry = registry();
    let set = spawn_set();
    let engine = create_spawn_clone_impl(&set, &registry);
    let mut source = World::new();
    for i in 0..5u8 {
        let entity = source.allocate().unwrap();
        assert!(source.insert(entity, DEFINITION, definition(i)));
    }
    let mut destination = World::new();
    destination.allocate().unwrap();
    let mut table = EntityRemapTable::new();
    assert_eq!(engine.clone_merge_into(&source, &mut destination, &mut table, None), Ok(()));
    for (i, entity) in source.entities().into_iter().enumerate() {
        let target = table.get(entity).unwrap();
        assert_eq!(target, entity + 1);
        assert_eq!(destination.get(target, POSITION), Some(&position(i as u8)));
        assert_eq!(destination.get(target, DEFINITION), None);
    }
    assert_eq!(destination.entities(), vec![0, 1, 2, 3, 4, 5]);
    assert_eq!(destination.get(0, POSITION), None);
}

#[test]
fn a_second_merge_with_the_table_of_the_first_changes_nothing() {
    let registry = registry();
    let mut set = spawn_set();
    set.add_identity_mapping(NAME);
    let engine = create_spawn_clone_impl(&set, &registry);
    let source = source_world();
    let mut destination = World::new();
    let first = engine.clone_merge(&source, &mut destination, None, None).unwrap();
    let entities = destination.entities();
    let held = components(&destination);
    let pairs: Vec<(u64, Option<u64>)> = (0..3).map(|e| (e, first.get(e))).collect();
    let second = engine.clone_merge(&source, &mut destination, Some(first), None).unwrap();
    assert_eq!(destination.entities(), entities);
    assert_eq!(destination.next_id(), 3);
    assert_eq!(components(&destination), held);
    assert_eq!(second.len(), 3);
    for (entity, target) in pairs {
        assert_eq!(second.get(entity), target);
    }
}

#[test]
fn a_second_merge_with_the_table_of_the_first_refreshes_the_values() {
    let registry = registry();
    let set = spawn_set();
    let engine = create_spawn_clone_impl(&set, &registry);
    let mut source = source_world();
    let mut destination = World::new();
    let table = engine.clone_merge(&source, &mut destination, None, None).unwrap();
    assert!(source.insert(0, DEFINITION, definition(77)));
    engine.clone_merge(&source, &mut destination, Some(table), None).unwrap();
    assert_eq!(destination.entities(), vec![0, 1, 2]);
    assert_eq!(
        components(&destination),
        vec![(0, POSITION, position(77)), (2, POSITION, position(12))]
    );
}

#[test]
fn merges_without_a_table_make_new_entities_each_time() {
    let registry = registry();
    let set = spawn_set();
    let engine = create_spawn_clone_impl(&set, &registry);
    let source = source_world();
    let mut destination = World::new();
    let first = engine.clone_merge(&source, &mut destination, None, None).unwrap();
    let second =
        engine.clone_merge(&source, &mut destination, Some(EntityRemapTable::new()), None).unwrap();
    let made_first: Vec<u64> = source.entities().iter().map(|e| first.get(*e).unwrap()).collect();
    let made_second: Vec<u64> = source.entities().iter().map(|e| second.get(*e).unwrap()).collect();
    assert_eq!(made_first, vec![0, 1, 2]);
    assert_eq!(made_second, vec![3, 4, 5]);
    assert_eq!(destination.entities(), vec![0, 1, 2, 3, 4, 5]);
    assert_eq!(destination.get(0, POSITION), destination.get(3, POSITION));
    assert_eq!(destination.get(5, POSITION), Some(&position(12)));
}

#[test]
fn a_type_without_a_mapping_is_skipped() {
    let registry = registry();
    let mut set = spawn_set();
    set.add_identity_mapping(UNKNOWN);
    let engine = create_spawn_clone_impl(&set, &registry);
    let source = source_world();
    let mut destination = World::new();
    engine.clone_merge(&source, &mut destination, None, None).unwrap();
    for entity in destination.entities() {
        assert_eq!(destination.get(entity, NAME), None);
        assert_eq!(destination.get(entity, DEFINITION), None);
        assert_eq!(destination.get(entity, UNKNOWN), None);
    }
    assert_eq!(destination.column(NAME), (vec![], vec![]));
    assert_eq!(source.column(NAME).0, vec![1, 2]);
    assert_eq!(destination.column(POSITION).0, vec![0, 2]);
}

#[test]
fn a_merge_with_an_empty_handler_set_copies_the_entities_only() {
    let registry = registry();
    let set: TransformHandlerSet<FieldCopy> = TransformHandlerSet::new();
    let engine = create_spawn_clone_impl(&set, &registry);
    let source = source_world();
    let mut destination = World::new();
    let table = engine.clone_merge(&source, &mut destination, None, None).unwrap();
    assert_eq!(destination.entities(), vec![0, 1, 2]);
    assert_eq!(table.len(), 3);
    assert_eq!(components(&destination), vec![]);
}

#[test]
fn a_merge_of_an_empty_source_changes_nothing() {
    let registry = registry();
    let set = spawn_set();
    let engine = create_spawn_clone_impl(&set, &registry);
    let mut destination = source_world();
    let before = components(&destination);
    let table = engine.clone_merge(&World::new(), &mut destination, None, None).unwrap();
    assert_eq!(table.len(), 0);
    assert_eq!(destination.entities(), vec![0, 1, 2]);
    assert_eq!(components(&destination), before);
}

#[test]
fn merging_into_existing_entities_overwrites_what_is_written_and_keeps_the_rest() {
    let registry = registry();
    let set = spawn_set();
    let engine = create_spawn_clone_impl(&set, &registry);
    let source = source_world();
    let mut destination = World::new();
    for _ in 0..2 {
        destination.allocate().unwrap();
    }
    assert!(destination.insert(1, POSITION, vec![5; 12]));
    assert!(destination.insert(1, NAME, vec![b'x']));
    assert!(destination.insert(0, POSITION, vec![6; 12]));
    let mut table = EntityRemapTable::new();
    table.insert(0, 1);
    table.insert(9, 0);
    engine.clone_merge_into(&source, &mut destination, &mut table, None).unwrap();
    assert_eq!(table.len(), 4);
    assert_eq!(table.get(0), Some(1));
    assert_eq!(table.get(1), Some(2));
    assert_eq!(table.get(2), Some(3));
    assert_eq!(table.get(9), Some(0));
    assert_eq!(destination.entities(), vec![0, 1, 2, 3]);
    assert_eq!(
        components(&destination),
        vec![
            (0, POSITION, vec![6; 12]),
            (1, POSITION, position(10)),
            (1, NAME, vec![b'x']),
            (3, POSITION, position(12)),
        ]
    );
}

#[test]
fn two_source_entities_with_one_destination_leave_the_later_value() {
    let registry = registry();
    let set = spawn_set();
    let engine = create_spawn_clone_impl(&set, &registry);
    let source = source_world();
    let mut destination = World::new();
    destination.allocate().unwrap();
    let mut table = EntityRemapTable::new();
    table.insert(0, 0);
    table.insert(2, 0);
    engine.clone_merge_into(&source, &mut destination, &mut table, None).unwrap();
    assert_eq!(destination.entities(), vec![0, 1]);
    assert_eq!(table.get(1), Some(1));
    assert_eq!(components(&destination), vec![(0, POSITION, position(12))]);
}

#[test]
fn the_type_filter_restricts_the_source_types() {
    let registry = registry();
    let mut set = spawn_set();
    set.add_identity_mapping(NAME);
    let engine = create_spawn_clone_impl(&set, &registry);
    let source = source_world();
    let mut destination = World::new();
    engine.clone_merge(&source, &mut destination, None, Some(&vec![NAME, UNKNOWN])).unwrap();
    assert_eq!(
        components(&destination),
        vec![(1, NAME, vec![b'b']), (2, NAME, vec![b'c'])]
    );
    let mut other = World::new();
    engine.clone_merge(&source, &mut other, None, Some(&Vec::new())).unwrap();
    assert_eq!(other.entities(), vec![0, 1, 2]);
    assert_eq!(components(&other), vec![]);
    let mut all = World::new();
    engine.clone_merge(&source, &mut all, None, Some(&vec![DEFINITION, NAME])).unwrap();
    assert_eq!(components(&all).len(), 4);
}

#[test]
fn an_explicit_mapping_takes_the_place_of_the_identity_mapping() {
    let registry = registry();
    let mut set: TransformHandlerSet<FieldCopy> = TransformHandlerSet::new();
    set.add_identity_mapping(DEFINITION);
    set.add_identity_mapping(NAME);
    set.add_cross_type_mapping(
        DEFINITION,
        POSITION,
        FieldCopy { source_offset: 0, destination_offset: 4, len: 8 },
    );
    let engine = create_spawn_clone_impl(&set, &registry);
    let source = source_world();
    let mut destination = World::new();
    engine.clone_merge(&source, &mut destination, None, None).unwrap();
    assert_eq!(
        components(&destination),
        vec![
            (0, POSITION, position(10)),
            (1, NAME, vec![b'b']),
            (2, POSITION, position(12)),
            (2, NAME, vec![b'c']),
        ]
    );
}

#[test]
fn every_explicit_mapping_of_a_source_type_is_applied() {
    let registry = registry();
    let mut set = spawn_set();
    set.add_cross_type_mapping(
        DEFINITION,
        NAME,
        FieldCopy { source_offset: 0, destination_offset: 0, len: 1 },
    );
    let engine = create_spawn_clone_impl(&set, &registry);
    let source = source_world();
    let mut destination = World::new();
    engine.clone_merge(&source, &mut destination, None, None).unwrap();
    assert_eq!(
        components(&destination),
        vec![
            (0, POSITION, position(10)),
            (0, NAME, vec![10]),
            (2, POSITION, position(12)),
            (2, NAME, vec![12]),
        ]
    );
}

#[test]
fn of_two_mappings_to_one_type_the_later_one_stands() {
    let registry = registry();
    let mut set: TransformHandlerSet<FieldCopy> = TransformHandlerSet::new();
    set.add_identity_mapping(NAME);
    set.add_cross_type_mapping(
        DEFINITION,
        NAME,
        FieldCopy { source_offset: 0, destination_offset: 0, len: 1 },
    );
    let engine = create_spawn_clone_impl(&set, &registry);
    let source = source_world();
    let mut destination = World::new();
    engine.clone_merge(&source, &mut destination, None, None).unwrap();
    assert_eq!(
        components(&destination),
        vec![(0, NAME, vec![10]), (1, NAME, vec![b'b']), (2, NAME, vec![12])]
    );
}

#[test]
fn a_mapping_with_an_unregistered_type_does_not_run() {
    let tables = vec![ComponentRegistration::new(DEFINITION, 1, 4, vec![0; 8])];
    let registry = create_component_registry(&tables).unwrap();
    let mut set = spawn_set();
    set.add_identity_mapping(NAME);
    let engine = create_spawn_clone_impl(&set, &registry);
    let source = source_world();
    let mut destination = World::new();
    let table = engine.clone_merge(&source, &mut destination, None, None).unwrap();
    assert_eq!(table.len(), 3);
    assert_eq!(components(&destination), vec![]);
}

#[test]
fn a_transform_that_does_not_accept_a_component_gives_the_merge_up() {
    let registry = registry();
    let mut set: TransformHandlerSet<FieldCopy> = TransformHandlerSet::new();
    set.add_identity_mapping(NAME);
    set.add_cross_type_mapping(
        DEFINITION,
        POSITION,
        FieldCopy { source_offset: 0, destination_offset: 4, len: 8 },
    );
    set.add_identity_mapping(UNKNOWN);
    let engine = create_spawn_clone_impl(&set, &registry);
    let mut source = source_world();
    assert!(source.insert(2, DEFINITION, vec![1, 2, 3]));
    let mut destination = World::new();
    let mut table = EntityRemapTable::new();
    assert_eq!(
        engine.clone_merge_into(&source, &mut destination, &mut table, None),
        Err(CloneMergeError::TransformFailed { source: DEFINITION, destination: POSITION })
    );
    assert_eq!(table.len(), 3);
    assert_eq!(destination.entities(), vec![0, 1, 2]);
    assert_eq!(
        components(&destination),
        vec![(1, NAME, vec![b'b']), (2, NAME, vec![b'c'])]
    );
    assert_eq!(
        engine.clone_merge(&source, &mut World::new(), None, None).err(),
        Some(CloneMergeError::TransformFailed { source: DEFINITION, destination: POSITION })
    );
    assert!(engine.clone_merge(&source, &mut World::new(), None, Some(&vec![NAME])).is_ok());
}
