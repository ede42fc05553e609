use entity_merge::{
    create_component_registry, create_spawn_clone_impl, merge_allowed, CloneMergeError,
    ComponentRegistration, ComponentTransform, EditorSelectable, EditorSelectableRegistry,
    EntityRemapTable, FnSelectable, FnTransform, Registry, SelectionShape, SelectionWorld,
    TransformHandlerSet, TypeKey, World,
};

const FROM: TypeKey = TypeKey { value: 1 };
const TO: TypeKey = TypeKey { value: 2 };

fn tables() -> Registry {
    create_component_registry(&vec![
        ComponentRegistration::new(FROM, 1, 1, vec![0; 2]),
        ComponentRegistration::new(TO, 2, 1, vec![100, 200]),
    ])
    .unwrap()
}

fn sum_with_default(entity: u64, source: &Vec<u8>, initial: &Vec<u8>) -> Option<Vec<u8>> {
    if source.len() != initial.len() {
        return None;
    }
    let mut value: Vec<u8> =
        source.iter().zip(initial.iter()).map(|(s, i)| s.wrapping_add(*i)).collect();
    value.push(entity as u8);
    Some(value)
}

#[test]
fn a_function_is_applied_to_each_component_of_a_batch() {
    let transform = FnTransform::new(sum_with_default);
    let entities = vec![7, 8];
    let source = vec![vec![1, 2], vec![3, 4]];
    let mut destination = vec![vec![10, 20], vec![30, 40]];
    assert!(transform.transform(&entities, &source, &mut destination));
    assert_eq!(destination, vec![vec![11, 22, 7], vec![33, 44, 8]]);
    let mut unequal = vec![vec![10, 20], vec![30]];
    assert!(!transform.transform(&entities, &source, &mut unequal));
    assert_eq!(unequal.len(), 2);
}

#[test]
fn a_merge_applies_a_registered_function() {
    let registry = tables();
    let mut set = TransformHandlerSet::new();
    set.add_cross_type_mapping(FROM, TO, FnTransform::new(sum_with_default));
    let mut source = World::new();
    for i in 0..3u8 {
        let entity = source.allocate().unwrap();
        assert!(source.insert(entity, FROM, vec![i, i]));
    }
    let mut destination = World::new();
    destination.allocate().unwrap();
    let engine = create_spawn_clone_impl(&set, &registry);
    let table = engine.clone_merge(&source, &mut destination, None, None).unwrap();
    for i in 0..3u64 {
        assert_eq!(table.get(i), Some(i + 1));
        assert_eq!(
            destination.get(i + 1, TO),
            Some(&vec![100 + i as u8, 200u8.wrapping_add(i as u8), i as u8])
        );
    }
    assert!(source.insert(1, FROM, vec![1]));
    assert_eq!(
        engine.clone_merge(&source, &mut destination, None, None).err(),
        Some(CloneMergeError::TransformFailed { source: FROM, destination: TO })
    );
}

#[test]
fn a_merge_is_allowed_where_the_table_leads_into_the_destination() {
    let mut source = World::new();
    for _ in 0..3 {
        source.allocate().unwrap();
    }
    let mut destination = World::new();
    destination.allocate().unwrap();
    let mut table = EntityRemapTable::new();
    assert!(merge_allowed(&source, &destination, &table));
    table.insert(1, 0);
    assert!(merge_allowed(&source, &destination, &table));
    table.insert(7, 9);
    assert!(merge_allowed(&source, &destination, &table));
    table.insert(2, 1);
    assert!(!merge_allowed(&source, &destination, &table));
    destination.allocate().unwrap();
    assert!(merge_allowed(&source, &destination, &table));
    assert!(merge_allowed(&World::new(), &destination, &table));
}

#[test]
fn a_function_places_the_shapes_of_a_component() {
    let halves = |scale: &u8, entity: u64, component: &Vec<u8>| -> Vec<SelectionShape> {
        component
            .iter()
            .filter(|b| **b % 2 == 0)
            .map(|b| SelectionShape { entity, data: vec![*b / 2 * *scale] })
            .collect()
    };
    let selectable = FnSelectable::new(halves);
    let mut index = SelectionWorld::new();
    index.add(0, vec![9]);
    selectable.create_editor_selection_world(&mut index, &3, 5, &vec![2, 3, 4]);
    selectable.create_editor_selection_world(&mut index, &3, 6, &vec![1]);
    let shapes: Vec<(u64, Vec<u8>)> = (0..index.len())
        .map(|i| (index.shape_at(i).entity, index.shape_at(i).data.clone()))
        .collect();
    assert_eq!(shapes, vec![(0, vec![9]), (5, vec![3]), (5, vec![6])]);
}

#[test]
fn the_selection_index_is_built_from_registered_functions() {
    let registry = tables();
    let mark = |context: &u8, entity: u64, component: &Vec<u8>| -> Vec<SelectionShape> {
        if component.is_empty() {
            Vec::new()
        } else {
            vec![SelectionShape { entity, data: vec![*context, component[0]] }]
        }
    };
    let mut selectables = EditorSelectableRegistry::new();
    assert!(selectables.register(&registry, TO, FnSelectable::new(mark)));
    assert!(selectables.register(&registry, FROM, FnSelectable::new(mark)));
    let mut world = World::new();
    for _ in 0..3 {
        world.allocate().unwrap();
    }
    assert!(world.insert(0, FROM, vec![10]));
    assert!(world.insert(1, FROM, vec![]));
    assert!(world.insert(2, FROM, vec![12]));
    assert!(world.insert(2, TO, vec![22]));
    let index = selectables.create_editor_selection_world(Some(&9), &world);
    let shapes: Vec<(u64, Vec<u8>)> = (0..index.len())
        .map(|i| (index.shape_at(i).entity, index.shape_at(i).data.clone()))
        .collect();
    assert_eq!(
        shapes,
        vec![(2, vec![9, 22]), (0, vec![9, 10]), (2, vec![9, 12])]
    );
    assert_eq!(selectables.create_editor_selection_world(None, &world).len(), 0);
}
