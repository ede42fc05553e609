use entity_merge::{EntityRemapTable, TypeKey, World};

const A: TypeKey = TypeKey { value: 1 };
const B: TypeKey = TypeKey { value: 2 };

#[test]
fn a_new_world_is_empty() {
    let world = World::new();
    assert_eq!(world.entity_count(), 0);
    assert_eq!(world.next_id(), 0);
    assert_eq!(world.entities(), Vec::<u64>::new());
    assert!(!world.contains(0));
    assert_eq!(world.get(0, A), None);
    assert_eq!(world.column(A), (vec![], vec![]));
}

#[test]
fn allocate_hands_out_consecutive_entities() {
    let mut world = World::new();
    assert_eq!(world.allocate(), Some(0));
    assert_eq!(world.allocate(), Some(1));
    assert_eq!(world.allocate(), Some(2));
    assert_eq!(world.entities(), vec![0, 1, 2]);
    assert_eq!(world.entity_count(), 3);
    assert_eq!(world.entity_at(1), 1);
    assert_eq!(world.next_id(), 3);
    assert!(world.contains(2));
    assert!(!world.contains(3));
    assert!(!world.has_component(0, A));
}

#[test]
fn insert_stores_and_replaces_components() {
    let mut world = World::new();
    let first = world.allocate().unwrap();
    let second = world.allocate().unwrap();
    assert!(world.insert(first, A, vec![1, 2]));
    assert!(world.insert(first, B, vec![3]));
    assert!(world.insert(second, A, vec![]));
    assert_eq!(world.get(first, A), Some(&vec![1, 2]));
    assert_eq!(world.get(first, B), Some(&vec![3]));
    assert_eq!(world.get(second, A), Some(&vec![]));
    assert_eq!(world.get(second, B), None);
    assert!(world.insert(first, A, vec![9, 9, 9]));
    assert_eq!(world.get(first, A), Some(&vec![9, 9, 9]));
    assert_eq!(world.get(first, B), Some(&vec![3]));
    assert!(world.has_component(first, B));
    assert!(!world.has_component(second, B));
    assert_eq!(world.entities(), vec![0, 1]);
}

#[test]
fn insert_on_an_absent_entity_does_nothing() {
    let mut world = World::new();
    world.allocate().unwrap();
    assert!(!world.insert(5, A, vec![1]));
    assert_eq!(world.get(5, A), None);
    assert_eq!(world.entity_count(), 1);
    assert!(!world.contains(5));
}

#[test]
fn column_lists_the_holders_in_container_order() {
    let mut world = World::new();
    for _ in 0..4 {
        world.allocate().unwrap();
    }
    assert!(world.insert(3, A, vec![30]));
    assert!(world.insert(0, A, vec![0]));
    assert!(world.insert(2, B, vec![22]));
    assert!(world.insert(2, A, vec![20]));
    assert_eq!(world.column(A), (vec![0, 2, 3], vec![vec![0], vec![20], vec![30]]));
    assert_eq!(world.column(B), (vec![2], vec![vec![22]]));
    assert_eq!(world.column(TypeKey { value: 3 }), (vec![], vec![]));
}

#[test]
fn a_remap_table_stores_and_replaces_entries() {
    let mut table = EntityRemapTable::new();
    assert_eq!(table.len(), 0);
    assert_eq!(table.get(1), None);
    assert!(!table.contains(1));
    table.insert(1, 10);
    table.insert(2, 20);
    assert_eq!(table.get(1), Some(10));
    assert_eq!(table.get(2), Some(20));
    assert_eq!(table.get(10), None);
    assert!(table.contains(2));
    table.insert(1, 11);
    assert_eq!(table.get(1), Some(11));
    assert_eq!(table.len(), 2);
}

#[test]
fn from_pairs_pairs_position_by_position() {
    let table = EntityRemapTable::from_pairs(&vec![5, 6, 7], &vec![50, 60]);
    assert_eq!(table.len(), 2);
    assert_eq!(table.get(5), Some(50));
    assert_eq!(table.get(6), Some(60));
    assert_eq!(table.get(7), None);
    let table = EntityRemapTable::from_pairs(&vec![5, 6], &vec![50, 60, 70]);
    assert_eq!(table.len(), 2);
    assert_eq!(table.get(6), Some(60));
    let table = EntityRemapTable::from_pairs(&vec![5, 6, 5], &vec![1, 2, 3]);
    assert_eq!(table.len(), 2);
    assert_eq!(table.get(5), Some(3));
    let table = EntityRemapTable::from_pairs(&vec![], &vec![1]);
    assert_eq!(table.len(), 0);
}
