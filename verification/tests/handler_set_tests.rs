use entity_merge::{
    create_spawn_clone_impl_handler_set, ComponentTransform, FieldCopy, TransformHandlerSet,
    TransformMapping, TypeKey,
};

const A: TypeKey = TypeKey { value: 1 };
const B: TypeKey = TypeKey { value: 2 };
const C: TypeKey = TypeKey { value: 3 };

fn field(source_offset: usize, destination_offset: usize, len: usize) -> FieldCopy {
    FieldCopy { source_offset, destination_offset, len }
}

fn describe(set: &TransformHandlerSet<FieldCopy>) -> Vec<(TypeKey, TypeKey, Option<usize>)> {
    (0..set.len())
        .map(|i| {
            let mapping = set.mapping_at(i);
            (mapping.source, mapping.destination, mapping.transform.map(|t| t.len))
        })
        .collect()
}

#[test]
fn mappings_are_kept_in_the_order_of_registration() {
    let mut set: TransformHandlerSet<FieldCopy> = TransformHandlerSet::new();
    assert_eq!(set.len(), 0);
    set.add_identity_mapping(A);
    set.add_cross_type_mapping(A, B, field(0, 0, 1));
    set.add_cross_type_mapping(C, B, field(0, 0, 2));
    set.add_identity_mapping(C);
    assert_eq!(
        describe(&set),
        vec![(A, A, None), (A, B, Some(1)), (C, B, Some(2)), (C, C, None)]
    );
}

#[test]
fn a_mapping_for_a_registered_pair_takes_the_place_of_the_old_one() {
    let mut set: TransformHandlerSet<FieldCopy> = TransformHandlerSet::new();
    set.add_cross_type_mapping(A, B, field(0, 0, 1));
    set.add_identity_mapping(A);
    set.add_cross_type_mapping(A, B, field(0, 0, 5));
    assert_eq!(describe(&set), vec![(A, B, Some(5)), (A, A, None)]);
    set.add_cross_type_mapping(A, A, field(0, 0, 7));
    assert_eq!(describe(&set), vec![(A, B, Some(5)), (A, A, Some(7))]);
    set.add_identity_mapping(A);
    set.add_identity_mapping(A);
    assert_eq!(describe(&set), vec![(A, B, Some(5)), (A, A, None)]);
}

#[test]
fn lookup_is_by_the_exact_pair() {
    let mut set: TransformHandlerSet<FieldCopy> = TransformHandlerSet::new();
    set.add_identity_mapping(A);
    set.add_cross_type_mapping(A, B, field(0, 0, 1));
    set.add_cross_type_mapping(C, C, field(0, 0, 1));
    assert_eq!(set.lookup(A, Some(B)), Some(1));
    assert_eq!(set.lookup(A, None), Some(0));
    assert_eq!(set.lookup(A, Some(C)), None);
    assert_eq!(set.lookup(A, Some(A)), None);
    assert_eq!(set.lookup(B, None), None);
    assert_eq!(set.lookup(B, Some(A)), None);
    assert_eq!(set.lookup(C, Some(C)), Some(2));
    assert_eq!(set.lookup(C, None), None);
    assert_eq!(set.find_pair(A, A), Some(0));
    assert_eq!(set.find_pair(C, C), Some(2));
    assert_eq!(set.find_pair(B, A), None);
}

#[test]
fn an_identity_mapping_is_used_only_without_an_explicit_mapping() {
    let mut set: TransformHandlerSet<FieldCopy> = TransformHandlerSet::new();
    set.add_identity_mapping(A);
    set.add_identity_mapping(B);
    set.add_cross_type_mapping(A, C, field(0, 0, 1));
    assert!(set.has_explicit_mapping(A));
    assert!(!set.has_explicit_mapping(B));
    assert!(!set.has_explicit_mapping(C));
    assert!(!set.applies_at(0));
    assert!(set.applies_at(1));
    assert!(set.applies_at(2));
}

#[test]
fn create_spawn_clone_impl_handler_set_registers_the_list_in_order() {
    let set = create_spawn_clone_impl_handler_set(vec![
        TransformMapping { source: A, destination: B, transform: Some(field(0, 0, 1)) },
        TransformMapping { source: C, destination: C, transform: None },
        TransformMapping { source: A, destination: B, transform: Some(field(0, 0, 2)) },
        TransformMapping { source: C, destination: B, transform: Some(field(0, 0, 3)) },
    ]);
    assert_eq!(
        describe(&set),
        vec![(A, B, Some(2)), (C, C, None), (C, B, Some(3))]
    );
    let empty: TransformHandlerSet<FieldCopy> = create_spawn_clone_impl_handler_set(Vec::new());
    assert_eq!(empty.len(), 0);
}

#[test]
fn copy_field_replaces_the_field_of_the_default_value() {
    let copy = field(1, 2, 3);
    assert_eq!(
        copy.copy_field(&vec![10, 11, 12, 13, 14], &vec![0, 1, 2, 3, 4, 5]),
        Some(vec![0, 1, 11, 12, 13, 5])
    );
    assert_eq!(
        copy.copy_field(&vec![10, 11, 12, 13], &vec![0, 1, 2, 3, 4]),
        Some(vec![0, 1, 11, 12, 13])
    );
    assert_eq!(field(0, 0, 0).copy_field(&vec![], &vec![7]), Some(vec![7]));
    assert_eq!(field(0, 0, 2).copy_field(&vec![1, 2], &vec![8, 9]), Some(vec![1, 2]));
}

#[test]
fn copy_field_refuses_a_field_that_does_not_fit() {
    let copy = field(1, 2, 3);
    assert_eq!(copy.copy_field(&vec![10, 11, 12], &vec![0, 1, 2, 3, 4, 5]), None);
    assert_eq!(copy.copy_field(&vec![10, 11, 12, 13], &vec![0, 1, 2, 3]), None);
    assert_eq!(field(usize::MAX, 0, 2).copy_field(&vec![1, 2], &vec![1, 2]), None);
    assert_eq!(field(0, usize::MAX, 2).copy_field(&vec![1, 2], &vec![1, 2]), None);
    assert_eq!(field(0, 0, usize::MAX).copy_field(&vec![1, 2], &vec![1, 2]), None);
}

#[test]
fn a_field_copy_rewrites_a_batch_in_order() {
    let copy = field(0, 1, 1);
    let entities = vec![4, 5, 6];
    let source = vec![vec![1], vec![2], vec![3]];
    let mut destination = vec![vec![0, 0], vec![9, 9], vec![7, 7, 7]];
    assert!(copy.transform(&entities, &source, &mut destination));
    assert_eq!(destination, vec![vec![0, 1], vec![9, 2], vec![7, 3, 7]]);
    let mut short = vec![vec![0, 0], vec![9], vec![7, 7]];
    assert!(!copy.transform(&entities, &source, &mut short));
    assert_eq!(short.len(), 3);
    let mut none: Vec<Vec<u8>> = Vec::new();
    assert!(copy.transform(&Vec::new(), &Vec::new(), &mut none));
}

#[test]
fn add_registers_a_mapping_as_it_is_given() {
    let mut set: TransformHandlerSet<FieldCopy> = TransformHandlerSet::new();
    set.add(TransformMapping { source: A, destination: B, transform: None });
    set.add(TransformMapping { source: A, destination: C, transform: Some(field(0, 0, 1)) });
    set.add(TransformMapping { source: A, destination: B, transform: Some(field(0, 0, 2)) });
    assert_eq!(describe(&set), vec![(A, B, Some(2)), (A, C, Some(1))]);
    assert_eq!(set.lookup(A, None), None);
    assert_eq!(set.lookup(A, Some(B)), Some(0));
}
