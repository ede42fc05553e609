use entity_merge::{
    get_component, insert_component, NonUniformScale2DComponent, Position2DComponent,
    Rotation2DComponent, TypeKey, TypedComponent, UniformScale2DComponent, Vec2, World,
};

fn key_of(text: &str) -> TypeKey {
    TypeKey { value: uuid::Uuid::parse_str(text).unwrap().as_u128() }
}

#[test]
fn the_type_keys_are_the_identifiers_of_the_types() {
    assert_eq!(
        Position2DComponent::type_key(),
        key_of("8bf67228-f96c-4649-b306-ecd107194cf0")
    );
    assert_eq!(
        UniformScale2DComponent::type_key(),
        key_of("ea1118ac-ebbe-433b-8532-e8938cd3a2dc")
    );
    assert_eq!(
        NonUniformScale2DComponent::type_key(),
        key_of("3318484f-d816-4f8e-b6d2-accd66e49276")
    );
    assert_eq!(
        Rotation2DComponent::type_key(),
        key_of("6841f13d-fe38-4320-a8f8-1a6133f45e33")
    );
}

#[test]
fn a_type_key_has_the_bytes_of_its_identifier() {
    let id = uuid::Uuid::parse_str("8bf67228-f96c-4649-b306-ecd107194cf0").unwrap();
    let key = Position2DComponent::type_key();
    assert_eq!(key.to_bytes(), id.as_bytes().to_vec());
    assert_eq!(
        key.to_bytes(),
        vec![
            0x8b, 0xf6, 0x72, 0x28, 0xf9, 0x6c, 0x46, 0x49, 0xb3, 0x06, 0xec, 0xd1, 0x07, 0x19,
            0x4c, 0xf0
        ]
    );
    assert_eq!(TypeKey::from_bytes(id.as_bytes()), Some(key));
    assert_eq!(TypeKey::from_bytes(&key.to_bytes()), Some(key));
    assert_eq!(TypeKey::new(1).to_bytes(), vec![0, 0, 0, 0, 0, 0, 0, 0, 0, 0, 0, 0, 0, 0, 0, 1]);
    assert_eq!(TypeKey::from_bytes(&[0; 15]), None);
    assert_eq!(TypeKey::from_bytes(&[0; 17]), None);
    assert_eq!(TypeKey::from_bytes(&[]), None);
    let bytes: Vec<u8> = (1..=16).collect();
    assert_eq!(
        TypeKey::from_bytes(&bytes),
        Some(TypeKey { value: 0x0102_0304_0506_0708_090a_0b0c_0d0e_0f10 })
    );
    assert_eq!(
        TypeKey::from_bytes(&bytes).unwrap().value,
        uuid::Uuid::from_slice(&bytes).unwrap().as_u128()
    );
}

#[test]
fn a_position_is_stored_as_its_two_coordinates() {
    let position = Position2DComponent {
        position: Vec2 { x: 1.5f32.to_bits(), y: (-2.0f32).to_bits() },
    };
    let bytes = position.to_bytes();
    assert_eq!(bytes, vec![0x00, 0x00, 0xc0, 0x3f, 0x00, 0x00, 0x00, 0xc0]);
    let mut expected = 1.5f32.to_le_bytes().to_vec();
    expected.extend_from_slice(&(-2.0f32).to_le_bytes());
    assert_eq!(bytes, expected);
    assert_eq!(Position2DComponent::from_bytes(&bytes), Some(position));
    assert_eq!(Position2DComponent::from_bytes(&bytes[..7].to_vec()), None);
    assert_eq!(Position2DComponent::from_bytes(&vec![0; 9]), None);
    let read = Position2DComponent::from_bytes(&vec![0, 0, 0x80, 0x3f, 0, 0, 0, 0x40]).unwrap();
    assert_eq!(f32::from_bits(read.position.x), 1.0);
    assert_eq!(f32::from_bits(read.position.y), 2.0);
}

#[test]
fn a_scale_and_a_rotation_are_stored_as_their_numbers() {
    let scale = UniformScale2DComponent { uniform_scale: 0.25f32.to_bits() };
    assert_eq!(scale.to_bytes(), 0.25f32.to_le_bytes().to_vec());
    assert_eq!(scale.to_bytes(), vec![0, 0, 0x80, 0x3e]);
    assert_eq!(UniformScale2DComponent::from_bytes(&scale.to_bytes()), Some(scale));
    assert_eq!(UniformScale2DComponent::from_bytes(&vec![0; 8]), None);
    let rotation = Rotation2DComponent { rotation: 0x4049_0fdb };
    assert_eq!(rotation.to_bytes(), vec![0xdb, 0x0f, 0x49, 0x40]);
    assert_eq!(Rotation2DComponent::from_bytes(&rotation.to_bytes()), Some(rotation));
    assert_eq!(Rotation2DComponent::from_bytes(&vec![]), None);
    let stretch = NonUniformScale2DComponent {
        non_uniform_scale: Vec2 { x: 0x0102_0304, y: 0x0506_0708 },
    };
    assert_eq!(stretch.to_bytes(), vec![4, 3, 2, 1, 8, 7, 6, 5]);
    assert_eq!(NonUniformScale2DComponent::from_bytes(&stretch.to_bytes()), Some(stretch));
    assert_eq!(NonUniformScale2DComponent::from_bytes(&vec![0; 4]), None);
}

#[test]
fn the_default_values_are_zero() {
    assert_eq!(Vec2::default(), Vec2 { x: 0, y: 0 });
    assert_eq!(Position2DComponent::default().position, Vec2 { x: 0, y: 0 });
    assert_eq!(f32::from_bits(UniformScale2DComponent::default().uniform_scale), 0.0);
    assert_eq!(NonUniformScale2DComponent::default().to_bytes(), vec![0; 8]);
    assert_eq!(Rotation2DComponent::default().to_bytes(), vec![0; 4]);
}

#[test]
fn a_registration_describes_the_type() {
    let table = Position2DComponent::registration(42);
    assert_eq!(table.type_key(), Position2DComponent::type_key());
    assert_eq!(table.runtime_type(), 42);
    assert_eq!(table.size(), 8);
    assert_eq!(table.align(), 4);
    assert_eq!(table.construct_default(), vec![0; 8]);
    let table = Rotation2DComponent::registration(7);
    assert_eq!(table.type_key(), Rotation2DComponent::type_key());
    assert_eq!(table.size(), 4);
    assert_eq!(table.align(), 4);
    assert_eq!(UniformScale2DComponent::registration(1).size(), 4);
    assert_eq!(NonUniformScale2DComponent::registration(1).size(), 8);
    assert_eq!(
        NonUniformScale2DComponent::registration(1).type_key(),
        NonUniformScale2DComponent::type_key()
    );
}

#[test]
fn a_component_is_read_back_as_its_own_type_only() {
    let mut world = World::new();
    let entity = world.allocate().unwrap();
    let position = Position2DComponent { position: Vec2 { x: 7, y: 9 } };
    assert!(insert_component(&mut world, entity, &position));
    assert!(!insert_component(&mut world, 5, &position));
    assert_eq!(get_component::<Position2DComponent>(&world, entity), Some(position));
    assert_eq!(get_component::<NonUniformScale2DComponent>(&world, entity), None);
    assert_eq!(get_component::<Rotation2DComponent>(&world, entity), None);
    assert_eq!(get_component::<Position2DComponent>(&world, 5), None);
    assert_eq!(
        world.get(entity, Position2DComponent::type_key()),
        Some(&vec![7, 0, 0, 0, 9, 0, 0, 0])
    );
    assert!(world.insert(entity, Rotation2DComponent::type_key(), vec![1, 2, 3]));
    assert_eq!(get_component::<Rotation2DComponent>(&world, entity), None);
    assert!(insert_component(&mut world, entity, &Rotation2DComponent { rotation: 3 }));
    assert_eq!(
        get_component::<Rotation2DComponent>(&world, entity),
        Some(Rotation2DComponent { rotation: 3 })
    );
}
