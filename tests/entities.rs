use axle_ecs::{CustomErrors, Entities};

const U32_KEY: u64 = 1;
const F32_KEY: u64 = 2;

#[test]
fn register_component_is_idempotent() {
    let mut entities: Entities<u32> = Entities::new();
    assert_eq!(entities.register_component(U32_KEY), Ok(1));
    assert_eq!(entities.register_component(F32_KEY), Ok(2));
    assert_eq!(entities.register_component(U32_KEY), Ok(1));
    assert_eq!(entities.get_bitmask(U32_KEY), Some(1));
    assert_eq!(entities.get_bitmask(F32_KEY), Some(2));
    assert_eq!(entities.get_bitmask(3), None);
}

#[test]
fn registry_full_after_all_bits() {
    let mut entities: Entities<u32> = Entities::new();
    for key in 0..32u64 {
        assert_eq!(entities.register_component(key), Ok(1u32 << key));
    }
    assert_eq!(entities.register_component(100), Err(CustomErrors::RegistryFull));
    assert_eq!(entities.register_component(31), Ok(1u32 << 31));
    assert_eq!(entities.get_bitmask(100), None);
}

#[test]
fn with_component_before_create_entity() {
    let mut entities: Entities<u32> = Entities::new();
    entities.register_component(U32_KEY).unwrap();
    assert_eq!(entities.with_component(U32_KEY, 10), Err(CustomErrors::CreateEntityNeverCalled));
    assert_eq!(entities.len(), 0);
}

#[test]
fn with_component_unregistered() {
    let mut entities: Entities<u32> = Entities::new();
    entities.create_entity();
    assert_eq!(entities.with_component(U32_KEY, 10), Err(CustomErrors::ComponentNotRegistered));
    assert_eq!(entities.mask(0), 0);
}

#[test]
fn masks_follow_cells() {
    let mut entities: Entities<u32> = Entities::new();
    entities.register_component(U32_KEY).unwrap();
    entities.register_component(F32_KEY).unwrap();
    assert_eq!(entities.create_entity(), 0);
    entities.with_component(F32_KEY, 7).unwrap();
    assert_eq!(entities.create_entity(), 1);
    entities.with_component(U32_KEY, 8).unwrap();
    entities.with_component(F32_KEY, 9).unwrap();

    assert_eq!(entities.mask(0), 2);
    assert_eq!(entities.mask(1), 3);
    assert_eq!(entities.cell_value(0, 0), None);
    assert_eq!(entities.cell_value(1, 0), Some(7));
    assert_eq!(entities.cell_value(0, 1), Some(8));

    entities.delete_entity(1).unwrap();
    assert_eq!(entities.mask(1), 0);
    assert_eq!(entities.cell_value(0, 1), None);
    assert_eq!(entities.cell_value(1, 1), None);
    assert_eq!(entities.len(), 2);
}

#[test]
fn late_registration_adds_empty_column() {
    let mut entities: Entities<u32> = Entities::new();
    entities.register_component(U32_KEY).unwrap();
    entities.create_entity();
    entities.with_component(U32_KEY, 1).unwrap();
    assert_eq!(entities.register_component(F32_KEY), Ok(2));
    assert_eq!(entities.cell_value(1, 0), None);
    entities.with_component(F32_KEY, 5).unwrap();
    assert_eq!(entities.mask(0), 3);
}

#[test]
fn get_component_errors() {
    let mut entities: Entities<u32> = Entities::new();
    entities.register_component(U32_KEY).unwrap();
    entities.register_component(F32_KEY).unwrap();
    entities.create_entity();
    entities.with_component(U32_KEY, 42).unwrap();

    assert_eq!(entities.get_component(U32_KEY, 0), Ok(42));
    assert_eq!(entities.get_component(99, 0), Err(CustomErrors::ComponentNotRegistered));
    assert_eq!(entities.get_component(U32_KEY, 5), Err(CustomErrors::EntityDoesNotExist));
    assert_eq!(entities.get_component(F32_KEY, 0), Err(CustomErrors::ComponentDataDoesNotExist));
    assert_eq!(entities.delete_entity(3), Err(CustomErrors::EntityDoesNotExist));
}

#[test]
fn second_mutable_borrow_conflicts() {
    let mut entities: Entities<u32> = Entities::new();
    entities.register_component(U32_KEY).unwrap();
    entities.create_entity();
    entities.with_component(U32_KEY, 1).unwrap();

    let token = entities.get_component_mut(U32_KEY, 0).unwrap();
    assert_eq!(token.key(), U32_KEY);
    assert_eq!(token.index(), 0);
    assert!(matches!(entities.get_component_mut(U32_KEY, 0), Err(CustomErrors::BorrowConflict)));
    assert_eq!(entities.get_component(U32_KEY, 0), Err(CustomErrors::BorrowConflict));
    assert_eq!(entities.with_component(U32_KEY, 2), Err(CustomErrors::BorrowConflict));
    assert_eq!(entities.delete_entity(0), Err(CustomErrors::BorrowConflict));

    entities.write_borrowed(&token, 9).unwrap();
    assert_eq!(entities.read_borrowed(&token), Ok(9));
    entities.release_component(token).unwrap();

    assert_eq!(entities.get_component(U32_KEY, 0), Ok(9));
    let again = entities.get_component_mut(U32_KEY, 0).unwrap();
    entities.release_component(again).unwrap();
}

#[test]
fn released_token_is_no_longer_valid() {
    let mut entities: Entities<u32> = Entities::new();
    entities.register_component(U32_KEY).unwrap();
    entities.create_entity();
    entities.with_component(U32_KEY, 1).unwrap();
    let token = entities.get_component_mut(U32_KEY, 0).unwrap();
    let other = entities.get_component_mut(U32_KEY, 0);
    assert!(other.is_err());
    entities.release_component(token).unwrap();
    let token = entities.get_component_mut(U32_KEY, 0).unwrap();
    entities.release_component(token).unwrap();
    assert!(entities.delete_entity(0).is_ok());
}

#[test]
fn error_message_for_registry_full() {
    assert_eq!(
        CustomErrors::RegistryFull.message(),
        "Attempting to register more component types than the mask has bits"
    );
}
