use axle_ecs::{CustomErrors, Entities, Query, QueryEntity};

const U32_KEY: u64 = 1;
const F32_KEY: u64 = 2;

#[derive(Clone, Copy, Debug, PartialEq)]
enum Comp {
    U32(u32),
    F32(f32),
}

fn table() -> Entities<Comp> {
    let mut entities: Entities<Comp> = Entities::new();
    entities.register_component(U32_KEY).unwrap();
    entities.register_component(F32_KEY).unwrap();
    entities
}

#[test]
fn query_mask_updating_with_component() -> Result<(), CustomErrors> {
    let entities = table();

    let mut query = Query::new();
    query.with_component(&entities, U32_KEY)?;
    query.with_component(&entities, F32_KEY)?;

    assert_eq!(query.map(), 3);
    assert_eq!(U32_KEY, query.type_ids()[0]);
    assert_eq!(F32_KEY, query.type_ids()[1]);

    Ok(())
}

#[test]
fn run_query() -> Result<(), CustomErrors> {
    let mut entities = table();

    entities.create_entity();
    entities.with_component(U32_KEY, Comp::U32(10_u32))?;
    entities.with_component(F32_KEY, Comp::F32(20.0_f32))?;

    entities.create_entity();
    entities.with_component(U32_KEY, Comp::U32(5_u32))?;

    entities.create_entity();
    entities.with_component(F32_KEY, Comp::F32(50.0_f32))?;

    entities.create_entity();
    entities.with_component(U32_KEY, Comp::U32(15_u32))?;
    entities.with_component(F32_KEY, Comp::F32(25.0_f32))?;

    let mut query = Query::new();
    query.with_component(&entities, U32_KEY)?;
    query.with_component(&entities, F32_KEY)?;

    let query_result = query.run(&entities)?;
    let u32s = &query_result.1[0];
    let f32s = &query_result.1[1];
    let indexes = &query_result.0;

    assert!(u32s.len() == f32s.len() && u32s.len() == indexes.len());
    assert_eq!(u32s.len(), 2);

    assert_eq!(u32s[0], Comp::U32(10));
    assert_eq!(f32s[0], Comp::F32(20.0));
    assert_eq!(u32s[1], Comp::U32(15));
    assert_eq!(f32s[1], Comp::F32(25.0));

    assert_eq!(indexes[0], 0);
    assert_eq!(indexes[1], 3);

    Ok(())
}

#[test]
fn query_for_entity_ref() -> Result<(), CustomErrors> {
    let mut entitities = table();

    entitities.create_entity();
    entitities.with_component(U32_KEY, Comp::U32(100_u32))?;
    entitities.create_entity();
    entitities.with_component(F32_KEY, Comp::F32(10.0_f32))?;

    let mut query = Query::new();
    query.with_component(&entitities, U32_KEY)?;
    let handles: Vec<QueryEntity> = query.run_entity(&entitities);

    assert_eq!(handles.len(), 1);

    for entity in handles {
        assert_eq!(entity.id, 0);
        let health = entity.get_component(&entitities, U32_KEY)?;
        assert_eq!(health, Comp::U32(100));
    }

    Ok(())
}

#[test]
fn query_for_entity_mut() -> Result<(), CustomErrors> {
    let mut entitities = table();

    entitities.create_entity();
    entitities.with_component(U32_KEY, Comp::U32(100_u32))?;
    entitities.create_entity();
    entitities.with_component(F32_KEY, Comp::F32(10.0_f32))?;

    let mut query = Query::new();
    query.with_component(&entitities, U32_KEY)?;
    let handles: Vec<QueryEntity> = query.run_entity(&entitities);

    assert_eq!(handles.len(), 1);

    for entity in handles {
        assert_eq!(entity.id, 0);
        let health = entity.get_component_mut(&mut entitities, U32_KEY)?;
        let value = entitities.read_borrowed(&health)?;
        assert_eq!(value, Comp::U32(100));
        if let Comp::U32(v) = value {
            entitities.write_borrowed(&health, Comp::U32(v + 1))?;
        }
        entitities.release_component(health)?;
    }

    query.with_component(&entitities, U32_KEY)?;
    let handles: Vec<QueryEntity> = query.run_entity(&entitities);
    for entity in handles {
        let health = entity.get_component(&entitities, U32_KEY)?;
        assert_eq!(health, Comp::U32(101));
    }

    Ok(())
}

#[test]
fn empty_query_matches_every_entity() {
    let mut entities = table();
    entities.create_entity();
    entities.create_entity();
    entities.with_component(U32_KEY, Comp::U32(1)).unwrap();
    entities.create_entity();

    let query = Query::new();
    assert_eq!(query.map(), 0);
    let (indexes, columns) = query.run(&entities).unwrap();
    assert_eq!(indexes, vec![0, 1, 2]);
    assert!(columns.is_empty());
    assert_eq!(query.run_entity(&entities).len(), 3);
}

#[test]
fn unregistered_component_in_query_is_rejected() {
    let entities = table();
    let mut query = Query::new();
    assert_eq!(query.with_component(&entities, 99), Err(CustomErrors::ComponentNotRegistered));
    assert_eq!(query.with_component_by_type_id(&entities, 7), Err(CustomErrors::ComponentNotRegistered));
    assert_eq!(query.map(), 0);
    assert!(query.type_ids().is_empty());
}

#[test]
fn with_component_by_type_id_sets_bit() {
    let entities = table();
    let mut query = Query::new();
    query.with_component_by_type_id(&entities, F32_KEY).unwrap();
    assert_eq!(query.map(), 2);
    assert_eq!(query.type_ids(), &vec![F32_KEY]);
}

#[test]
fn extra_components_do_not_exclude() {
    let mut entities = table();
    entities.create_entity();
    entities.with_component(U32_KEY, Comp::U32(1)).unwrap();
    entities.with_component(F32_KEY, Comp::F32(1.5)).unwrap();
    entities.create_entity();
    entities.with_component(F32_KEY, Comp::F32(2.5)).unwrap();

    let mut query = Query::new();
    query.with_component(&entities, F32_KEY).unwrap();
    let (indexes, columns) = query.run(&entities).unwrap();
    assert_eq!(indexes, vec![0, 1]);
    assert_eq!(columns, vec![vec![Comp::F32(1.5), Comp::F32(2.5)]]);
}

#[test]
fn repeated_runs_give_same_indexes() {
    let mut entities = table();
    for i in 0..5u32 {
        entities.create_entity();
        if i % 2 == 0 {
            entities.with_component(U32_KEY, Comp::U32(i)).unwrap();
        }
    }
    let mut query = Query::new();
    query.with_component(&entities, U32_KEY).unwrap();
    let first = query.run(&entities).unwrap();
    let second = query.run(&entities).unwrap();
    assert_eq!(first.0, vec![0, 2, 4]);
    assert_eq!(first.0, second.0);
    assert_eq!(first.1, second.1);
}

#[test]
fn deleted_entity_no_longer_matches() {
    let mut entities = table();
    entities.create_entity();
    entities.with_component(U32_KEY, Comp::U32(3)).unwrap();
    entities.create_entity();
    entities.with_component(U32_KEY, Comp::U32(4)).unwrap();
    entities.delete_entity(0).unwrap();

    let mut query = Query::new();
    query.with_component(&entities, U32_KEY).unwrap();
    let (indexes, columns) = query.run(&entities).unwrap();
    assert_eq!(indexes, vec![1]);
    assert_eq!(columns, vec![vec![Comp::U32(4)]]);
    assert_eq!(Query::new().run(&entities).unwrap().0, vec![0, 1]);
}

#[test]
fn run_reports_borrowed_cell() {
    let mut entities = table();
    entities.create_entity();
    entities.with_component(U32_KEY, Comp::U32(1)).unwrap();
    entities.with_component(F32_KEY, Comp::F32(1.0)).unwrap();

    let mut query = Query::new();
    query.with_component(&entities, U32_KEY).unwrap();
    let token = entities.get_component_mut(F32_KEY, 0).unwrap();
    // the borrowed column is not requested: the run goes through
    assert_eq!(query.run(&entities).unwrap().0, vec![0]);

    query.with_component(&entities, F32_KEY).unwrap();
    assert_eq!(query.run(&entities), Err(CustomErrors::BorrowConflict));
    assert_eq!(query.run_entity(&entities).len(), 1);

    entities.release_component(token).unwrap();
    let (indexes, columns) = query.run(&entities).unwrap();
    assert_eq!(indexes, vec![0]);
    assert_eq!(columns, vec![vec![Comp::U32(1)], vec![Comp::F32(1.0)]]);
}
