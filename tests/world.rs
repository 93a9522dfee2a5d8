use axle_ecs::{CustomErrors, Query, Resource, Systems, World};

const I32_KEY: u64 = 10;
const OTHER_KEY: u64 = 11;

#[test]
fn add_and_get_resource() {
    let mut world: World<u32, i32> = World::new();
    world.add_resource(I32_KEY, 10_i32);
    assert_eq!(*world.get_resource(I32_KEY).unwrap(), 10);
    assert!(world.get_resource(OTHER_KEY).is_none());
}

#[test]
fn get_resource_mut_changes_value() {
    let mut world: World<u32, i32> = World::new();
    world.add_resource(I32_KEY, 10_i32);
    {
        let resource = world.get_resource_mut(I32_KEY).unwrap();
        *resource += 1;
    }
    assert_eq!(*world.get_resource(I32_KEY).unwrap(), 11);
    assert!(world.get_resource_mut(OTHER_KEY).is_none());
}

#[test]
fn resource_overwrite_keeps_latest() {
    let mut world: World<u32, i32> = World::new();
    world.add_resource(I32_KEY, 1);
    world.add_resource(I32_KEY, 2);
    assert_eq!(world.get_resource(I32_KEY), Some(&2));
}

#[test]
fn resource_removal_leaves_none() {
    let mut world: World<u32, i32> = World::new();
    world.add_resource(I32_KEY, 10_i32);
    world.add_resource(OTHER_KEY, 20_i32);
    world.delete_resource(I32_KEY);
    assert!(world.get_resource(I32_KEY).is_none());
    assert_eq!(world.get_resource(OTHER_KEY), Some(&20));
    world.delete_resource(I32_KEY);
    assert!(world.get_resource(I32_KEY).is_none());
}

#[test]
fn resource_store_directly() {
    let mut store: Resource<String> = Resource::new();
    store.add(1, String::from("a"));
    store.add(2, String::from("b"));
    store.add(1, String::from("c"));
    assert_eq!(store.get_ref(1).map(|s| s.as_str()), Some("c"));
    store.get_mut(2).unwrap().push('!');
    assert_eq!(store.get_ref(2).map(|s| s.as_str()), Some("b!"));
    store.remove(1);
    assert!(store.get_ref(1).is_none());
    assert!(store.get_mut(1).is_none());
}

#[test]
fn world_entities_and_queries() {
    let mut world: World<u32, i32> = World::new();
    world.entities_mut().register_component(1).unwrap();
    world.entities_mut().create_entity();
    world.entities_mut().with_component(1, 5).unwrap();
    let mut query = Query::new();
    query.with_component(world.entities(), 1).unwrap();
    let (indexes, columns) = query.run(world.entities()).unwrap();
    assert_eq!(indexes, vec![0]);
    assert_eq!(columns, vec![vec![5]]);
}

#[test]
fn systems_declarations() {
    let mut systems = Systems::new();
    assert_eq!(systems.with_component_in_system(1, 5), Err(CustomErrors::CreateSystemNeverCalled));
    assert_eq!(systems.with_resource_in_system(1, 6), Err(CustomErrors::CreateSystemNeverCalled));
    assert_eq!(systems.get_component_in_system(1, 5), Err(CustomErrors::SystemDoesNotExist));

    systems.create_system(1);
    systems.with_component_in_system(1, 5).unwrap();
    systems.with_resource_in_system(1, 6).unwrap();
    assert_eq!(systems.get_component_in_system(1, 5), Ok(()));
    assert_eq!(systems.get_resource_in_system(1, 6), Ok(()));
    assert_eq!(systems.get_component_in_system(1, 6), Err(CustomErrors::ComponentInSystemDoesNotExist));
    assert_eq!(systems.get_resource_in_system(1, 5), Err(CustomErrors::ResourceInSystemDoesNotExist));
    assert_eq!(systems.get_resource_in_system(2, 5), Err(CustomErrors::SystemDoesNotExist));

    systems.create_system(1);
    assert_eq!(systems.get_component_in_system(1, 5), Err(CustomErrors::ComponentInSystemDoesNotExist));
}

#[test]
fn world_systems() {
    let mut world: World<u32, i32> = World::new();
    world.systems_mut().create_system(3);
    world.systems_mut().with_component_in_system(3, 1).unwrap();
    assert_eq!(world.systems().get_component_in_system(3, 1), Ok(()));
}

#[test]
fn error_messages() {
    assert_eq!(
        CustomErrors::ComponentNotRegistered.message(),
        "Attempting to reference a component that wasn't registered"
    );
    assert_eq!(
        CustomErrors::CreateEntityNeverCalled.message(),
        "Attempting to add component to an entity without calling create entity first"
    );
}

#[test]
fn default_world_and_table_are_empty() {
    let world: World<u32, i32> = World::default();
    assert_eq!(world.entities().len(), 0);
    assert!(world.get_resource(I32_KEY).is_none());
    let table: axle_ecs::Entities<u8> = axle_ecs::Entities::default();
    assert_eq!(table.len(), 0);
    assert_eq!(table.get_bitmask(1), None);
}
