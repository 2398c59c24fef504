use mini_ecs::column::Column;
use mini_ecs::component::Component;
use mini_ecs::erased::Erased;
use mini_ecs::sample::{MyComponent, OtherComponent};
use mini_ecs::table::Table;
use mini_ecs::world::World;

#[test]
fn big_world() {
    let my_entity_a = MyComponent(1);
    let my_entity_b = MyComponent(10);
    let my_entity_c = MyComponent(100);

    let mut world = World::new();

    world.insert_entity(my_entity_a);
    world.insert_entity(my_entity_b);
    world.insert_entity(my_entity_c);

    let entities = world.get_entities::<MyComponent>().unwrap();
    println!("{entities:?}");

    assert_eq!(entities, vec![MyComponent(1), MyComponent(10), MyComponent(100)]);
}

#[test]
fn identity_stable() {
    let mut world = World::new();
    let id1 = world.init_component_id::<MyComponent>();
    let id2 = world.init_component_id::<MyComponent>();
    assert!(id1 == id2);
    let id3 = world.get_component_id::<MyComponent>().unwrap();
    assert!(id1 == id3);
}

#[test]
fn identity_isolated() {
    let mut world = World::new();
    let id_a = world.init_component_id::<MyComponent>();
    let id_b = world.init_component_id::<OtherComponent>();
    assert!(id_a != id_b);
    assert!(world.get_component_id::<MyComponent>().unwrap() == id_a);
    assert!(world.get_component_id::<OtherComponent>().unwrap() == id_b);
}

#[test]
fn insertion_order_preserved() {
    let mut world = World::new();
    world.insert_entity(MyComponent(3));
    world.insert_entity(MyComponent(1));
    world.insert_entity(MyComponent(2));
    let entities = world.get_entities::<MyComponent>().unwrap();
    assert_eq!(entities, vec![MyComponent(3), MyComponent(1), MyComponent(2)]);
}

#[test]
fn type_separation() {
    let mut world = World::new();
    world.insert_entity(MyComponent(1));
    world.insert_entity(OtherComponent(40));
    world.insert_entity(MyComponent(2));
    let mine = world.get_entities::<MyComponent>().unwrap();
    assert_eq!(mine, vec![MyComponent(1), MyComponent(2)]);
    let others = world.get_entities::<OtherComponent>().unwrap();
    assert_eq!(others, vec![OtherComponent(40)]);
}

#[test]
fn unknown_type_query() {
    let world = World::new();
    assert!(world.get_component_id::<MyComponent>().is_none());
    assert!(world.get_entities::<MyComponent>().is_none());
}

#[test]
fn unknown_type_after_other_inserts() {
    let mut world = World::new();
    world.insert_entity(OtherComponent(7));
    assert!(world.get_component_id::<MyComponent>().is_none());
    assert!(world.get_entities::<MyComponent>().is_none());
}

#[test]
fn registered_without_insert_query() {
    let mut world = World::new();
    world.init_component_id::<MyComponent>();
    assert!(world.get_component_id::<MyComponent>().is_some());
    assert!(world.get_entities::<MyComponent>().is_none());
}

#[test]
fn table_insert_and_get_column() {
    let mut world = World::new();
    let id = world.init_component_id::<MyComponent>();
    let mut table = Table::new();
    assert!(table.get_column(id).is_none());
    table.insert_entity(id, MyComponent(5));
    let column = table.get_column(id).unwrap();
    let rows = column.get();
    assert_eq!(rows.len(), 1);
    assert_eq!(rows[0].tag, 1);
    assert_eq!(rows[0].data, vec![5]);
}

#[test]
fn column_push_and_get() {
    let mut column = Column::new();
    assert!(column.get_row(0).is_none());
    column.push(Erased { tag: 3, data: vec![7, 8] });
    column.push(Erased { tag: 3, data: vec![9] });
    let e0 = column.get_row(0).unwrap();
    assert_eq!(e0.tag, 3);
    assert_eq!(e0.data, vec![7, 8]);
    let e1 = column.get_row(1).unwrap();
    assert_eq!(e1.data, vec![9]);
    assert!(column.get_row(2).is_none());
    assert_eq!(column.get().len(), 2);
}

#[test]
fn encode_decode_round_trip() {
    let v = MyComponent(17);
    let payload = v.encode();
    assert_eq!(payload, vec![17]);
    assert_eq!(MyComponent::decode(&payload), Some(MyComponent(17)));
    assert_eq!(<MyComponent as Component>::tag(), 1);
    let o = OtherComponent(40);
    assert_eq!(OtherComponent::decode(&o.encode()), Some(OtherComponent(40)));
    assert_eq!(<OtherComponent as Component>::tag(), 2);
}

#[test]
fn decode_rejects_bad_payload() {
    assert_eq!(MyComponent::decode(&vec![]), None);
    assert_eq!(MyComponent::decode(&vec![1, 2]), None);
    assert_eq!(OtherComponent::decode(&vec![]), None);
}
