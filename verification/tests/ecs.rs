use std::rc::Rc;

use crile::ecs::archetype::ComponentArray;
use crile::ecs::type_info::{last_type_name, ComponentLayout, TypeInfo};
use crile::ecs::world::World;

#[derive(Default, Clone, Copy, Debug, PartialEq)]
struct Position {
    x: f32,
    y: f32,
}

#[derive(Default, Clone, Copy, Debug, PartialEq)]
struct Velocity {
    x: f32,
    y: f32,
}

#[derive(Default, Clone, Debug, PartialEq)]
struct Metadata {
    rc: Rc<String>,
    stuff: Vec<String>,
}

/// The components the tests store, one variant per component type.
#[derive(Clone, Debug, PartialEq)]
enum Component {
    Position(Position),
    Velocity(Velocity),
    Metadata(Metadata),
}

fn position_info() -> TypeInfo {
    TypeInfo::of::<Position>()
}

fn velocity_info() -> TypeInfo {
    TypeInfo::of::<Velocity>()
}

fn metadata_info() -> TypeInfo {
    TypeInfo::of::<Metadata>()
}

fn as_position(c: &Component) -> Position {
    match c {
        Component::Position(p) => *p,
        other => panic!("not a position: {other:?}"),
    }
}

#[test]
fn normal_spawn_1_component() {
    let mut world: World<Component> = World::default();
    let id = world.spawn(vec![(position_info(), Component::Position(Position { x: 1., y: 2. }))]);
    assert_eq!(id, 0);

    let position = as_position(world.get(position_info().id, 0).unwrap());
    assert_eq!(position.x, 1.);
    assert_eq!(position.y, 2.);
}

#[test]
fn spawn_raw_1_component() {
    let mut world: World<Component> = World::default();
    let position = Position { x: 1., y: 2. };
    world.spawn_raw(&vec![position_info()], vec![Component::Position(position)]);

    let position = as_position(world.get(position_info().id, 0).unwrap());
    assert_eq!(position.x, 1.);
    assert_eq!(position.y, 2.);
}

#[test]
fn despawn_with_dropable() {
    let mut world: World<Component> = World::default();
    let meta = Metadata {
        rc: Rc::new("data".to_string()),
        ..Default::default()
    };

    let id = world.spawn(vec![(metadata_info(), Component::Metadata(meta.clone()))]);
    world.spawn(vec![(metadata_info(), Component::Metadata(meta.clone()))]);
    assert_eq!(Rc::strong_count(&meta.rc), 3);

    world.despawn(id);
    assert_eq!(world.get(metadata_info().id, id), None);
    assert_eq!(Rc::strong_count(&meta.rc), 2);
    drop(world);

    assert_eq!(Rc::strong_count(&meta.rc), 1);
}

#[test]
fn entity_ref() {
    let mut world: World<Component> = World::default();
    let id = world.spawn(vec![(velocity_info(), Component::Velocity(Velocity::default()))]);

    let entity = world.entity(id).unwrap();
    assert!(entity.has(velocity_info().id));
    assert_eq!(*entity.get(velocity_info().id).unwrap(), Component::Velocity(Velocity::default()));

    let meta = Metadata {
        rc: Rc::new("asdf".to_string()),
        ..Default::default()
    };
    world.add_component(id, metadata_info(), Component::Metadata(meta.clone()));
    let entity = world.entity(id).unwrap();
    assert_eq!(*entity.get(metadata_info().id).unwrap(), Component::Metadata(meta.clone()));
    assert_eq!(Rc::strong_count(&meta.rc), 2);

    world.remove_component(id, metadata_info().id);
    let entity = world.entity(id).unwrap();
    assert!(!entity.has(metadata_info().id));
    assert_eq!(*entity.get(velocity_info().id).unwrap(), Component::Velocity(Velocity::default()));
    assert_eq!(Rc::strong_count(&meta.rc), 1);
}

#[test]
fn query_world() {
    let mut world: World<Component> = World::default();
    let position = Position { x: 1., y: 2. };
    let velocity = Velocity { x: 1., y: 2. };
    world.spawn(vec![
        (position_info(), Component::Position(position)),
        (velocity_info(), Component::Velocity(velocity)),
    ]);
    world.spawn(vec![
        (velocity_info(), Component::Velocity(velocity)),
        (position_info(), Component::Position(position)),
    ]);
    assert_eq!(world.archetype_count(), 1);

    let query = world.query(&vec![position_info().id, velocity_info().id]);
    assert_eq!(query.len(), 2);
    assert_eq!(query[0].0, 0);
    assert_eq!(*query[0].1[0], Component::Position(position));
    assert_eq!(*query[0].1[1], Component::Velocity(velocity));
    assert_eq!(query[1].0, 1);
    assert_eq!(*query[1].1[0], Component::Position(position));
    assert_eq!(*query[1].1[1], Component::Velocity(velocity));
}

#[test]
fn query_mut_changes_matching_entities_only() {
    let mut world: World<Component> = World::default();
    let both = world.spawn(vec![
        (position_info(), Component::Position(Position { x: 1., y: 2. })),
        (velocity_info(), Component::Velocity(Velocity { x: 5., y: 5. })),
    ]);
    let only_position = world.spawn(vec![(position_info(), Component::Position(Position { x: 7., y: 8. }))]);
    let position_id = position_info().id;
    world.query_mut(&vec![position_id, velocity_info().id], position_id, |index, c| match c {
        Component::Position(p) => Component::Position(Position { x: p.x + index as f32 + 10., y: p.y }),
        other => other.clone(),
    });
    assert_eq!(world.get(position_id, both), Some(&Component::Position(Position { x: 11., y: 2. })));
    assert_eq!(world.get(velocity_info().id, both), Some(&Component::Velocity(Velocity { x: 5., y: 5. })));
    assert_eq!(world.get(position_id, only_position), Some(&Component::Position(Position { x: 7., y: 8. })));
}

#[test]
fn get_mut_changes_one_component() {
    let mut world: World<Component> = World::default();
    let id = world.spawn(vec![
        (position_info(), Component::Position(Position { x: 1., y: 2. })),
        (velocity_info(), Component::Velocity(Velocity { x: 3., y: 4. })),
    ]);
    *world.get_mut(position_info().id, id) = Component::Position(Position { x: 9., y: 9. });
    assert_eq!(world.get(position_info().id, id), Some(&Component::Position(Position { x: 9., y: 9. })));
    assert_eq!(world.get(velocity_info().id, id), Some(&Component::Velocity(Velocity { x: 3., y: 4. })));
}

#[test]
fn spawned_component_reads_back() {
    let mut world: World<Component> = World::new();
    let p = Position { x: 3., y: 4. };
    let id = world.spawn(vec![(position_info(), Component::Position(p))]);
    assert_eq!(world.get(position_info().id, id), Some(&Component::Position(p)));
    assert_eq!(world.get(velocity_info().id, id), None);
    assert!(world.entity_exists(id));
    assert!(!world.entity_exists(id + 1));
}

#[test]
fn despawn_keeps_other_entities() {
    let mut world: World<Component> = World::new();
    let a = world.spawn(vec![(position_info(), Component::Position(Position { x: 1., y: 1. }))]);
    let b = world.spawn(vec![(position_info(), Component::Position(Position { x: 2., y: 2. }))]);
    let c = world.spawn(vec![(position_info(), Component::Position(Position { x: 3., y: 3. }))]);
    world.despawn(a);
    assert!(!world.entity_exists(a));
    assert_eq!(world.get(position_info().id, b), Some(&Component::Position(Position { x: 2., y: 2. })));
    assert_eq!(world.get(position_info().id, c), Some(&Component::Position(Position { x: 3., y: 3. })));
}

#[test]
fn despawned_index_is_reused() {
    let mut world: World<Component> = World::new();
    world.spawn(vec![(position_info(), Component::Position(Position::default()))]);
    let b = world.spawn(vec![(position_info(), Component::Position(Position::default()))]);
    world.spawn(vec![(position_info(), Component::Position(Position::default()))]);
    world.despawn(b);
    let d = world.spawn(vec![(velocity_info(), Component::Velocity(Velocity::default()))]);
    assert_eq!(d, b);
    assert_eq!(world.index_count(), 3);
    let e = world.spawn(vec![(velocity_info(), Component::Velocity(Velocity::default()))]);
    assert_eq!(e, 3);
}

#[test]
fn add_then_remove_restores_entity() {
    let mut world: World<Component> = World::new();
    let p = Position { x: 5., y: 6. };
    let id = world.spawn(vec![(position_info(), Component::Position(p))]);
    world.add_component(id, velocity_info(), Component::Velocity(Velocity { x: 1., y: 0. }));
    assert_eq!(world.archetype_count(), 2);
    let removed = world.remove_component(id, velocity_info().id);
    assert_eq!(removed, Component::Velocity(Velocity { x: 1., y: 0. }));
    let entity = world.entity(id).unwrap();
    assert_eq!(entity.get(position_info().id), Some(&Component::Position(p)));
    assert!(!entity.has(velocity_info().id));
    assert_eq!(entity.index(), id);
}

#[test]
fn replace_component_returns_old_value() {
    let mut world: World<Component> = World::new();
    let id = world.spawn(vec![(position_info(), Component::Position(Position { x: 1., y: 1. }))]);
    let old = world.replace_component(id, position_info().id, Component::Position(Position { x: 9., y: 9. }));
    assert_eq!(old, Component::Position(Position { x: 1., y: 1. }));
    assert_eq!(world.get(position_info().id, id), Some(&Component::Position(Position { x: 9., y: 9. })));
}

#[test]
fn query_skips_entities_missing_a_type() {
    let mut world: World<Component> = World::new();
    world.spawn(vec![(position_info(), Component::Position(Position::default()))]);
    let both = world.spawn(vec![
        (position_info(), Component::Position(Position::default())),
        (velocity_info(), Component::Velocity(Velocity::default())),
    ]);
    let only_velocity = world.query_entities(&vec![velocity_info().id]);
    assert_eq!(only_velocity, vec![both]);
    let all = world.query_entities(&vec![]);
    assert_eq!(all.len(), 2);
}

#[test]
fn spawn_with_id_places_entity() {
    let mut world: World<Component> = World::new();
    world.spawn_with_id(4, &vec![position_info()], vec![Component::Position(Position { x: 1., y: 2. })]);
    assert!(world.entity_exists(4));
    assert!(!world.entity_exists(0));
    assert_eq!(world.entity_components(4).len(), 1);
    assert_eq!(world.index_count(), 5);
}

#[test]
fn component_array_starts_empty() {
    let array: ComponentArray<u32> = ComponentArray::new(TypeInfo::of::<u32>());
    assert_eq!(array.count(), 0);
    assert!(array.get_ptr().is_empty());
    assert_eq!(array.get_type_id(), TypeInfo::of::<u32>().id);
    let array: ComponentArray<u32> = ComponentArray::with_capacity(TypeInfo::of::<u64>(), 16);
    assert_eq!(array.count(), 0);
    assert_eq!(array.get_type_id(), TypeInfo::of::<u64>().id);
}

#[test]
fn despawn_moves_last_row_into_place() {
    let mut world: World<Component> = World::new();
    for i in 0..3 {
        world.spawn(vec![(position_info(), Component::Position(Position { x: i as f32, y: 0. }))]);
    }
    assert_eq!(world.query_entities(&vec![position_info().id]), vec![0, 1, 2]);
    world.despawn(0);
    // The last row took the place of the removed one.
    assert_eq!(world.query_entities(&vec![position_info().id]), vec![2, 1]);
    assert_eq!(world.get(position_info().id, 2), Some(&Component::Position(Position { x: 2., y: 0. })));
}

#[test]
fn one_archetype_per_set_of_types() {
    let mut world: World<Component> = World::new();
    world.spawn(vec![(position_info(), Component::Position(Position::default()))]);
    world.spawn(vec![
        (velocity_info(), Component::Velocity(Velocity::default())),
        (position_info(), Component::Position(Position::default())),
    ]);
    assert_eq!(world.archetype_count(), 2);
    world.spawn(vec![
        (position_info(), Component::Position(Position::default())),
        (velocity_info(), Component::Velocity(Velocity::default())),
    ]);
    world.add_component(0, velocity_info(), Component::Velocity(Velocity::default()));
    assert_eq!(world.archetype_count(), 2);
    assert_eq!(world.query_entities(&vec![velocity_info().id]), vec![1, 2, 0]);
}

#[test]
fn type_info_of_reports_layout() {
    let info = TypeInfo::of::<u64>();
    let expected = ComponentLayout { size: 8, align: 8 };
    assert_eq!((info.layout.size, info.layout.align), (expected.size, expected.align));
    assert_ne!(TypeInfo::of::<u64>().id, TypeInfo::of::<u32>().id);
    assert_eq!(TypeInfo::of::<u64>(), TypeInfo::of::<u64>());
    assert_ne!(TypeInfo::of::<u64>(), TypeInfo::of::<u32>());
}

#[test]
fn last_type_name_takes_last_path_piece() {
    assert_eq!(last_type_name("crile::ecs::components::MetaDataComponent"), "MetaDataComponent");
    assert_eq!(last_type_name("u32"), "u32");
    assert_eq!(last_type_name(""), "");
    assert_eq!(last_type_name("a::"), "");
    assert_eq!(last_type_name("a:b::c"), "c");
    assert_eq!(last_type_name("std::vec::Vec<u8>"), "Vec<u8>");
}

#[test]
fn cloned_world_is_independent() {
    let mut world: World<Component> = World::new();
    let a = world.spawn(vec![(position_info(), Component::Position(Position { x: 1., y: 1. }))]);
    let b = world.spawn(vec![(velocity_info(), Component::Velocity(Velocity { x: 2., y: 2. }))]);
    let copy = world.clone();
    world.despawn(a);
    world.replace_component(b, velocity_info().id, Component::Velocity(Velocity::default()));
    assert!(copy.entity_exists(a));
    assert_eq!(copy.get(position_info().id, a), Some(&Component::Position(Position { x: 1., y: 1. })));
    assert_eq!(copy.get(velocity_info().id, b), Some(&Component::Velocity(Velocity { x: 2., y: 2. })));
    assert_eq!(copy.index_count(), 2);
    assert_eq!(copy.archetype_count(), world.archetype_count());
}
