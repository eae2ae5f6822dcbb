use crile::ecs::components::MetaDataComponent;
use crile::ecs::scene::{Scene, SceneComponent};
use crile::ecs::scene_serializer::{EntityRecord, RecordId, SceneError, SceneSerializer};
use crile::ecs::type_info::TypeInfo;

#[derive(Clone, Debug, PartialEq)]
struct Sprite {
    texture: u32,
}

fn sprite_info() -> TypeInfo {
    TypeInfo::of::<Sprite>()
}

fn children_of(scene: &Scene<Sprite>, id: usize) -> Vec<usize> {
    scene.get_meta(id).unwrap().children.clone()
}

#[test]
fn default_scene_has_only_the_root() {
    let scene: Scene<Sprite> = Scene::default();
    let root = scene.root_meta();
    assert_eq!(root.name, "Root");
    assert!(root.children.is_empty());
    assert_eq!(root.parent, 0);
    let entity = scene.root_entity();
    assert_eq!(entity.index(), Scene::<Sprite>::ROOT_ID);
    assert!(entity.has(scene.meta_type_id()));
    assert!(scene.get_meta(1).is_none());
}

#[test]
fn empty_scene_has_no_root() {
    let scene: Scene<Sprite> = Scene::empty();
    assert!(scene.get_meta(Scene::<Sprite>::ROOT_ID).is_none());
    assert!(!scene.world.entity_exists(0));
}

#[test]
fn spawn_attaches_to_parent() {
    let mut scene: Scene<Sprite> = Scene::default();
    let a = scene.spawn("A", vec![], None);
    let b = scene.spawn("B", vec![(sprite_info(), Sprite { texture: 7 })], Some(a));
    let c = scene.spawn("C", vec![], None);
    assert_eq!((a, b, c), (1, 2, 3));
    assert_eq!(children_of(&scene, 0), vec![a, c]);
    assert_eq!(children_of(&scene, a), vec![b]);
    let meta_b = scene.get_meta(b).unwrap();
    assert_eq!(meta_b.name, "B");
    assert_eq!(meta_b.parent, a);
    match scene.world.get(sprite_info().id, b) {
        Some(SceneComponent::Other(sprite)) => assert_eq!(sprite.texture, 7),
        other => panic!("unexpected component {other:?}"),
    }
}

#[test]
fn walks_below_and_above() {
    let mut scene: Scene<Sprite> = Scene::default();
    let a = scene.spawn("A", vec![], None);
    let b = scene.spawn("B", vec![], Some(a));
    let c = scene.spawn("C", vec![], Some(b));
    let d = scene.spawn("D", vec![], Some(a));
    let root = scene.root_meta().clone();
    assert_eq!(scene.for_each_child(&root), vec![c, b, d, a]);
    let meta_a = scene.get_meta(a).unwrap().clone();
    assert_eq!(scene.for_each_child(&meta_a), vec![c, b, d]);
    assert_eq!(scene.for_each_parent(c), vec![a, b]);
    assert_eq!(scene.for_each_parent(a), Vec::<usize>::new());
}

#[test]
fn despawn_removes_everything_below() {
    let mut scene: Scene<Sprite> = Scene::default();
    let a = scene.spawn("A", vec![], None);
    let b = scene.spawn("B", vec![(sprite_info(), Sprite { texture: 1 })], Some(a));
    let c = scene.spawn("C", vec![], Some(b));
    let d = scene.spawn("D", vec![], None);
    scene.despawn(a);
    assert!(!scene.world.entity_exists(a));
    assert!(!scene.world.entity_exists(b));
    assert!(!scene.world.entity_exists(c));
    assert!(scene.world.entity_exists(d));
    assert_eq!(children_of(&scene, 0), vec![d]);
    // The freed indexes are handed out again, the entity itself last freed.
    let e = scene.spawn("E", vec![], None);
    assert_eq!(e, a);
}

fn meta_record(id: RecordId, name: &str, parent: usize, children: Vec<usize>) -> EntityRecord<Sprite> {
    let meta = MetaDataComponent { name: name.to_string(), children, parent };
    EntityRecord {
        has_meta: true,
        id,
        components: vec![(TypeInfo::of::<MetaDataComponent>(), SceneComponent::MetaData(meta))],
    }
}

#[test]
fn deserialize_builds_entities() {
    let mut child = meta_record(RecordId::Index(3), "Child", 0, vec![]);
    child.components.push((sprite_info(), SceneComponent::Other(Sprite { texture: 2 })));
    let records = vec![meta_record(RecordId::Index(0), "Root", 0, vec![3]), child];
    let scene = SceneSerializer::deserialize(records).unwrap();
    assert!(scene.world.entity_exists(0));
    assert!(scene.world.entity_exists(3));
    assert!(!scene.world.entity_exists(1));
    assert_eq!(scene.get_meta(3).unwrap().name, "Child");
    assert_eq!(scene.root_meta().children, vec![3]);
    match scene.world.get(sprite_info().id, 3) {
        Some(SceneComponent::Other(sprite)) => assert_eq!(sprite.texture, 2),
        other => panic!("unexpected component {other:?}"),
    }
}

#[test]
fn deserialize_reports_missing_metadata() {
    let records = vec![
        meta_record(RecordId::Index(0), "Root", 0, vec![]),
        EntityRecord { has_meta: false, id: RecordId::Index(1), components: vec![] },
        meta_record(RecordId::Missing, "Later", 0, vec![]),
    ];
    assert_eq!(SceneSerializer::deserialize(records).err(), Some(SceneError::MissingMetaData));
}

#[test]
fn deserialize_reports_missing_id() {
    let records = vec![meta_record(RecordId::Missing, "Root", 0, vec![])];
    assert_eq!(SceneSerializer::deserialize(records).err(), Some(SceneError::MissingId));
}

#[test]
fn deserialize_reports_invalid_id() {
    let records = vec![
        meta_record(RecordId::Index(0), "Root", 0, vec![]),
        meta_record(RecordId::Invalid, "Bad", 0, vec![]),
    ];
    assert_eq!(SceneSerializer::deserialize(records).err(), Some(SceneError::InvalidId));
}

#[test]
fn deserialize_reports_missing_root() {
    let records = vec![meta_record(RecordId::Index(5), "Lonely", 0, vec![])];
    assert_eq!(SceneSerializer::deserialize(records).err(), Some(SceneError::NoRoot));
    let none: Vec<EntityRecord<Sprite>> = vec![];
    assert_eq!(SceneSerializer::deserialize(none).err(), Some(SceneError::NoRoot));
}

#[test]
fn serialize_lists_entities_with_metadata() {
    let mut scene: Scene<Sprite> = Scene::default();
    let a = scene.spawn("A", vec![(sprite_info(), Sprite { texture: 4 })], None);
    let saved = SceneSerializer::serialize(&scene);
    assert_eq!(saved.len(), 2);
    let entry = saved.iter().find(|(id, _)| *id == a).unwrap();
    assert_eq!(entry.1.len(), 2);
    let sprite = entry.1.iter().find(|(t, _)| *t == sprite_info().id).unwrap();
    match sprite.1 {
        SceneComponent::Other(s) => assert_eq!(s.texture, 4),
        other => panic!("unexpected component {other:?}"),
    }
}

#[test]
fn saved_scene_loads_back() {
    let mut scene: Scene<Sprite> = Scene::default();
    let a = scene.spawn("A", vec![(sprite_info(), Sprite { texture: 4 })], None);
    let b = scene.spawn("B", vec![], Some(a));
    let meta_info = TypeInfo::of::<MetaDataComponent>();
    let saved = SceneSerializer::serialize(&scene);
    let records: Vec<EntityRecord<Sprite>> = saved
        .iter()
        .map(|(id, components)| EntityRecord {
            has_meta: true,
            id: RecordId::Index(*id),
            components: components
                .iter()
                .map(|(type_id, c)| {
                    let info = if *type_id == meta_info.id { meta_info } else { sprite_info() };
                    (info, (*c).clone())
                })
                .collect(),
        })
        .collect();
    let loaded = SceneSerializer::deserialize(records).unwrap();
    for id in [0, a, b] {
        let before = scene.get_meta(id).unwrap();
        let after = loaded.get_meta(id).unwrap();
        assert_eq!(before.name, after.name);
        assert_eq!(before.children, after.children);
        assert_eq!(before.parent, after.parent);
    }
    match loaded.world.get(sprite_info().id, a) {
        Some(SceneComponent::Other(sprite)) => assert_eq!(sprite.texture, 4),
        other => panic!("unexpected component {other:?}"),
    }
    assert!(!loaded.world.entity_exists(3));
}

#[test]
fn despawn_right_after_spawn_restores_scene() {
    let mut scene: Scene<Sprite> = Scene::default();
    let a = scene.spawn("A", vec![(sprite_info(), Sprite { texture: 3 })], None);
    let before_children = children_of(&scene, a);
    let b = scene.spawn("B", vec![], Some(a));
    scene.despawn(b);
    assert_eq!(children_of(&scene, a), before_children);
    assert!(!scene.world.entity_exists(b));
    assert_eq!(scene.get_meta(a).unwrap().name, "A");
    assert_eq!(children_of(&scene, 0), vec![a]);
    match scene.world.get(sprite_info().id, a) {
        Some(SceneComponent::Other(sprite)) => assert_eq!(sprite.texture, 3),
        other => panic!("unexpected component {other:?}"),
    }
}

/// Every listed child names its parent, and every entity but the root is listed by its
/// parent once.
fn assert_consistent(scene: &Scene<Sprite>, ids: &[usize]) {
    for &e in ids {
        if let Some(meta) = scene.get_meta(e) {
            for &c in &meta.children {
                assert_eq!(scene.get_meta(c).unwrap().parent, e);
            }
            if e != 0 {
                let parent = scene.get_meta(meta.parent).unwrap();
                assert_eq!(parent.children.iter().filter(|&&c| c == e).count(), 1);
            }
        }
    }
}

#[test]
fn hierarchy_stays_consistent() {
    let mut scene: Scene<Sprite> = Scene::default();
    let a = scene.spawn("A", vec![], None);
    let b = scene.spawn("B", vec![], Some(a));
    let c = scene.spawn("C", vec![], Some(a));
    let d = scene.spawn("D", vec![], Some(b));
    let all = [0, a, b, c, d, 5, 6];
    assert_consistent(&scene, &all);
    scene.despawn(b);
    assert_consistent(&scene, &all);
    let e = scene.spawn("E", vec![], Some(c));
    assert_consistent(&scene, &[0, a, b, c, d, e]);
    scene.despawn(a);
    assert_consistent(&scene, &[0, a, b, c, d, e]);
    assert!(scene.root_meta().children.is_empty());
}

#[test]
fn despawn_allowed_on_well_formed_and_cyclic_hierarchies() {
    let mut scene: Scene<Sprite> = Scene::default();
    let a = scene.spawn("A", vec![], None);
    let b = scene.spawn("B", vec![], Some(a));
    assert!(scene.despawn_allowed(a));
    assert!(scene.despawn_allowed(b));
    assert!(!scene.despawn_allowed(42));

    let mut looped = scene.get_meta(b).unwrap().clone();
    looped.children = vec![a];
    scene.world.replace_component(b, scene.meta_type_id(), SceneComponent::MetaData(looped));
    assert!(!scene.despawn_allowed(a));
}
