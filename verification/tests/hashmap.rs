use std::hash::Hasher;

use crile::ecs::components::{MetaDataComponent, ProjectionKind};
use crile::hashmap::NoHashHasher;

#[test]
fn no_hash_hasher_keeps_the_integer() {
    let mut hasher = NoHashHasher::new();
    hasher.write_u64(0x1234_5678_9abc_def0);
    assert_eq!(hasher.finish(), 0x1234_5678_9abc_def0);
    let mut hasher = NoHashHasher::default();
    hasher.write_u32(42);
    assert_eq!(hasher.finish(), 42);
}

#[test]
fn component_defaults() {
    let meta = MetaDataComponent::default();
    assert!(meta.name.is_empty());
    assert!(meta.children.is_empty());
    assert_eq!(meta.parent, 0);
    assert_eq!(ProjectionKind::default(), ProjectionKind::Orthographic);
}


#[test]
fn no_hash_hasher_folds_bytes() {
    let mut hasher = NoHashHasher::new();
    hasher.write(&[1, 2]);
    assert_eq!(hasher.finish(), 0x0102);
    hasher.write(&[3, 4, 5, 6, 7, 8, 9, 10]);
    assert_eq!(hasher.finish(), 0x0304_0506_0708_090a);
}
