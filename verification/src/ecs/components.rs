use vstd::prelude::*;

verus! {

/// Entities are identified by their index in the world.
pub type EntityId = usize;

/// The name of an entity and its place in the scene hierarchy.
#[derive(Debug, Clone)]
pub struct MetaDataComponent {
    pub name: String,
    pub children: Vec<EntityId>,
    pub parent: EntityId,
}

impl Default for MetaDataComponent {
    fn default() -> (r: MetaDataComponent)
        ensures
            r.name@ == Seq::<char>::empty(),
            r.children@ == Seq::<EntityId>::empty(),
            r.parent == 0,
    {
        MetaDataComponent { name: String::new(), children: Vec::new(), parent: 0 }
    }
}

/// How a camera projects the scene.
#[derive(Debug, PartialEq, Eq, Clone, Copy, Structural)]
pub enum ProjectionKind {
    Perspective,
    Orthographic,
}

impl Default for ProjectionKind {
    fn default() -> (r: ProjectionKind)
        ensures
            r == ProjectionKind::Orthographic,
    {
        ProjectionKind::Orthographic
    }
}

} // verus!
