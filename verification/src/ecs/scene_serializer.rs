use vstd::prelude::*;
use crate::ecs::components::EntityId;
use crate::ecs::scene::{SceneComponent, Scene};
use crate::ecs::type_info::{valid_component_layout, TypeInfo};
use crate::ecs::world::{pair_ids, pairs_map};

verus! {

/// Why a saved scene could not be loaded.
#[derive(Debug, Clone, Copy, PartialEq, Eq, Structural)]
pub enum SceneError {
    /// "Entity found with no metadata component"
    MissingMetaData,
    /// The entity has no `id` field
    MissingId,
    /// The entity's `id` field is not an index
    InvalidId,
    /// "No root entity found"
    NoRoot,
}

/// The `id` field of a saved entity.
#[derive(Debug, Clone, Copy, PartialEq, Eq, Structural)]
pub enum RecordId {
    Missing,
    Invalid,
    Index(EntityId),
}

/// One saved entity: whether it has a metadata entry, its id field, and its components
/// (the metadata among them) with their types.
pub struct EntityRecord<C> {
    pub has_meta: bool,
    pub id: RecordId,
    pub components: Vec<(TypeInfo, SceneComponent<C>)>,
}

/// What is wrong with a single saved entity, if anything.
pub open spec fn record_error<C>(record: EntityRecord<C>) -> Option<SceneError> {
    if !record.has_meta {
        Some(SceneError::MissingMetaData)
    } else {
        match record.id {
            RecordId::Missing => Some(SceneError::MissingId),
            RecordId::Invalid => Some(SceneError::InvalidId),
            RecordId::Index(_) => None,
        }
    }
}

/// The error of the first faulty saved entity, if any.
pub open spec fn first_error<C>(records: Seq<EntityRecord<C>>) -> Option<SceneError>
    decreases records.len(),
{
    if records.len() == 0 {
        None
    } else {
        match first_error(records.drop_last()) {
            Some(e) => Some(e),
            None => record_error(records.last()),
        }
    }
}

/// The entity index of a saved entity whose id field is valid.
pub open spec fn record_index<C>(record: EntityRecord<C>) -> EntityId {
    match record.id {
        RecordId::Index(i) => i,
        _ => 0,
    }
}

/// The entities of saved records that are all valid, by index.
pub open spec fn records_view<C>(records: Seq<EntityRecord<C>>) -> Map<usize, Map<u64, SceneComponent<C>>>
    decreases records.len(),
{
    if records.len() == 0 {
        Map::empty()
    } else {
        records_view(records.drop_last()).insert(
            record_index(records.last()),
            pairs_map(records.last().components@),
        )
    }
}

/// `comps` lists exactly the components of `m`, each with its type id.
pub open spec fn lists_components<C>(m: Map<u64, C>, comps: Seq<(u64, &C)>) -> bool {
    &&& forall|k: int| 0 <= k < comps.len() ==> m.dom().contains((#[trigger] comps[k]).0) && *comps[k].1 == m[comps[k].0]
    &&& forall|t: u64| #[trigger] m.dom().contains(t) ==> exists|k: int| 0 <= k < comps.len() && (#[trigger] comps[k]).0 == t
}

/// Saves and loads scenes. The text format is handled by the caller; this checks and
/// builds the entities.
pub struct SceneSerializer;

impl SceneSerializer {
    /// Each entity that has metadata, with all its components and their type ids in
    /// increasing id order, in query order.
    pub fn serialize<C>(scene: &Scene<C>) -> (r: Vec<(EntityId, Vec<(u64, &SceneComponent<C>)>)>)
        requires
            scene.wf(),
        ensures
            forall|i: int|
                0 <= i < r@.len() ==> {
                    let e = (#[trigger] r@[i]).0;
                    &&& scene.view().dom().contains(e)
                    &&& scene.view()[e].dom().contains(scene.meta_id())
                    &&& lists_components(scene.view()[e], r@[i].1@)
                    &&& forall|a: int, b: int|
                        0 <= a < b < r@[i].1@.len() ==> (#[trigger] r@[i].1@[a]).0 < (#[trigger] r@[i].1@[b]).0
                },
            forall|e: usize|
                scene.view().dom().contains(e) && scene.view()[e].dom().contains(scene.meta_id())
                    ==> exists|i: int| 0 <= i < r@.len() && (#[trigger] r@[i]).0 == e,
            forall|i: int, j: int| 0 <= i < j < r@.len() ==> (#[trigger] r@[i]).0 != (#[trigger] r@[j]).0,
            r@.len() == scene.world.query_order(seq![scene.meta_id()]).len(),
            forall|i: int| 0 <= i < r@.len() ==> (#[trigger] r@[i]).0 == scene.world.query_order(seq![scene.meta_id()])[i],
    {
        let mut ids: Vec<u64> = Vec::new();
        ids.push(scene.meta_info.id);
        let entities = scene.world.query_entities(&ids);
        let mut result: Vec<(EntityId, Vec<(u64, &SceneComponent<C>)>)> = Vec::new();
        let mut i: usize = 0;
        while i < entities.len()
            invariant
                scene.wf(),
                ids@ == seq![scene.meta_id()],
                entities@ == scene.world.query_order(ids@),
                i <= entities@.len(),
                result@.len() == i,
                forall|e: usize|
                    #[trigger] entities@.contains(e) <==> (scene.view().dom().contains(e) && forall|j: int|
                        0 <= j < ids@.len() ==> scene.view()[e].dom().contains(#[trigger] ids@[j])),
                forall|k: int| 0 <= k < i ==> (#[trigger] result@[k]).0 == entities@[k],
                entities@.no_duplicates(),
                forall|k: int|
                    0 <= k < i ==> {
                        let e = (#[trigger] result@[k]).0;
                        &&& scene.view().dom().contains(e)
                        &&& scene.view()[e].dom().contains(scene.meta_id())
                        &&& lists_components(scene.view()[e], result@[k].1@)
                        &&& forall|a: int, b: int|
                            0 <= a < b < result@[k].1@.len() ==> (#[trigger] result@[k].1@[a]).0 < (#[trigger] result@[k].1@[b]).0
                    },
            decreases entities@.len() - i,
        {
            let e = entities[i];
            assert(entities@.contains(e));
            assert(ids@[0] == scene.meta_id());
            let comps = scene.world.entity_components(e);
            assert(lists_components(scene.view()[e], comps@));
            result.push((e, comps));
            i = i + 1;
        }
        proof {
            assert forall|e: usize|
                scene.view().dom().contains(e) && scene.view()[e].dom().contains(scene.meta_id())
                    implies exists|i: int| 0 <= i < result@.len() && (#[trigger] result@[i]).0 == e by {
                assert forall|j: int| 0 <= j < ids@.len() implies scene.view()[e].dom().contains(#[trigger] ids@[j]) by {}
                assert(entities@.contains(e));
                let k = choose|k: int| 0 <= k < entities@.len() && entities@[k] == e;
                assert(result@[k].0 == e);
            }
        }
        result
    }

    /// Builds a scene from saved entities, stopping at the first entity without
    /// metadata or without a valid id, and failing if no entity is the root.
    pub fn deserialize<C>(records: Vec<EntityRecord<C>>) -> (r: Result<Scene<C>, SceneError>)
        requires
            forall|i: int|
                0 <= i < records@.len() ==> pair_ids((#[trigger] records@[i]).components@).no_duplicates(),
            forall|i: int, k: int|
                0 <= i < records@.len() && 0 <= k < records@[i].components@.len() ==> valid_component_layout(
                    (#[trigger] records@[i].components@[k]).0.layout,
                ),
            forall|i: int, j: int|
                0 <= i < j < records@.len() && (#[trigger] records@[i]).id is Index && (#[trigger] records@[j]).id is Index
                    ==> record_index(records@[i]) != record_index(records@[j]),
        ensures
            match r {
                Ok(scene) => {
                    &&& first_error(records@) is None
                    &&& scene.wf()
                    &&& scene.view() == records_view(records@)
                    &&& scene.view().dom().contains(Scene::<C>::ROOT_ID)
                },
                Err(e) => match first_error(records@) {
                    Some(e2) => e == e2,
                    None => e == SceneError::NoRoot && !records_view(records@).dom().contains(Scene::<C>::ROOT_ID),
                },
            },
    {
        let ghost all = records@;
        let n = records.len();
        let mut scene: Scene<C> = Scene::empty();
        let mut rest = records;
        while rest.len() > 0
            invariant
                n == all.len(),
                all == records@,
                rest@.len() <= n,
                rest@ == all.subrange(n - rest@.len(), n as int),
                scene.wf(),
                first_error(all.subrange(0, n - rest@.len())) is None,
                scene.view() == records_view(all.subrange(0, n - rest@.len())),
                forall|i: int|
                    0 <= i < all.len() ==> pair_ids((#[trigger] all[i]).components@).no_duplicates(),
                forall|i: int, k: int|
                    0 <= i < all.len() && 0 <= k < all[i].components@.len() ==> valid_component_layout(
                        (#[trigger] all[i].components@[k]).0.layout,
                    ),
                forall|i: int, j: int|
                    0 <= i < j < all.len() && (#[trigger] all[i]).id is Index && (#[trigger] all[j]).id is Index
                        ==> record_index(all[i]) != record_index(all[j]),
            decreases rest@.len(),
        {
            let ghost done = n - rest@.len();
            let record = rest.remove(0);
            assert(record == all[done]);
            assert(rest@ =~= all.subrange(done + 1, n as int));
            let ghost prefix = all.subrange(0, done + 1);
            assert(prefix.drop_last() =~= all.subrange(0, done));
            assert(prefix.last() == record);
            proof {
                if record_error(record) is Some {
                    lemma_first_error_prefix(all, done + 1);
                }
            }
            if !record.has_meta {
                return Err(SceneError::MissingMetaData);
            }
            let index = match record.id {
                RecordId::Missing => {
                    return Err(SceneError::MissingId);
                },
                RecordId::Invalid => {
                    return Err(SceneError::InvalidId);
                },
                RecordId::Index(index) => index,
            };
            proof {
                assert forall|i: int| 0 <= i < done implies record_index(all[i]) != index by {
                    lemma_records_valid(all.subrange(0, done), i);
                    assert(all.subrange(0, done)[i] == all[i]);
                }
                lemma_records_view_dom(all.subrange(0, done), index);
            }
            let (infos, values) = Self::sort_record(record.components);
            scene.world.spawn_with_id(index, &infos, values);
        }
        assert(all.subrange(0, n as int) =~= all);
        if scene.world.entity_exists(Scene::<C>::ROOT_ID) {
            Ok(scene)
        } else {
            Err(SceneError::NoRoot)
        }
    }

    fn sort_record<C>(components: Vec<(TypeInfo, SceneComponent<C>)>) -> (r: (Vec<TypeInfo>, Vec<SceneComponent<C>>))
        requires
            pair_ids(components@).no_duplicates(),
            forall|i: int|
                0 <= i < components@.len() ==> valid_component_layout(#[trigger] components@[i].0.layout),
        ensures
            crate::ecs::type_info::strictly_sorted(r.0@),
            forall|i: int| 0 <= i < r.0@.len() ==> valid_component_layout(#[trigger] r.0@[i].layout),
            r.1@.len() == r.0@.len(),
            crate::ecs::archetype::components_map(crate::ecs::type_info::info_ids(r.0@), r.1@) == pairs_map(components@),
    {
        crate::ecs::world::World::<SceneComponent<C>>::sort_components(components)
    }
}

/// `records` lists every entity of `view` once, each with its metadata, its index and
/// exactly its components.
pub open spec fn records_list_entities<C>(
    records: Seq<EntityRecord<C>>,
    view: Map<usize, Map<u64, SceneComponent<C>>>,
) -> bool {
    &&& forall|i: int|
        0 <= i < records.len() ==> {
            &&& (#[trigger] records[i]).has_meta
            &&& records[i].id is Index
            &&& view.dom().contains(record_index(records[i]))
            &&& pairs_map(records[i].components@) == view[record_index(records[i])]
        }
    &&& forall|i: int, j: int|
        0 <= i < j < records.len() ==> record_index(#[trigger] records[i]) != record_index(#[trigger] records[j])
    &&& forall|e: usize|
        #[trigger] view.dom().contains(e) ==> exists|i: int| 0 <= i < records.len() && record_index(#[trigger] records[i]) == e
}

/// A scene saved entity by entity loads back as the same scene: records that list every
/// entity once, with its metadata and all its components, have no error and describe
/// exactly those entities.
pub proof fn law_saved_entities_load_back<C>(
    records: Seq<EntityRecord<C>>,
    view: Map<usize, Map<u64, SceneComponent<C>>>,
)
    requires
        records_list_entities(records, view),
    ensures
        first_error(records) is None,
        records_view(records) == view,
    decreases records.len(),
{
    if records.len() == 0 {
        assert(view.dom() =~= Set::<usize>::empty()) by {
            assert forall|e: usize| !view.dom().contains(e) by {
                if view.dom().contains(e) {
                    let i = choose|i: int| 0 <= i < records.len() && record_index(#[trigger] records[i]) == e;
                }
            }
        }
        assert(view =~= Map::empty());
    } else {
        let n = records.len() - 1;
        let last = records.last();
        let l = record_index(last);
        let rest = records.drop_last();
        let smaller = view.remove(l);
        assert(records[n] == last);
        assert forall|i: int| 0 <= i < rest.len() implies record_index(#[trigger] rest[i]) != l by {
            assert(rest[i] == records[i]);
        }
        assert forall|i: int| 0 <= i < rest.len() implies {
            &&& (#[trigger] rest[i]).has_meta
            &&& rest[i].id is Index
            &&& smaller.dom().contains(record_index(rest[i]))
            &&& pairs_map(rest[i].components@) == smaller[record_index(rest[i])]
        } by {
            assert(rest[i] == records[i]);
        }
        assert forall|i: int, j: int| 0 <= i < j < rest.len() implies record_index(#[trigger] rest[i])
            != record_index(#[trigger] rest[j]) by {
            assert(rest[i] == records[i]);
            assert(rest[j] == records[j]);
        }
        assert forall|e: usize| #[trigger] smaller.dom().contains(e) implies exists|i: int|
            0 <= i < rest.len() && record_index(#[trigger] rest[i]) == e by {
            let i = choose|i: int| 0 <= i < records.len() && record_index(#[trigger] records[i]) == e;
            assert(i != n);
            assert(rest[i] == records[i]);
        }
        law_saved_entities_load_back(rest, smaller);
        assert(records_view(records) =~= view);
    }
}

/// Once a prefix of the records has an error, the whole sequence has that same first error.
proof fn lemma_first_error_prefix<C>(records: Seq<EntityRecord<C>>, k: int)
    requires
        0 <= k <= records.len(),
        first_error(records.subrange(0, k)) is Some,
    ensures
        first_error(records) == first_error(records.subrange(0, k)),
    decreases records.len(),
{
    if k == records.len() {
        assert(records.subrange(0, k) =~= records);
    } else {
        assert(records.drop_last().subrange(0, k) =~= records.subrange(0, k));
        lemma_first_error_prefix(records.drop_last(), k);
    }
}

/// In records that have no error, every id field is a valid index.
proof fn lemma_records_valid<C>(records: Seq<EntityRecord<C>>, i: int)
    requires
        first_error(records) is None,
        0 <= i < records.len(),
    ensures
        records[i].id is Index,
        records[i].has_meta,
    decreases records.len(),
{
    if i < records.len() - 1 {
        assert(records.drop_last()[i] == records[i]);
        lemma_records_valid(records.drop_last(), i);
    }
}

/// The entities of valid records are exactly their indexes.
proof fn lemma_records_view_dom<C>(records: Seq<EntityRecord<C>>, e: usize)
    requires
        first_error(records) is None,
    ensures
        records_view(records).dom().contains(e) <==> exists|i: int| 0 <= i < records.len() && record_index(#[trigger] records[i]) == e,
    decreases records.len(),
{
    if records.len() > 0 {
        lemma_records_view_dom(records.drop_last(), e);
        if exists|i: int| 0 <= i < records.len() && record_index(#[trigger] records[i]) == e {
            let i = choose|i: int| 0 <= i < records.len() && record_index(#[trigger] records[i]) == e;
            if i < records.len() - 1 {
                assert(records.drop_last()[i] == records[i]);
            }
        }
        if exists|i: int| 0 <= i < records.drop_last().len() && record_index(#[trigger] records.drop_last()[i]) == e {
            let i = choose|i: int| 0 <= i < records.drop_last().len() && record_index(#[trigger] records.drop_last()[i]) == e;
            assert(records[i] == records.drop_last()[i]);
        }
    }
}

} // verus!
