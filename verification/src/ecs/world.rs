use vstd::prelude::*;
use crate::ecs::archetype::{
    components_map, lemma_components_map_insert, lemma_components_map_remove,
    lemma_index_of_distinct, Archetype,
};
use crate::ecs::type_info::{info_ids, storable_layout, strictly_sorted, valid_component_layout, TypeInfo};
use crate::hashmap::{archetype_index_map_contents, ArchetypeIndexMap};

verus! {

/// Where an entity's components are stored: which archetype, and which row in it.
#[derive(Clone, Copy, Debug)]
pub struct EntityLocation {
    pub archetype_index: usize,
    pub component_index: usize,
}

/// Contains all the data for an ECS instance.
///
/// Entities that have the same set of component types share an archetype, which
/// stores their components column by column. Each entity is an index; the index of a
/// despawned entity is handed out again by the next spawn.
pub struct World<C> {
    archetypes: Vec<Archetype<C>>,
    /// Maps the sorted component type ids of each archetype to its index in `archetypes`.
    type_ids_index_map: ArchetypeIndexMap,
    free_entity_indexs: Vec<usize>,
    entity_locations: Vec<EntityLocation>,
    /// Kept apart from the locations to save memory because of alignment.
    valid_entity_locations: Vec<bool>,
}

pub open spec fn alive_in(valid: Seq<bool>, e: usize) -> bool {
    e < valid.len() && valid[e as int]
}

pub closed spec fn archetypes_wf<C>(archs: Seq<Archetype<C>>) -> bool {
    forall|a: int| 0 <= a < archs.len() ==> (#[trigger] archs[a]).wf()
}

/// Each live entity's location points at a row that holds it, and each row's entity
/// is live with its location pointing back at the row.
pub closed spec fn locations_wf<C>(
    archs: Seq<Archetype<C>>,
    locs: Seq<EntityLocation>,
    valid: Seq<bool>,
) -> bool {
    &&& forall|e: usize|
        #[trigger] alive_in(valid, e) ==> {
            let l = locs[e as int];
            &&& l.archetype_index < archs.len()
            &&& l.component_index < archs[l.archetype_index as int].entities().len()
            &&& archs[l.archetype_index as int].entities()[l.component_index as int] == e
        }
    &&& forall|a: int, r: int|
        0 <= a < archs.len() && 0 <= r < archs[a].entities().len() ==> {
            let e = #[trigger] archs[a].entities()[r];
            &&& alive_in(valid, e)
            &&& locs[e as int].archetype_index == a
            &&& locs[e as int].component_index == r
        }
}

/// The archetype map holds each archetype under its sorted type ids, and nothing else.
pub closed spec fn index_map_wf<C>(archs: Seq<Archetype<C>>, contents: Map<Seq<u64>, usize>) -> bool {
    &&& forall|k: Seq<u64>|
        #[trigger] contents.dom().contains(k) ==> contents[k] < archs.len()
            && archs[contents[k] as int].ids() == k
    &&& forall|a: int|
        0 <= a < archs.len() ==> contents.dom().contains(#[trigger] archs[a].ids())
            && contents[archs[a].ids()] == a
}

/// Freed indexes are dead, below the bound, and listed once.
pub closed spec fn free_list_wf(free: Seq<usize>, valid: Seq<bool>) -> bool {
    &&& forall|i: int|
        0 <= i < free.len() ==> (#[trigger] free[i]) < valid.len() && !valid[free[i] as int]
    &&& free.no_duplicates()
}

/// Whether an entity's components include one of every type in `type_ids`.
pub open spec fn has_all<C>(components: Map<u64, C>, type_ids: Seq<u64>) -> bool {
    forall|j: int| 0 <= j < type_ids.len() ==> components.dom().contains(#[trigger] type_ids[j])
}

/// The type ids of a list of (type info, component) pairs.
pub open spec fn pair_ids<C>(pairs: Seq<(TypeInfo, C)>) -> Seq<u64> {
    pairs.map_values(|p: (TypeInfo, C)| p.0.id)
}

/// The components of a list of (type info, component) pairs.
pub open spec fn pair_values<C>(pairs: Seq<(TypeInfo, C)>) -> Seq<C> {
    pairs.map_values(|p: (TypeInfo, C)| p.1)
}

/// The components of a list of (type info, component) pairs, by type id.
pub open spec fn pairs_map<C>(pairs: Seq<(TypeInfo, C)>) -> Map<u64, C> {
    components_map(pair_ids(pairs), pair_values(pairs))
}

/// The entities of a query result, in order.
pub open spec fn result_entities<'a, C>(result: Seq<(usize, Vec<&'a C>)>) -> Seq<usize> {
    result.map_values(|p: (usize, Vec<&'a C>)| p.0)
}

/// How an entity's components change when it moves to another archetype.
enum ComponentEdit<C> {
    /// Insert a component at a position of the entity's sorted components.
    Insert(usize, C),
    /// Remove the component at a position of the entity's sorted components.
    Remove(usize),
}

spec fn edited_values<C>(values: Seq<C>, edit: ComponentEdit<C>) -> Seq<C> {
    match edit {
        ComponentEdit::Insert(pos, c) => values.insert(pos as int, c),
        ComponentEdit::Remove(pos) => values.remove(pos as int),
    }
}

/// The sorted type ids of each archetype after the archetype for `key` was looked up,
/// and added at the end if there was none.
pub open spec fn with_archetype(ids: Seq<Seq<u64>>, key: Seq<u64>) -> Seq<Seq<u64>> {
    if ids.contains(key) {
        ids
    } else {
        ids.push(key)
    }
}

/// The entities of the archetypes among the first `n` whose type ids include every id
/// in `type_ids`, archetype by archetype and row by row; `rows[a]` holds the entities of
/// archetype `a` and `ids[a]` its sorted type ids.
pub open spec fn rows_in_order(rows: Seq<Seq<usize>>, ids: Seq<Seq<u64>>, type_ids: Seq<u64>, n: int) -> Seq<usize>
    decreases n,
{
    if n <= 0 {
        Seq::empty()
    } else {
        rows_in_order(rows, ids, type_ids, n - 1) + if forall|k: int|
            0 <= k < type_ids.len() ==> ids[n - 1].contains(#[trigger] type_ids[k]) {
            rows[n - 1]
        } else {
            Seq::empty()
        }
    }
}

/// The entities of each archetype after entity `e` was stored in the archetype for `key`:
/// at the end of that archetype's rows, or in a new archetype added at the end.
pub open spec fn rows_after_add(rows: Seq<Seq<usize>>, ids: Seq<Seq<u64>>, key: Seq<u64>, e: usize) -> Seq<Seq<usize>> {
    if ids.contains(key) {
        let a = ids.index_of(key);
        rows.update(a, rows[a].push(e))
    } else {
        rows.push(seq![e])
    }
}

/// The entities of each archetype after entity `e` was taken out of its row, the last
/// row of its archetype moving into its place.
pub open spec fn rows_after_remove(rows: Seq<Seq<usize>>, e: usize) -> Seq<Seq<usize>> {
    rows.map_values(
        |row: Seq<usize>|
            if row.contains(e) {
                row.update(row.index_of(e), row.last()).drop_last()
            } else {
                row
            },
    )
}

/// Whether the ids strictly increase.
pub open spec fn increasing(ids: Seq<u64>) -> bool {
    forall|i: int, j: int| 0 <= i < j < ids.len() ==> ids[i] < ids[j]
}

/// The type ids of a set of component types, in increasing order.
pub open spec fn sorted_ids(types: Set<u64>) -> Seq<u64> {
    choose|k: Seq<u64>| increasing(k) && k.to_set() == types
}

/// Two increasing sequences of the same ids are equal: the sorted ids of a set of types
/// are the one increasing sequence of them.
pub proof fn lemma_increasing_unique(a: Seq<u64>, b: Seq<u64>)
    requires
        increasing(a),
        increasing(b),
        a.to_set() == b.to_set(),
    ensures
        a == b,
    decreases a.len(),
{
    if a.len() == 0 {
        if b.len() > 0 {
            assert(b.to_set().contains(b[0]));
        }
        assert(a =~= b);
    } else {
        assert(a.to_set().contains(a.last()));
        assert(b.len() > 0);
        assert(b.to_set().contains(b.last()));
        assert(a.last() == b.last()) by {
            let i = choose|i: int| 0 <= i < a.len() && a[i] == b.last();
            let j = choose|j: int| 0 <= j < b.len() && b[j] == a.last();
            assert(b.last() <= a.last());
            assert(a.last() <= b.last());
        }
        let m = a.last();
        assert(a.drop_last().to_set() =~= a.to_set().remove(m)) by {
            assert forall|x: u64| a.drop_last().to_set().contains(x) <==> a.to_set().remove(m).contains(x) by {
                if a.drop_last().to_set().contains(x) {
                    let i = choose|i: int| 0 <= i < a.drop_last().len() && a.drop_last()[i] == x;
                    assert(a[i] == x);
                }
                if a.to_set().remove(m).contains(x) {
                    let i = choose|i: int| 0 <= i < a.len() && a[i] == x;
                    assert(a.drop_last()[i] == x);
                }
            }
        }
        assert(b.drop_last().to_set() =~= b.to_set().remove(m)) by {
            assert forall|x: u64| b.drop_last().to_set().contains(x) <==> b.to_set().remove(m).contains(x) by {
                if b.drop_last().to_set().contains(x) {
                    let i = choose|i: int| 0 <= i < b.drop_last().len() && b.drop_last()[i] == x;
                    assert(b[i] == x);
                }
                if b.to_set().remove(m).contains(x) {
                    let i = choose|i: int| 0 <= i < b.len() && b[i] == x;
                    assert(b.drop_last()[i] == x);
                }
            }
        }
        lemma_increasing_unique(a.drop_last(), b.drop_last());
        assert(a =~= b.drop_last().push(m));
        assert(b =~= b.drop_last().push(m));
    }
}

/// The ids of an increasing sequence are its sorted ids.
pub proof fn lemma_sorted_ids_of(k: Seq<u64>)
    requires
        increasing(k),
    ensures
        sorted_ids(k.to_set()) == k,
{
    let c = sorted_ids(k.to_set());
    assert(increasing(c) && c.to_set() == k.to_set());
    lemma_increasing_unique(c, k);
}

/// The types of an entity stored under sorted type infos have those infos' ids as their
/// sorted ids.
proof fn lemma_sorted_ids_of_infos<C>(infos: Seq<TypeInfo>, values: Seq<C>)
    requires
        strictly_sorted(infos),
    ensures
        sorted_ids(components_map(info_ids(infos), values).dom()) == info_ids(infos),
{
    let ids = info_ids(infos);
    assert forall|i: int, j: int| 0 <= i < j < ids.len() implies ids[i] < ids[j] by {
        assert(infos[i].id < infos[j].id);
    }
    assert(components_map(ids, values).dom() =~= ids.to_set());
    lemma_sorted_ids_of(ids);
}

/// `b` holds the same entities as `a`, each with components of the same types, each
/// component a clone of the one in `a`.
pub open spec fn cloned_view<C: Clone>(a: Map<usize, Map<u64, C>>, b: Map<usize, Map<u64, C>>) -> bool {
    &&& b.dom() == a.dom()
    &&& forall|e: usize| #[trigger] a.dom().contains(e) ==> b[e].dom() == a[e].dom()
    &&& forall|e: usize, t: u64|
        a.dom().contains(e) && a[e].dom().contains(t) ==> cloned::<C>(a[e][t], #[trigger] b[e][t])
}

impl<C: Clone> Clone for World<C> {
    /// A copy of the world: the same entities under the same indexes, each component
    /// cloned.
    fn clone(&self) -> (r: Self)
        ensures
            self.wf() ==> r.wf() && cloned_view(self.view(), r.view()),
            r.free_indexes() == self.free_indexes(),
            r.index_bound() == self.index_bound(),
            r.archetype_ids() == self.archetype_ids(),
            r.archetype_rows() == self.archetype_rows(),
    {
        let mut archetypes: Vec<Archetype<C>> = Vec::new();
        let mut k: usize = 0;
        while k < self.archetypes.len()
            invariant
                k <= self.archetypes@.len(),
                archetypes@.len() == k,
                forall|j: int|
                    0 <= j < k ==> {
                        let a = self.archetypes@[j];
                        let b = #[trigger] archetypes@[j];
                        &&& a.wf() ==> b.wf()
                        &&& b.infos() == a.infos()
                        &&& b.entities() == a.entities()
                        &&& a.wf() ==> forall|row: int, i: int|
                            0 <= row < a.entities().len() && 0 <= i < a.infos().len() ==> cloned::<C>(
                                a.row_values(row)[i],
                                #[trigger] b.row_values(row)[i],
                            )
                    },
            decreases self.archetypes@.len() - k,
        {
            archetypes.push(self.archetypes[k].clone());
            k = k + 1;
        }
        let r = World {
            archetypes,
            type_ids_index_map: self.type_ids_index_map.duplicate(),
            free_entity_indexs: self.free_entity_indexs.clone(),
            entity_locations: self.entity_locations.clone(),
            valid_entity_locations: self.valid_entity_locations.clone(),
        };
        assert(r.free_entity_indexs@ =~= self.free_entity_indexs@);
        assert(r.entity_locations@ =~= self.entity_locations@);
        assert(r.valid_entity_locations@ =~= self.valid_entity_locations@);
        assert(r.archetype_ids() =~= self.archetype_ids());
        assert(r.archetype_rows() =~= self.archetype_rows());
        proof {
        if self.wf() {
            assert(archetypes_wf(r.archetypes@));
            assert(locations_wf(r.archetypes@, r.entity_locations@, r.valid_entity_locations@));
            assert forall|a: int| 0 <= a < r.archetypes@.len() implies (#[trigger] r.archetypes@[a]).ids()
                == self.archetypes@[a].ids() by {
                assert(r.archetypes@[a].infos() == self.archetypes@[a].infos());
            }
            assert(index_map_wf(r.archetypes@, archetype_index_map_contents(r.type_ids_index_map)));
            assert(r.view().dom() =~= self.view().dom());
            assert forall|e: usize| #[trigger] self.view().dom().contains(e) implies r.view()[e].dom()
                == self.view()[e].dom() && forall|t: u64|
                self.view()[e].dom().contains(t) ==> cloned::<C>(self.view()[e][t], #[trigger] r.view()[e][t]) by {
                let l = self.loc(e);
                let a = self.archetypes@[l.archetype_index as int];
                let b = r.archetypes@[l.archetype_index as int];
                assert(a.wf());
                a.lemma_wf();
                assert(r.view()[e] == b.row(l.component_index as int));
                assert(r.view()[e].dom() =~= self.view()[e].dom());
                assert forall|t: u64| self.view()[e].dom().contains(t) implies cloned::<C>(
                    self.view()[e][t],
                    #[trigger] r.view()[e][t],
                ) by {
                    let i = a.ids().index_of(t);
                    assert(a.ids().contains(t));
                    assert(0 <= i < a.infos().len());
                    assert(cloned::<C>(a.row_values(l.component_index as int)[i], b.row_values(l.component_index as int)[i]));
                }
            }
        }
        }
        r
    }
}

impl<C> World<C> {
    /// Whether entity `e` currently exists.
    pub closed spec fn alive(&self, e: usize) -> bool {
        alive_in(self.valid_entity_locations@, e)
    }

    pub closed spec fn loc(&self, e: usize) -> EntityLocation {
        self.entity_locations@[e as int]
    }

    /// Every live entity with its components, by component type id.
    pub closed spec fn view(&self) -> Map<usize, Map<u64, C>> {
        Map::new(
            |e: usize| self.alive(e),
            |e: usize| self.archetypes@[self.loc(e).archetype_index as int].row(self.loc(e).component_index as int),
        )
    }

    /// The archetype that stores entity `e`.
    pub closed spec fn entity_archetype(&self, e: usize) -> Archetype<C> {
        self.archetypes@[self.loc(e).archetype_index as int]
    }

    /// The component types of entity `e`, sorted by id.
    pub closed spec fn entity_infos(&self, e: usize) -> Seq<TypeInfo> {
        self.entity_archetype(e).infos()
    }

    /// The components of entity `e`, in the order of [`Self::entity_infos`].
    pub closed spec fn entity_values(&self, e: usize) -> Seq<C> {
        self.entity_archetype(e).row_values(self.loc(e).component_index as int)
    }

    /// What holds of a live entity in a well-formed world.
    pub proof fn lemma_entity(&self, e: usize)
        requires
            self.wf(),
            self.view().dom().contains(e),
        ensures
            strictly_sorted(self.entity_infos(e)),
            info_ids(self.entity_infos(e)).no_duplicates(),
            info_ids(self.entity_infos(e)).len() == self.entity_infos(e).len(),
            self.entity_values(e).len() == self.entity_infos(e).len(),
            forall|i: int|
                0 <= i < self.entity_infos(e).len() ==> storable_layout(
                    #[trigger] self.entity_infos(e)[i].layout,
                ),
            self.view()[e] == components_map(info_ids(self.entity_infos(e)), self.entity_values(e)),
    {
        let a = self.loc(e).archetype_index as int;
        assert(self.archetypes@[a].wf());
        self.archetypes@[a].lemma_wf();
    }

    /// The entities of the first `n` archetypes that have every type in `type_ids`,
    /// archetype by archetype and row by row.
    pub closed spec fn matching_rows(&self, type_ids: Seq<u64>, n: int) -> Seq<usize>
        decreases n,
    {
        if n <= 0 {
            Seq::empty()
        } else {
            let arch = self.archetypes@[n - 1];
            self.matching_rows(type_ids, n - 1) + if forall|k: int|
                0 <= k < type_ids.len() ==> arch.ids().contains(#[trigger] type_ids[k]) {
                arch.entities()
            } else {
                Seq::empty()
            }
        }
    }

    /// The order in which a query visits the entities that have every type in
    /// `type_ids`: archetype by archetype, in the order the archetypes were created, and
    /// row by row within each.
    pub closed spec fn query_order(&self, type_ids: Seq<u64>) -> Seq<usize> {
        self.matching_rows(type_ids, self.archetypes@.len() as int)
    }

    /// The entities stored in each archetype, row by row.
    pub closed spec fn archetype_rows(&self) -> Seq<Seq<usize>> {
        Seq::new(self.archetypes@.len(), |a: int| self.archetypes@[a].entities())
    }

    /// The order of a query, stated over the archetypes' type ids and rows: archetype by
    /// archetype, in the order they were created, and row by row.
    pub proof fn lemma_query_order(&self, type_ids: Seq<u64>)
        ensures
            self.archetype_rows().len() == self.archetype_ids().len(),
            self.query_order(type_ids) == rows_in_order(
                self.archetype_rows(),
                self.archetype_ids(),
                type_ids,
                self.archetype_ids().len() as int,
            ),
    {
        self.lemma_matching_rows(type_ids, self.archetypes@.len() as int);
    }

    proof fn lemma_matching_rows(&self, type_ids: Seq<u64>, n: int)
        requires
            n <= self.archetypes@.len(),
        ensures
            self.matching_rows(type_ids, n) == rows_in_order(self.archetype_rows(), self.archetype_ids(), type_ids, n),
        decreases n,
    {
        if n > 0 {
            self.lemma_matching_rows(type_ids, n - 1);
            assert(self.archetype_ids()[n - 1] == self.archetypes@[n - 1].ids());
            assert(self.archetype_rows()[n - 1] == self.archetypes@[n - 1].entities());
        }
    }

    /// Taking entity `e` out of its row changes only the rows of its archetype.
    proof fn lemma_rows_after_remove(&self, e: usize)
        requires
            self.wf(),
            self.view().dom().contains(e),
        ensures
            ({
                let l = self.loc(e);
                let row = self.archetypes@[l.archetype_index as int].entities();
                rows_after_remove(self.archetype_rows(), e) == self.archetype_rows().update(
                    l.archetype_index as int,
                    row.update(l.component_index as int, row.last()).drop_last(),
                )
            }),
    {
        let l = self.loc(e);
        let ai = l.archetype_index as int;
        let rows = self.archetype_rows();
        assert(alive_in(self.valid_entity_locations@, e));
        assert forall|a: int| 0 <= a < rows.len() && a != ai implies !(#[trigger] rows[a]).contains(e) by {
            if rows[a].contains(e) {
                let r = choose|r: int| 0 <= r < rows[a].len() && rows[a][r] == e;
                assert(self.archetypes@[a].entities()[r] == e);
            }
        }
        let row = rows[ai];
        assert(row[l.component_index as int] == e);
        assert(row.contains(e));
        let k = row.index_of(e);
        assert(row[k] == e);
        assert(self.archetypes@[ai].entities()[k] == e);
        assert(k == l.component_index);
        assert(rows_after_remove(rows, e) =~= rows.update(ai, row.update(l.component_index as int, row.last()).drop_last()));
    }

    /// There is one archetype per set of component types: the archetypes' sorted type ids
    /// are all different, each increasing.
    pub proof fn lemma_archetype_ids(&self)
        requires
            self.wf(),
        ensures
            self.archetype_ids().no_duplicates(),
            forall|a: int| 0 <= a < self.archetype_ids().len() ==> increasing(#[trigger] self.archetype_ids()[a]),
    {
        let archs = self.archetypes@;
        let contents = archetype_index_map_contents(self.type_ids_index_map);
        assert forall|a: int, b: int|
            0 <= a < self.archetype_ids().len() && 0 <= b < self.archetype_ids().len() && a != b implies self.archetype_ids()[a]
            != self.archetype_ids()[b] by {
            assert(contents[archs[a].ids()] == a);
            assert(contents[archs[b].ids()] == b);
        }
        assert forall|a: int| 0 <= a < self.archetype_ids().len() implies increasing(#[trigger] self.archetype_ids()[a]) by {
            assert(archs[a].wf());
            archs[a].lemma_wf();
            let ids = archs[a].ids();
            assert forall|i: int, j: int| 0 <= i < j < ids.len() implies ids[i] < ids[j] by {
                assert(archs[a].infos()[i].id < archs[a].infos()[j].id);
            }
        }
    }

    /// Every entity's index is below the index bound.
    pub proof fn lemma_dom_bounded(&self)
        requires
            self.wf(),
        ensures
            forall|e: usize| #[trigger] self.view().dom().contains(e) ==> e < self.index_bound(),
    {
    }

    /// The indexes freed by despawning, the most recent last.
    pub closed spec fn free_indexes(&self) -> Seq<usize> {
        self.free_entity_indexs@
    }

    /// One more than the largest index ever handed out.
    pub closed spec fn index_bound(&self) -> nat {
        self.entity_locations@.len()
    }

    /// The index that the next spawn hands out: the most recently freed one, or a new one.
    pub open spec fn next_index(&self) -> usize {
        if self.free_indexes().len() > 0 {
            self.free_indexes().last()
        } else {
            self.index_bound() as usize
        }
    }

    /// The sorted component type ids of each archetype.
    pub closed spec fn archetype_ids(&self) -> Seq<Seq<u64>> {
        Seq::new(self.archetypes@.len(), |a: int| self.archetypes@[a].ids())
    }

    pub closed spec fn wf(&self) -> bool {
        &&& self.entity_locations@.len() == self.valid_entity_locations@.len()
        &&& archetypes_wf(self.archetypes@)
        &&& locations_wf(self.archetypes@, self.entity_locations@, self.valid_entity_locations@)
        &&& index_map_wf(
            self.archetypes@,
            archetype_index_map_contents(self.type_ids_index_map),
        )
        &&& free_list_wf(self.free_entity_indexs@, self.valid_entity_locations@)
    }

    /// An empty world.
    pub fn new() -> (r: World<C>)
        ensures
            r.wf(),
            r.view().is_empty(),
            r.free_indexes().len() == 0,
            r.index_bound() == 0,
            r.archetype_ids().len() == 0,
            r.archetype_rows().len() == 0,
    {
        let r = World {
            archetypes: Vec::new(),
            type_ids_index_map: ArchetypeIndexMap::new(),
            free_entity_indexs: Vec::new(),
            entity_locations: Vec::new(),
            valid_entity_locations: Vec::new(),
        };
        assert(r.view().dom() =~= Set::empty());
        assert(r.archetype_ids() =~= Seq::empty());
        assert(r.archetype_rows() =~= Seq::empty());
        r
    }

    fn location(&self, index: usize) -> (r: Option<EntityLocation>)
        requires
            self.wf(),
        ensures
            r == (if self.alive(index) {
                Some(self.loc(index))
            } else {
                None::<EntityLocation>
            }),
    {
        if index < self.valid_entity_locations.len() && self.valid_entity_locations[index] {
            Some(self.entity_locations[index])
        } else {
            None
        }
    }

    /// Whether entity `index` exists.
    pub fn entity_exists(&self, index: usize) -> (r: bool)
        requires
            self.wf(),
        ensures
            r == self.view().dom().contains(index),
    {
        self.location(index).is_some()
    }

    /// The component of type `type_id` of entity `index`, if the entity exists and has
    /// one.
    pub fn get(&self, type_id: u64, index: usize) -> (r: Option<&C>)
        requires
            self.wf(),
        ensures
            match r {
                Some(c) => self.view().dom().contains(index) && self.view()[index].dom().contains(type_id)
                    && *c == self.view()[index][type_id],
                None => !(self.view().dom().contains(index) && self.view()[index].dom().contains(type_id)),
            },
    {
        match self.location(index) {
            Some(location) => {
                assert(self.archetypes@[location.archetype_index as int].wf());
                self.archetypes[location.archetype_index].borrow_component(
                    type_id,
                    location.component_index,
                )
            },
            None => None,
        }
    }

    /// Takes the index that the next spawn should use: the most recently freed index,
    /// or the first index never handed out.
    pub fn next_free_index(&mut self) -> (r: usize)
        requires
            old(self).wf(),
        ensures
            final(self).wf(),
            r == old(self).next_index(),
            final(self).view() == old(self).view(),
            final(self).index_bound() == old(self).index_bound(),
            final(self).archetype_ids() == old(self).archetype_ids(),
            final(self).free_indexes() == (if old(self).free_indexes().len() > 0 {
                old(self).free_indexes().drop_last()
            } else {
                old(self).free_indexes()
            }),
            !old(self).view().dom().contains(r),
            r <= old(self).index_bound(),
            final(self).archetype_rows() == old(self).archetype_rows(),
    {
        match self.free_entity_indexs.pop() {
            Some(index) => {
                proof {
                    let n = old(self).free_entity_indexs@.len() - 1;
                    assert(old(self).free_entity_indexs@[n] == index);
                    assert(self.free_entity_indexs@ =~= old(self).free_entity_indexs@.drop_last());
                    assert forall|i: int, j: int|
                        0 <= i < j < self.free_entity_indexs@.len() implies self.free_entity_indexs@[i]
                        != self.free_entity_indexs@[j] by {
                        assert(old(self).free_entity_indexs@[i] != old(self).free_entity_indexs@[j]);
                    }
                    assert forall|i: int| 0 <= i < self.free_entity_indexs@.len() implies (
                    #[trigger] self.free_entity_indexs@[i]) < self.valid_entity_locations@.len()
                        && !self.valid_entity_locations@[self.free_entity_indexs@[i] as int] by {
                        assert(old(self).free_entity_indexs@[i] == self.free_entity_indexs@[i]);
                    }
                    assert(self.view() =~= old(self).view());
                }
                index
            },
            None => {
                assert(self.view() =~= old(self).view());
                self.entity_locations.len()
            },
        }
    }

    /// The index of the archetype for exactly the component types `type_infos`,
    /// created empty if there is none yet.
    fn archetype_index_from_infos(&mut self, type_infos: &Vec<TypeInfo>) -> (r: usize)
        requires
            old(self).wf(),
            strictly_sorted(type_infos@),
            forall|i: int|
                0 <= i < type_infos@.len() ==> storable_layout(#[trigger] type_infos@[i].layout),
        ensures
            final(self).wf(),
            final(self).view() == old(self).view(),
            final(self).entity_locations == old(self).entity_locations,
            final(self).valid_entity_locations == old(self).valid_entity_locations,
            final(self).free_entity_indexs == old(self).free_entity_indexs,
            r < final(self).archetypes@.len(),
            final(self).archetypes@[r as int].ids() == info_ids(type_infos@),
            final(self).archetypes@.len() == old(self).archetypes@.len() || (final(self).archetypes@.len() == old(self).archetypes@.len() + 1 && r == old(self).archetypes@.len() && final(self).archetypes@[r as int].entities().len() == 0),
            forall|a: int|
                0 <= a < old(self).archetypes@.len() ==> #[trigger] final(self).archetypes@[a] == old(self).archetypes@[a],
            final(self).archetype_ids() == with_archetype(old(self).archetype_ids(), info_ids(type_infos@)),
            old(self).archetype_ids().contains(info_ids(type_infos@)) ==> r == old(self).archetype_ids().index_of(
                info_ids(type_infos@),
            ) && final(self).archetypes@ == old(self).archetypes@,
            !old(self).archetype_ids().contains(info_ids(type_infos@)) ==> r == old(self).archetypes@.len()
                && final(self).archetypes@.len() == old(self).archetypes@.len() + 1
                && final(self).archetypes@[r as int].entities().len() == 0,
    {
        let mut ids: Vec<u64> = Vec::new();
        let mut infos: Vec<TypeInfo> = Vec::new();
        let mut i: usize = 0;
        while i < type_infos.len()
            invariant
                i <= type_infos@.len(),
                ids@ == info_ids(type_infos@.subrange(0, i as int)),
                infos@ == type_infos@.subrange(0, i as int),
            decreases type_infos@.len() - i,
        {
            ids.push(type_infos[i].id);
            infos.push(type_infos[i]);
            i = i + 1;
            assert(ids@ =~= info_ids(type_infos@.subrange(0, i as int)));
            assert(infos@ =~= type_infos@.subrange(0, i as int));
        }
        assert(ids@ =~= info_ids(type_infos@));
        assert(infos@ =~= type_infos@);
        match self.type_ids_index_map.get(&ids) {
            Some(index) => {
                proof {
                    let archs = self.archetypes@;
                    assert(self.archetype_ids()[index as int] == ids@);
                    assert(self.archetype_ids().contains(ids@));
                    self.lemma_archetype_ids();
                    lemma_index_of_distinct(self.archetype_ids(), index as int);
                }
                index
            },
            None => {
                let ghost old_archs = self.archetypes@;
                let ghost old_contents = archetype_index_map_contents(self.type_ids_index_map);
                let archetype = Archetype::new(infos);
                let index = self.archetypes.len();
                self.archetypes.push(archetype);
                self.type_ids_index_map.insert(ids, index);
                proof {
                    let archs = self.archetypes@;
                    let contents = archetype_index_map_contents(self.type_ids_index_map);
                    assert forall|a: int| 0 <= a < archs.len() implies (#[trigger] archs[a]).wf() by {
                        if a < old_archs.len() {
                            assert(old_archs[a].wf());
                        }
                    }
                    assert(archetypes_wf(archs));
                    assert forall|a: int| 0 <= a < old_archs.len() implies old_archs[a].ids() != ids@ by {
                        assert(old_contents.dom().contains(old_archs[a].ids()));
                    }
                    assert(index_map_wf(archs, contents));
                    assert(locations_wf(archs, self.entity_locations@, self.valid_entity_locations@));
                    assert(self.view() =~= old(self).view());
                    assert(!old(self).archetype_ids().contains(ids@)) by {
                        if old(self).archetype_ids().contains(ids@) {
                            let a = choose|a: int| 0 <= a < old(self).archetype_ids().len() && old(self).archetype_ids()[a] == ids@;
                            assert(old_archs[a].ids() == ids@);
                        }
                    }
                    assert(self.archetype_ids() =~= old(self).archetype_ids().push(ids@));
                }
                index
            },
        }
    }

    /// Spawns an entity whose components are given as type infos and values, in the same
    /// order; the type infos must be sorted by id with no type twice.
    ///
    /// Returns the new entity's index: the most recently freed index, or a new one.
    pub fn spawn_raw(&mut self, type_infos: &Vec<TypeInfo>, components: Vec<C>) -> (r: usize)
        requires
            old(self).wf(),
            strictly_sorted(type_infos@),
            forall|i: int|
                0 <= i < type_infos@.len() ==> valid_component_layout(#[trigger] type_infos@[i].layout),
            components@.len() == type_infos@.len(),
        ensures
            final(self).wf(),
            r == old(self).next_index(),
            !old(self).view().dom().contains(r),
            final(self).view() == old(self).view().insert(
                r,
                components_map(info_ids(type_infos@), components@),
            ),
            final(self).free_indexes() == (if old(self).free_indexes().len() > 0 {
                old(self).free_indexes().drop_last()
            } else {
                old(self).free_indexes()
            }),
            final(self).index_bound() == (if r == old(self).index_bound() {
                old(self).index_bound() + 1
            } else {
                old(self).index_bound()
            }),
            final(self).archetype_ids() == with_archetype(old(self).archetype_ids(), info_ids(type_infos@)),
            final(self).archetype_rows() == rows_after_add(old(self).archetype_rows(), old(self).archetype_ids(), info_ids(type_infos@), r),
    {
        let ghost w0 = *self;
        let index = self.next_free_index();
        let ghost w1 = *self;
        let archetype_index = self.archetype_index_from_infos(type_infos);
        let ghost w2 = *self;
        assert(w2.archetypes@[archetype_index as int].wf());
        proof {
            w2.archetypes@[archetype_index as int].lemma_wf();
        }
        let entity_index = self.archetypes[archetype_index].new_entity(index, components);
        if index >= self.entity_locations.len() {
            self.entity_locations.push(EntityLocation { archetype_index: 0, component_index: 0 });
            self.valid_entity_locations.push(false);
        }
        self.entity_locations.set(
            index,
            EntityLocation { archetype_index, component_index: entity_index },
        );
        self.valid_entity_locations.set(index, true);
        proof {
            let archs = self.archetypes@;
            let old_archs = w2.archetypes@;
            let ai = archetype_index as int;
            assert(!w1.alive(index));
            assert forall|a: int| 0 <= a < archs.len() implies (#[trigger] archs[a]).wf() by {
                if a != ai {
                    assert(old_archs[a] == archs[a]);
                    assert(old_archs[a].wf());
                }
            }
            assert(archetypes_wf(archs));
            assert forall|a: int| 0 <= a < archs.len() implies #[trigger] archs[a].ids() == old_archs[a].ids() by {
                if a != ai {
                    assert(old_archs[a] == archs[a]);
                }
            }
            assert(index_map_wf(archs, archetype_index_map_contents(self.type_ids_index_map)));
            let locs = self.entity_locations@;
            let valid = self.valid_entity_locations@;
            assert forall|e: usize| #[trigger] alive_in(valid, e) implies {
                let l = locs[e as int];
                &&& l.archetype_index < archs.len()
                &&& l.component_index < archs[l.archetype_index as int].entities().len()
                &&& archs[l.archetype_index as int].entities()[l.component_index as int] == e
            } by {
                if e != index {
                    assert(alive_in(w2.valid_entity_locations@, e));
                    assert(locs[e as int] == w2.entity_locations@[e as int]);
                    let l = locs[e as int];
                    if l.archetype_index != archetype_index {
                        assert(archs[l.archetype_index as int] == old_archs[l.archetype_index as int]);
                    }
                }
            }
            assert forall|a: int, r: int| 0 <= a < archs.len() && 0 <= r < archs[a].entities().len() implies {
                let e = #[trigger] archs[a].entities()[r];
                &&& alive_in(valid, e)
                &&& locs[e as int].archetype_index == a
                &&& locs[e as int].component_index == r
            } by {
                if a != ai {
                    assert(archs[a] == old_archs[a]);
                    let e = old_archs[a].entities()[r];
                    assert(alive_in(w2.valid_entity_locations@, e));
                } else if r < old_archs[a].entities().len() {
                    let e = old_archs[a].entities()[r];
                    assert(archs[a].entities()[r] == e);
                    assert(alive_in(w2.valid_entity_locations@, e));
                }
            }
            assert(locations_wf(archs, locs, valid));
            assert forall|i: int| 0 <= i < self.free_entity_indexs@.len() implies (
            #[trigger] self.free_entity_indexs@[i]) < valid.len() && !valid[self.free_entity_indexs@[i] as int] by {
                let f = self.free_entity_indexs@[i];
                assert(f < w2.valid_entity_locations@.len() && !w2.valid_entity_locations@[f as int]);
                if f == index {
                    if w0.free_entity_indexs@.len() > 0 {
                        let n = w0.free_entity_indexs@.len() - 1;
                        assert(w0.free_entity_indexs@[i] == w0.free_entity_indexs@[n]);
                    }
                }
            }
            assert(free_list_wf(self.free_entity_indexs@, valid));
            let new_map = components_map(info_ids(type_infos@), components@);
            assert forall|e: usize| #[trigger] self.view().dom().contains(e) implies self.view()[e]
                == w0.view().insert(index, new_map)[e] by {
                if e != index {
                    assert(alive_in(w2.valid_entity_locations@, e));
                    let l = locs[e as int];
                    assert(l == w2.entity_locations@[e as int]);
                    if l.archetype_index != archetype_index {
                        assert(archs[l.archetype_index as int] == old_archs[l.archetype_index as int]);
                    } else {
                        assert(archs[ai].row_values(l.component_index as int) == old_archs[ai].row_values(l.component_index as int));
                    }
                    assert(w2.view()[e] == w0.view()[e]);
                }
            }
            assert(self.view().dom() =~= w0.view().insert(index, new_map).dom());
            assert(self.view() =~= w0.view().insert(index, new_map));
            assert forall|a: int| 0 <= a < archs.len() implies #[trigger] self.archetype_ids()[a] == w2.archetype_ids()[a] by {
                if a == ai {
                    assert(archs[a].infos() == old_archs[a].infos());
                }
            }
            assert(self.archetype_ids() =~= w2.archetype_ids());
            assert(w1.archetype_ids() == w0.archetype_ids());
            assert(w1.archetype_rows() == w0.archetype_rows());
            assert(self.archetype_rows() =~= rows_after_add(w1.archetype_rows(), w1.archetype_ids(), info_ids(type_infos@), index)) by {
                if w1.archetype_ids().contains(info_ids(type_infos@)) {
                    assert forall|a: int| 0 <= a < archs.len() implies #[trigger] self.archetype_rows()[a]
                        == rows_after_add(w1.archetype_rows(), w1.archetype_ids(), info_ids(type_infos@), index)[a] by {
                        if a != ai {
                            assert(archs[a] == old_archs[a]);
                        }
                    }
                } else {
                    assert forall|a: int| 0 <= a < archs.len() implies #[trigger] self.archetype_rows()[a]
                        == rows_after_add(w1.archetype_rows(), w1.archetype_ids(), info_ids(type_infos@), index)[a] by {
                        if a != ai {
                            assert(archs[a] == old_archs[a]);
                        } else {
                            assert(archs[a].entities() =~= seq![index]);
                        }
                    }
                }
            }
        }
        index
    }

    /// Despawns entity `index`, dropping its components; its index is handed out by the
    /// next spawn.
    pub fn despawn(&mut self, index: usize)
        requires
            old(self).wf(),
            old(self).view().dom().contains(index),
        ensures
            final(self).wf(),
            final(self).view() == old(self).view().remove(index),
            final(self).free_indexes() == old(self).free_indexes().push(index),
            final(self).index_bound() == old(self).index_bound(),
            final(self).archetype_ids() == old(self).archetype_ids(),
            final(self).archetype_rows() == rows_after_remove(old(self).archetype_rows(), index),
    {
        let ghost w0 = *self;
        let location = self.location(index).unwrap();
        let ai = location.archetype_index;
        let ci = location.component_index;
        assert(self.archetypes@[ai as int].wf());
        let (moved_index, _removed) = self.archetypes[ai].remove_entity(ci);
        let ghost w1 = *self;
        let ghost n = w0.archetypes@[ai as int].entities().len() - 1;
        assert(w0.archetypes@[ai as int].entities()[n as int] == moved_index);
        let mut moved_location = self.entity_locations[moved_index];
        moved_location.component_index = ci;
        self.entity_locations.set(moved_index, moved_location);
        self.valid_entity_locations.set(index, false);
        self.free_entity_indexs.push(index);
        proof {
            let archs = self.archetypes@;
            let old_archs = w0.archetypes@;
            let locs = self.entity_locations@;
            let valid = self.valid_entity_locations@;
            assert forall|a: int| 0 <= a < archs.len() implies (#[trigger] archs[a]).wf() by {
                if a != ai {
                    assert(old_archs[a] == archs[a]);
                    assert(old_archs[a].wf());
                }
            }
            assert(archetypes_wf(archs));
            assert forall|a: int| 0 <= a < archs.len() implies #[trigger] archs[a].ids() == old_archs[a].ids() by {
                if a != ai {
                    assert(old_archs[a] == archs[a]);
                }
            }
            assert(index_map_wf(archs, archetype_index_map_contents(self.type_ids_index_map)));
            w0.lemma_rows_after_remove(index);
            assert(self.archetype_rows() =~= rows_after_remove(w0.archetype_rows(), index)) by {
                assert forall|a: int| 0 <= a < archs.len() implies #[trigger] self.archetype_rows()[a]
                    == rows_after_remove(w0.archetype_rows(), index)[a] by {
                    if a != ai {
                        assert(old_archs[a] == archs[a]);
                    }
                }
            }
            assert forall|e: usize| #[trigger] alive_in(valid, e) implies {
                let l = locs[e as int];
                &&& l.archetype_index < archs.len()
                &&& l.component_index < archs[l.archetype_index as int].entities().len()
                &&& archs[l.archetype_index as int].entities()[l.component_index as int] == e
            } by {
                assert(alive_in(w0.valid_entity_locations@, e));
                let l0 = w0.entity_locations@[e as int];
                if l0.archetype_index != ai {
                    assert(archs[l0.archetype_index as int] == old_archs[l0.archetype_index as int]);
                    if e == moved_index {
                        assert(old_archs[ai as int].entities()[n as int] == e);
                    }
                } else if e == moved_index {
                    assert(old_archs[ai as int].entities()[n as int] == e);
                } else {
                    assert(l0.component_index != ci);
                    if l0.component_index == n {
                        assert(old_archs[ai as int].entities()[n as int] == e);
                    }
                }
            }
            assert forall|a: int, r: int| 0 <= a < archs.len() && 0 <= r < archs[a].entities().len() implies {
                let e = #[trigger] archs[a].entities()[r];
                &&& alive_in(valid, e)
                &&& locs[e as int].archetype_index == a
                &&& locs[e as int].component_index == r
            } by {
                if a != ai {
                    assert(archs[a] == old_archs[a]);
                    let e = old_archs[a].entities()[r];
                    assert(alive_in(w0.valid_entity_locations@, e));
                    if e == index {
                        assert(w0.entity_locations@[e as int].archetype_index == ai);
                    }
                } else if r == ci {
                    assert(archs[a].entities()[r] == moved_index);
                    if moved_index == index {
                        assert(ci == n);
                    }
                } else {
                    let e = old_archs[a].entities()[r];
                    assert(archs[a].entities()[r] == e);
                    assert(alive_in(w0.valid_entity_locations@, e));
                    if e == moved_index {
                        assert(old_archs[a].entities()[n as int] == e);
                    }
                }
            }
            assert(locations_wf(archs, locs, valid));
            assert forall|i: int| 0 <= i < self.free_entity_indexs@.len() implies (
            #[trigger] self.free_entity_indexs@[i]) < valid.len() && !valid[self.free_entity_indexs@[i] as int] by {
                if i < w0.free_entity_indexs@.len() {
                    assert(self.free_entity_indexs@[i] == w0.free_entity_indexs@[i]);
                }
            }
            assert forall|i: int, j: int| 0 <= i < self.free_entity_indexs@.len() && 0 <= j < self.free_entity_indexs@.len() && i != j
                implies self.free_entity_indexs@[i] != self.free_entity_indexs@[j] by {
                let len = w0.free_entity_indexs@.len() as int;
                if i < len && j < len {
                    assert(w0.free_entity_indexs@[i] != w0.free_entity_indexs@[j]);
                } else if i < len {
                    assert(!w0.valid_entity_locations@[w0.free_entity_indexs@[i] as int]);
                } else if j < len {
                    assert(!w0.valid_entity_locations@[w0.free_entity_indexs@[j] as int]);
                }
            }
            assert(free_list_wf(self.free_entity_indexs@, valid));
            assert forall|e: usize| #[trigger] self.view().dom().contains(e) implies self.view()[e]
                == w0.view().remove(index)[e] by {
                assert(alive_in(w0.valid_entity_locations@, e));
                let l0 = w0.entity_locations@[e as int];
                if l0.archetype_index != ai {
                    assert(archs[l0.archetype_index as int] == old_archs[l0.archetype_index as int]);
                } else if e == moved_index {
                    assert(old_archs[ai as int].entities()[n as int] == e);
                    assert(l0.component_index == n);
                } else {
                    assert(l0.component_index != ci);
                    if l0.component_index == n {
                        assert(old_archs[ai as int].entities()[n as int] == e);
                    }
                    assert(archs[ai as int].row_values(l0.component_index as int) == old_archs[ai as int].row_values(l0.component_index as int));
                }
            }
            assert(self.view().dom() =~= w0.view().remove(index).dom());
            assert(self.view() =~= w0.view().remove(index));
            assert forall|a: int| 0 <= a < archs.len() implies #[trigger] self.archetype_ids()[a] == w0.archetype_ids()[a] by {
                assert(archs[a].ids() == old_archs[a].ids());
            }
            assert(self.archetype_ids() =~= w0.archetype_ids());
        }
    }

    /// Moves entity `index` into the archetype for `target_infos`, editing its components
    /// on the way.
    fn relocate(&mut self, index: usize, target_infos: &Vec<TypeInfo>, edit: ComponentEdit<C>) -> (r: Option<C>)
        requires
            old(self).wf(),
            old(self).view().dom().contains(index),
            strictly_sorted(target_infos@),
            forall|i: int|
                0 <= i < target_infos@.len() ==> storable_layout(#[trigger] target_infos@[i].layout),
            match edit {
                ComponentEdit::Insert(pos, _) => pos <= old(self).entity_values(index).len()
                    && target_infos@.len() == old(self).entity_values(index).len() + 1,
                ComponentEdit::Remove(pos) => pos < old(self).entity_values(index).len()
                    && target_infos@.len() == old(self).entity_values(index).len() - 1,
            },
        ensures
            final(self).wf(),
            final(self).view() == old(self).view().insert(
                index,
                components_map(info_ids(target_infos@), edited_values(old(self).entity_values(index), edit)),
            ),
            r == (match edit {
                ComponentEdit::Insert(_, _) => None::<C>,
                ComponentEdit::Remove(pos) => Some(old(self).entity_values(index)[pos as int]),
            }),
            final(self).free_indexes() == old(self).free_indexes(),
            final(self).index_bound() == old(self).index_bound(),
            final(self).archetype_ids() == with_archetype(old(self).archetype_ids(), info_ids(target_infos@)),
            final(self).archetype_rows() == rows_after_add(rows_after_remove(old(self).archetype_rows(), index), old(self).archetype_ids(), info_ids(target_infos@), index),
    {
        let ghost w0 = *self;
        proof {
            self.lemma_entity(index);
        }
        let location = self.location(index).unwrap();
        let source = location.archetype_index;
        let ci = location.component_index;
        let target = self.archetype_index_from_infos(target_infos);
        let ghost w1 = *self;
        assert(w1.archetypes@[source as int] == w0.archetypes@[source as int]);
        assert(target != source) by {
            if target == source {
                assert(info_ids(target_infos@).len() == target_infos@.len());
                assert(w0.archetypes@[source as int].ids().len() == w0.entity_values(index).len());
            }
        }
        assert(self.archetypes@[source as int].wf());
        let (moved_index, mut comps) = self.archetypes[source].remove_entity(ci);
        let ghost w2 = *self;
        let ghost n = w1.archetypes@[source as int].entities().len() - 1;
        assert(w1.archetypes@[source as int].entities()[n as int] == moved_index);
        let removed = match edit {
            ComponentEdit::Insert(pos, c) => {
                comps.insert(pos, c);
                None
            },
            ComponentEdit::Remove(pos) => Some(comps.remove(pos)),
        };
        assert(comps@ == edited_values(w0.entity_values(index), edit));
        assert(self.archetypes@[target as int].wf());
        proof {
            self.archetypes@[target as int].lemma_wf();
        }
        let row = self.archetypes[target].new_entity(index, comps);
        let mut moved_location = self.entity_locations[moved_index];
        moved_location.component_index = ci;
        self.entity_locations.set(moved_index, moved_location);
        self.entity_locations.set(index, EntityLocation { archetype_index: target, component_index: row });
        proof {
            let archs = self.archetypes@;
            let old_archs = w1.archetypes@;
            let locs = self.entity_locations@;
            let valid = self.valid_entity_locations@;
            let s = source as int;
            let t = target as int;
            assert forall|a: int| 0 <= a < archs.len() implies (#[trigger] archs[a]).wf() by {
                if a != s && a != t {
                    assert(old_archs[a] == archs[a]);
                    assert(old_archs[a].wf());
                }
            }
            assert(archetypes_wf(archs));
            assert forall|a: int| 0 <= a < archs.len() implies #[trigger] archs[a].ids() == old_archs[a].ids() by {
                if a != s && a != t {
                    assert(old_archs[a] == archs[a]);
                }
            }
            assert(index_map_wf(archs, archetype_index_map_contents(self.type_ids_index_map)));
            assert(self.archetype_ids() =~= w1.archetype_ids());
            w0.lemma_rows_after_remove(index);
            let removed_rows = rows_after_remove(w0.archetype_rows(), index);
            let expected = rows_after_add(removed_rows, w0.archetype_ids(), info_ids(target_infos@), index);
            assert(w0.loc(index).archetype_index == source);
            if w0.archetype_ids().contains(info_ids(target_infos@)) {
                assert(w1.archetypes@ == w0.archetypes@);
            }
            assert forall|a: int| 0 <= a < archs.len() implies #[trigger] self.archetype_rows()[a] == expected[a] by {
                if a != s && a != t {
                    assert(old_archs[a] == archs[a]);
                    if a < w0.archetypes@.len() {
                        assert(w0.archetypes@[a] == old_archs[a]);
                    }
                } else if a == t {
                    if !w0.archetype_ids().contains(info_ids(target_infos@)) {
                        assert(archs[a].entities() =~= seq![index]);
                    }
                }
            }
            assert(self.archetype_rows() =~= expected);
            assert forall|e: usize| #[trigger] alive_in(valid, e) implies {
                let l = locs[e as int];
                &&& l.archetype_index < archs.len()
                &&& l.component_index < archs[l.archetype_index as int].entities().len()
                &&& archs[l.archetype_index as int].entities()[l.component_index as int] == e
            } by {
                if e != index {
                    assert(alive_in(w1.valid_entity_locations@, e));
                    let l0 = w1.entity_locations@[e as int];
                    if l0.archetype_index != source && l0.archetype_index != target {
                        assert(archs[l0.archetype_index as int] == old_archs[l0.archetype_index as int]);
                        if e == moved_index {
                            assert(old_archs[s].entities()[n as int] == e);
                        }
                    } else if l0.archetype_index == target {
                        if e == moved_index {
                            assert(old_archs[s].entities()[n as int] == e);
                        }
                        assert(archs[t].entities()[l0.component_index as int] == old_archs[t].entities()[l0.component_index as int]);
                    } else if e == moved_index {
                        assert(old_archs[s].entities()[n as int] == e);
                    } else {
                        assert(l0.component_index != ci);
                        if l0.component_index == n {
                            assert(old_archs[s].entities()[n as int] == e);
                        }
                    }
                }
            }
            assert forall|a: int, r: int| 0 <= a < archs.len() && 0 <= r < archs[a].entities().len() implies {
                let e = #[trigger] archs[a].entities()[r];
                &&& alive_in(valid, e)
                &&& locs[e as int].archetype_index == a
                &&& locs[e as int].component_index == r
            } by {
                if a != s && a != t {
                    assert(archs[a] == old_archs[a]);
                    let e = old_archs[a].entities()[r];
                    assert(alive_in(w1.valid_entity_locations@, e));
                    if e == index {
                        assert(w1.entity_locations@[e as int].archetype_index == source);
                    }
                    if e == moved_index {
                        assert(old_archs[s].entities()[n as int] == e);
                    }
                } else if a == t {
                    if r < old_archs[t].entities().len() {
                        let e = old_archs[t].entities()[r];
                        assert(archs[t].entities()[r] == e);
                        assert(alive_in(w1.valid_entity_locations@, e));
                        if e == index {
                            assert(w1.entity_locations@[e as int].archetype_index == source);
                        }
                        if e == moved_index {
                            assert(old_archs[s].entities()[n as int] == e);
                        }
                    }
                } else if r == ci {
                    assert(archs[a].entities()[r] == moved_index);
                    if moved_index == index {
                        assert(ci == n);
                    }
                } else {
                    let e = old_archs[a].entities()[r];
                    assert(archs[a].entities()[r] == e);
                    assert(alive_in(w1.valid_entity_locations@, e));
                    if e == moved_index {
                        assert(old_archs[a].entities()[n as int] == e);
                    }
                }
            }
            assert(locations_wf(archs, locs, valid));
            assert(free_list_wf(self.free_entity_indexs@, valid));
            let new_map = components_map(info_ids(target_infos@), edited_values(w0.entity_values(index), edit));
            assert forall|e: usize| #[trigger] self.view().dom().contains(e) implies self.view()[e]
                == w0.view().insert(index, new_map)[e] by {
                if e != index {
                    assert(alive_in(w1.valid_entity_locations@, e));
                    assert(w1.view()[e] == w0.view()[e]);
                    let l0 = w1.entity_locations@[e as int];
                    if l0.archetype_index != source && l0.archetype_index != target {
                        assert(archs[l0.archetype_index as int] == old_archs[l0.archetype_index as int]);
                    } else if l0.archetype_index == target {
                        assert(archs[t].row_values(l0.component_index as int) == old_archs[t].row_values(l0.component_index as int));
                    } else if e == moved_index {
                        assert(old_archs[s].entities()[n as int] == e);
                        assert(l0.component_index == n);
                    } else {
                        assert(l0.component_index != ci);
                        if l0.component_index == n {
                            assert(old_archs[s].entities()[n as int] == e);
                        }
                        assert(archs[s].row_values(l0.component_index as int) == old_archs[s].row_values(l0.component_index as int));
                    }
                }
            }
            assert(self.view().dom() =~= w0.view().insert(index, new_map).dom());
            assert(self.view() =~= w0.view().insert(index, new_map));
        }
        removed
    }

    /// Adds `component`, of the type described by `type_info`, to entity `index`, moving
    /// the entity into the archetype for its new set of component types.
    pub fn add_component(&mut self, index: usize, type_info: TypeInfo, component: C)
        requires
            old(self).wf(),
            old(self).view().dom().contains(index),
            !old(self).view()[index].dom().contains(type_info.id),
            valid_component_layout(type_info.layout),
        ensures
            final(self).wf(),
            final(self).view() == old(self).view().insert(
                index,
                old(self).view()[index].insert(type_info.id, component),
            ),
            final(self).free_indexes() == old(self).free_indexes(),
            final(self).index_bound() == old(self).index_bound(),
            final(self).archetype_ids() == with_archetype(old(self).archetype_ids(), sorted_ids(final(self).view()[index].dom())),
            final(self).archetype_rows() == rows_after_add(rows_after_remove(old(self).archetype_rows(), index), old(self).archetype_ids(), sorted_ids(final(self).view()[index].dom()), index),
    {
        self.attach_component(index, type_info, component)
    }

    /// [`Self::add_component`] for any layout a component array can hold. The scene adds
    /// its own metadata through it: the verifier knows the metadata type's alignment but
    /// not its size.
    pub(crate) fn attach_component(&mut self, index: usize, type_info: TypeInfo, component: C)
        requires
            old(self).wf(),
            old(self).view().dom().contains(index),
            !old(self).view()[index].dom().contains(type_info.id),
            storable_layout(type_info.layout),
        ensures
            final(self).wf(),
            final(self).view() == old(self).view().insert(
                index,
                old(self).view()[index].insert(type_info.id, component),
            ),
            final(self).free_indexes() == old(self).free_indexes(),
            final(self).index_bound() == old(self).index_bound(),
            final(self).archetype_ids() == with_archetype(old(self).archetype_ids(), sorted_ids(final(self).view()[index].dom())),
            final(self).archetype_rows() == rows_after_add(rows_after_remove(old(self).archetype_rows(), index), old(self).archetype_ids(), sorted_ids(final(self).view()[index].dom()), index),
    {
        proof {
            self.lemma_entity(index);
        }
        let ghost old_infos = self.entity_infos(index);
        let ghost ids = info_ids(old_infos);
        let ghost values = self.entity_values(index);
        let t = type_info.id;
        assert(!ids.contains(t)) by {
            if ids.contains(t) {
                assert(components_map(ids, values).dom().contains(t));
            }
        }
        let location = self.location(index).unwrap();
        let infos = self.archetypes[location.archetype_index].type_infos();
        let mut new_infos: Vec<TypeInfo> = Vec::new();
        let mut pos: usize = 0;
        let mut i: usize = 0;
        while i < infos.len()
            invariant
                infos@ == old_infos,
                strictly_sorted(old_infos),
                !ids.contains(t),
                ids == info_ids(old_infos),
                pos <= i <= infos@.len(),
                new_infos@ == old_infos.subrange(0, i as int),
                forall|j: int| 0 <= j < pos ==> #[trigger] old_infos[j].id < t,
                forall|j: int| pos <= j < i ==> #[trigger] old_infos[j].id > t,
            decreases infos@.len() - i,
        {
            new_infos.push(infos[i]);
            assert(ids[i as int] == old_infos[i as int].id);
            if infos[i].id < t {
                assert forall|j: int| pos <= j < i implies #[trigger] old_infos[j].id < t by {
                    assert(old_infos[j].id < old_infos[i as int].id);
                }
                pos = i + 1;
            }
            i = i + 1;
            assert(new_infos@ =~= old_infos.subrange(0, i as int));
        }
        assert(new_infos@ =~= old_infos);
        new_infos.insert(pos, type_info);
        proof {
            assert forall|a: int, b: int| 0 <= a < b < new_infos@.len() implies #[trigger] new_infos@[a].id
                < #[trigger] new_infos@[b].id by {
                if a < pos && b < pos {
                    assert(old_infos[a].id < old_infos[b].id);
                } else if a < pos && b > pos {
                    assert(old_infos[b - 1].id > t);
                } else if a > pos {
                    assert(old_infos[a - 1].id < old_infos[b - 1].id);
                }
            }
            assert(info_ids(new_infos@) =~= ids.insert(pos as int, t));
        }
        self.relocate(index, &new_infos, ComponentEdit::Insert(pos, component));
        proof {
            lemma_components_map_insert(ids, values, pos as int, t, component);
            lemma_sorted_ids_of_infos(new_infos@, edited_values(values, ComponentEdit::Insert(pos, component)));
        }
    }

    /// Removes the component of type `type_id` from entity `index` and returns it,
    /// moving the entity into the archetype for its new set of component types.
    pub fn remove_component(&mut self, index: usize, type_id: u64) -> (r: C)
        requires
            old(self).wf(),
            old(self).view().dom().contains(index),
            old(self).view()[index].dom().contains(type_id),
        ensures
            final(self).wf(),
            r == old(self).view()[index][type_id],
            final(self).view() == old(self).view().insert(
                index,
                old(self).view()[index].remove(type_id),
            ),
            final(self).free_indexes() == old(self).free_indexes(),
            final(self).index_bound() == old(self).index_bound(),
            final(self).archetype_ids() == with_archetype(old(self).archetype_ids(), sorted_ids(final(self).view()[index].dom())),
            final(self).archetype_rows() == rows_after_add(rows_after_remove(old(self).archetype_rows(), index), old(self).archetype_ids(), sorted_ids(final(self).view()[index].dom()), index),
    {
        proof {
            self.lemma_entity(index);
        }
        let ghost old_infos = self.entity_infos(index);
        let ghost ids = info_ids(old_infos);
        let ghost values = self.entity_values(index);
        assert(ids.contains(type_id));
        let location = self.location(index).unwrap();
        let infos = self.archetypes[location.archetype_index].type_infos();
        let mut new_infos: Vec<TypeInfo> = Vec::new();
        let mut pos: usize = 0;
        let mut found = false;
        let mut i: usize = 0;
        while i < infos.len()
            invariant
                infos@ == old_infos,
                strictly_sorted(old_infos),
                ids == info_ids(old_infos),
                i <= infos@.len(),
                found ==> pos < i && old_infos[pos as int].id == type_id,
                !found ==> forall|j: int| 0 <= j < i ==> #[trigger] old_infos[j].id != type_id,
                !found ==> new_infos@ == old_infos.subrange(0, i as int),
                found ==> new_infos@ == old_infos.subrange(0, i as int).remove(pos as int),
            decreases infos@.len() - i,
        {
            if infos[i].id == type_id {
                found = true;
                pos = i;
            } else {
                new_infos.push(infos[i]);
            }
            i = i + 1;
            proof {
                if found {
                    assert(new_infos@ =~= old_infos.subrange(0, i as int).remove(pos as int));
                } else {
                    assert(new_infos@ =~= old_infos.subrange(0, i as int));
                }
            }
        }
        assert(found) by {
            if !found {
                let j = choose|j: int| 0 <= j < ids.len() && ids[j] == type_id;
                assert(old_infos[j].id == type_id);
            }
        }
        assert(old_infos.subrange(0, infos@.len() as int) =~= old_infos);
        proof {
            assert forall|a: int, b: int| 0 <= a < b < new_infos@.len() implies #[trigger] new_infos@[a].id
                < #[trigger] new_infos@[b].id by {
                let a0 = if a < pos { a } else { a + 1 };
                let b0 = if b < pos { b } else { b + 1 };
                assert(old_infos[a0].id < old_infos[b0].id);
            }
            assert(info_ids(new_infos@) =~= ids.remove(pos as int));
        }
        let removed = self.relocate(index, &new_infos, ComponentEdit::Remove(pos));
        proof {
            lemma_components_map_remove(ids, values, pos as int);
            lemma_index_of_distinct(ids, pos as int);
            lemma_sorted_ids_of_infos(new_infos@, edited_values(values, ComponentEdit::<C>::Remove(pos)));
        }
        removed.unwrap()
    }

    /// Spawns an entity with the given components, each with its type info, in any
    /// order; no component type may appear twice.
    ///
    /// Returns the new entity's index: the most recently freed index, or a new one.
    pub fn spawn(&mut self, components: Vec<(TypeInfo, C)>) -> (r: usize)
        requires
            old(self).wf(),
            pair_ids(components@).no_duplicates(),
            forall|i: int|
                0 <= i < components@.len() ==> valid_component_layout(#[trigger] components@[i].0.layout),
        ensures
            final(self).wf(),
            r == old(self).next_index(),
            !old(self).view().dom().contains(r),
            final(self).view() == old(self).view().insert(r, pairs_map(components@)),
            final(self).free_indexes() == (if old(self).free_indexes().len() > 0 {
                old(self).free_indexes().drop_last()
            } else {
                old(self).free_indexes()
            }),
            final(self).index_bound() == (if r == old(self).index_bound() {
                old(self).index_bound() + 1
            } else {
                old(self).index_bound()
            }),
            final(self).archetype_ids() == with_archetype(old(self).archetype_ids(), sorted_ids(final(self).view()[r].dom())),
            final(self).archetype_rows() == rows_after_add(old(self).archetype_rows(), old(self).archetype_ids(), sorted_ids(final(self).view()[r].dom()), r),
    {
        let (infos, values) = Self::sort_components(components);
        proof {
            lemma_sorted_ids_of_infos(infos@, values@);
        }
        self.spawn_raw(&infos, values)
    }

    /// The component of type `type_id` of entity `index`, to change in place; every other
    /// component stays as it is.
    pub fn get_mut(&mut self, type_id: u64, index: usize) -> (r: &mut C)
        requires
            old(self).wf(),
            old(self).view().dom().contains(index),
            old(self).view()[index].dom().contains(type_id),
        ensures
            *r == old(self).view()[index][type_id],
            final(self).wf(),
            final(self).view() == old(self).view().insert(
                index,
                old(self).view()[index].insert(type_id, *final(r)),
            ),
            final(self).free_indexes() == old(self).free_indexes(),
            final(self).index_bound() == old(self).index_bound(),
            final(self).archetype_ids() == old(self).archetype_ids(),
            final(self).archetype_rows() == old(self).archetype_rows(),
    {
        let ghost w0 = *self;
        let location = self.location(index).unwrap();
        let ai = location.archetype_index;
        assert(self.archetypes@[ai as int].wf());
        proof {
            self.lemma_entity(index);
        }
        self.archetypes[ai].component_mut(type_id, location.component_index)
    }

    /// Puts `component` in place of entity `index`'s component of type `type_id` and
    /// returns the component that was there.
    pub fn replace_component(&mut self, index: usize, type_id: u64, component: C) -> (r: C)
        requires
            old(self).wf(),
            old(self).view().dom().contains(index),
            old(self).view()[index].dom().contains(type_id),
        ensures
            final(self).wf(),
            r == old(self).view()[index][type_id],
            final(self).view() == old(self).view().insert(
                index,
                old(self).view()[index].insert(type_id, component),
            ),
            final(self).free_indexes() == old(self).free_indexes(),
            final(self).index_bound() == old(self).index_bound(),
            final(self).archetype_ids() == old(self).archetype_ids(),
            final(self).archetype_rows() == old(self).archetype_rows(),
    {
        let ghost w0 = *self;
        let location = self.location(index).unwrap();
        let ai = location.archetype_index;
        assert(self.archetypes@[ai as int].wf());
        let r = self.archetypes[ai].replace_component(type_id, location.component_index, component);
        proof {
            let archs = self.archetypes@;
            let old_archs = w0.archetypes@;
            assert forall|a: int| 0 <= a < archs.len() implies (#[trigger] archs[a]).wf() by {
                if a != ai {
                    assert(old_archs[a] == archs[a]);
                    assert(old_archs[a].wf());
                }
            }
            assert(archetypes_wf(archs));
            assert forall|a: int| 0 <= a < archs.len() implies #[trigger] archs[a].ids() == old_archs[a].ids()
                && archs[a].entities() == old_archs[a].entities() by {
                if a != ai {
                    assert(old_archs[a] == archs[a]);
                }
            }
            assert(index_map_wf(archs, archetype_index_map_contents(self.type_ids_index_map)));
            assert(locations_wf(archs, self.entity_locations@, self.valid_entity_locations@));
            let new_map = w0.view()[index].insert(type_id, component);
            assert forall|e: usize| #[trigger] self.view().dom().contains(e) implies self.view()[e]
                == w0.view().insert(index, new_map)[e] by {
                if e != index {
                    let l = self.entity_locations@[e as int];
                    if l.archetype_index != ai {
                        assert(archs[l.archetype_index as int] == old_archs[l.archetype_index as int]);
                    } else {
                        assert(l.component_index != location.component_index);
                        assert(archs[ai as int].row_values(l.component_index as int) == old_archs[ai as int].row_values(l.component_index as int));
                    }
                }
            }
            assert(self.view().dom() =~= w0.view().insert(index, new_map).dom());
            assert(self.view() =~= w0.view().insert(index, new_map));
            assert(self.archetype_ids() =~= w0.archetype_ids());
        }
        r
    }

    /// The mutable query: in every entity that has a component of each type in
    /// `type_ids`, the component of type `type_id` becomes what `f` makes of the
    /// entity's index and that component. Nothing else changes.
    pub fn query_mut<F: Fn(usize, &C) -> C>(&mut self, type_ids: &Vec<u64>, type_id: u64, f: F)
        requires
            old(self).wf(),
            type_ids@.contains(type_id),
            forall|e: usize, c: &C| #[trigger] f.requires((e, c)),
        ensures
            final(self).wf(),
            final(self).view().dom() == old(self).view().dom(),
            forall|e: usize|
                #[trigger] old(self).view().dom().contains(e) ==> if has_all(old(self).view()[e], type_ids@) {
                    &&& final(self).view()[e] == old(self).view()[e].insert(type_id, final(self).view()[e][type_id])
                    &&& f.ensures((e, &old(self).view()[e][type_id]), final(self).view()[e][type_id])
                } else {
                    final(self).view()[e] == old(self).view()[e]
                },
            final(self).free_indexes() == old(self).free_indexes(),
            final(self).index_bound() == old(self).index_bound(),
            final(self).archetype_ids() == old(self).archetype_ids(),
            final(self).archetype_rows() == old(self).archetype_rows(),
    {
        let ghost w0 = *self;
        let matched = self.query_entities(type_ids);
        let mut k: usize = 0;
        while k < matched.len()
            invariant
                self.wf(),
                w0.wf(),
                type_ids@.contains(type_id),
                forall|e: usize, c: &C| #[trigger] f.requires((e, c)),
                k <= matched@.len(),
                matched@.no_duplicates(),
                forall|e: usize|
                    #[trigger] matched@.contains(e) <==> (w0.view().dom().contains(e) && has_all(w0.view()[e], type_ids@)),
                self.view().dom() == w0.view().dom(),
                forall|e: usize|
                    #[trigger] w0.view().dom().contains(e) ==> if matched@.subrange(0, k as int).contains(e) {
                        &&& self.view()[e] == w0.view()[e].insert(type_id, self.view()[e][type_id])
                        &&& f.ensures((e, &w0.view()[e][type_id]), self.view()[e][type_id])
                    } else {
                        self.view()[e] == w0.view()[e]
                    },
                self.free_indexes() == w0.free_indexes(),
                self.index_bound() == w0.index_bound(),
                self.archetype_ids() == w0.archetype_ids(),
                self.archetype_rows() == w0.archetype_rows(),
            decreases matched@.len() - k,
        {
            let e = matched[k];
            let ghost before = *self;
            assert(matched@.contains(e));
            assert(!matched@.subrange(0, k as int).contains(e)) by {
                if matched@.subrange(0, k as int).contains(e) {
                    let i = choose|i: int| 0 <= i < k && #[trigger] matched@.subrange(0, k as int)[i] == e;
                    assert(matched@[i] == matched@[k as int]);
                }
            }
            assert(self.view()[e] == w0.view()[e]);
            let ghost t = choose|j: int| 0 <= j < type_ids@.len() && type_ids@[j] == type_id;
            assert(w0.view()[e].dom().contains(type_ids@[t]));
            let current = self.get(type_id, e).unwrap();
            let updated = f(e, current);
            self.replace_component(e, type_id, updated);
            proof {
                assert forall|x: usize| #[trigger] w0.view().dom().contains(x) implies if matched@.subrange(0, k + 1).contains(x) {
                    &&& self.view()[x] == w0.view()[x].insert(type_id, self.view()[x][type_id])
                    &&& f.ensures((x, &w0.view()[x][type_id]), self.view()[x][type_id])
                } else {
                    self.view()[x] == w0.view()[x]
                } by {
                    if x == e {
                        assert(matched@.subrange(0, k + 1)[k as int] == e);
                    } else {
                        assert(before.view().dom().contains(x));
                        assert(self.view()[x] == before.view()[x]);
                        if matched@.subrange(0, k + 1).contains(x) {
                            let i = choose|i: int| 0 <= i < k + 1 && #[trigger] matched@.subrange(0, k + 1)[i] == x;
                            assert(i != k);
                            assert(matched@.subrange(0, k as int)[i] == x);
                        } else {
                            if matched@.subrange(0, k as int).contains(x) {
                                let i = choose|i: int| 0 <= i < k && #[trigger] matched@.subrange(0, k as int)[i] == x;
                                assert(matched@.subrange(0, k + 1)[i] == x);
                            }
                        }
                    }
                }
            }
            k = k + 1;
        }
        proof {
            assert(matched@.subrange(0, matched@.len() as int) =~= matched@);
        }
    }

    /// One more than the largest index ever handed out.
    pub fn index_count(&self) -> (r: usize)
        ensures
            r == self.index_bound(),
    {
        self.entity_locations.len()
    }

    /// The number of archetypes, one per distinct set of component types ever used.
    pub fn archetype_count(&self) -> (r: usize)
        ensures
            r == self.archetype_ids().len(),
    {
        self.archetypes.len()
    }

    /// The entities that have a component of every type in `type_ids`, archetype by
    /// archetype and row by row, each once.
    pub fn query_entities(&self, type_ids: &Vec<u64>) -> (r: Vec<usize>)
        requires
            self.wf(),
        ensures
            r@.no_duplicates(),
            forall|e: usize|
                #[trigger] r@.contains(e) <==> (self.view().dom().contains(e) && forall|j: int|
                    0 <= j < type_ids@.len() ==> self.view()[e].dom().contains(#[trigger] type_ids@[j])),
            r@ == self.query_order(type_ids@),
    {
        let mut result: Vec<usize> = Vec::new();
        let mut a: usize = 0;
        while a < self.archetypes.len()
            invariant
                self.wf(),
                a <= self.archetypes@.len(),
                result@ == self.matching_rows(type_ids@, a as int),
                result@.no_duplicates(),
                forall|i: int| 0 <= i < result@.len() ==> {
                    let e = #[trigger] result@[i];
                    &&& self.alive(e)
                    &&& self.loc(e).archetype_index < a
                    &&& forall|j: int| 0 <= j < type_ids@.len() ==> self.view()[e].dom().contains(#[trigger] type_ids@[j])
                },
                forall|e: usize| #[trigger] self.alive(e) && self.loc(e).archetype_index < a
                    && (forall|j: int| 0 <= j < type_ids@.len() ==> self.view()[e].dom().contains(#[trigger] type_ids@[j]))
                    ==> result@.contains(e),
            decreases self.archetypes@.len() - a,
        {
            let archetype = &self.archetypes[a];
            assert(archetype.wf());
            proof {
                archetype.lemma_wf();
            }
            let mut matches = true;
            let mut j: usize = 0;
            while j < type_ids.len()
                invariant
                    archetype.wf(),
                    j <= type_ids@.len(),
                    matches == forall|k: int| 0 <= k < j ==> archetype.ids().contains(#[trigger] type_ids@[k]),
                decreases type_ids@.len() - j,
            {
                if !archetype.has_component(type_ids[j]) {
                    matches = false;
                }
                j = j + 1;
            }
            let ghost result_before = result@;
            if matches {
                let count = archetype.count();
                let mut row: usize = 0;
                while row < count
                    invariant
                        self.wf(),
                        archetype == self.archetypes@[a as int],
                        a < self.archetypes@.len(),
                        count == archetype.entities().len(),
                        row <= count,
                        result@ == self.matching_rows(type_ids@, a as int) + archetype.entities().subrange(0, row as int),
                        forall|k: int| 0 <= k < type_ids@.len() ==> archetype.ids().contains(#[trigger] type_ids@[k]),
                        result@.no_duplicates(),
                        forall|i: int| 0 <= i < result@.len() ==> {
                            let e = #[trigger] result@[i];
                            &&& self.alive(e)
                            &&& (self.loc(e).archetype_index < a || (self.loc(e).archetype_index == a && self.loc(e).component_index < row))
                            &&& forall|j: int| 0 <= j < type_ids@.len() ==> self.view()[e].dom().contains(#[trigger] type_ids@[j])
                        },
                        forall|e: usize| #[trigger] self.alive(e) && ((self.loc(e).archetype_index < a
                            && (forall|j: int| 0 <= j < type_ids@.len() ==> self.view()[e].dom().contains(#[trigger] type_ids@[j])))
                            || (self.loc(e).archetype_index == a && self.loc(e).component_index < row))
                            ==> result@.contains(e),
                    decreases count - row,
                {
                    let e = archetype.entity_at(row);
                    proof {
                        assert(locations_wf(self.archetypes@, self.entity_locations@, self.valid_entity_locations@));
                        assert(self.archetypes@[a as int].entities()[row as int] == e);
                        assert(self.alive(e));
                        assert(self.view()[e] == archetype.row(row as int));
                        if result@.contains(e) {
                            let i = choose|i: int| 0 <= i < result@.len() && result@[i] == e;
                            assert(self.alive(result@[i]));
                        }
                    }
                    let ghost before = result@;
                    result.push(e);
                    proof {
                        assert(archetype.entities().subrange(0, row + 1) =~= archetype.entities().subrange(0, row as int).push(e));
                        assert forall|i: int| 0 <= i < result@.len() implies {
                            let e2 = #[trigger] result@[i];
                            &&& self.alive(e2)
                            &&& (self.loc(e2).archetype_index < a || (self.loc(e2).archetype_index == a && self.loc(e2).component_index < row + 1))
                            &&& forall|j: int| 0 <= j < type_ids@.len() ==> self.view()[e2].dom().contains(#[trigger] type_ids@[j])
                        } by {
                            if i == before.len() {
                                assert forall|j: int| 0 <= j < type_ids@.len() implies self.view()[e].dom().contains(#[trigger] type_ids@[j]) by {
                                    assert(archetype.ids().contains(type_ids@[j]));
                                }
                            } else {
                                assert(result@[i] == before[i]);
                            }
                        }
                        assert forall|e2: usize| #[trigger] self.alive(e2) && ((self.loc(e2).archetype_index < a
                            && (forall|j: int| 0 <= j < type_ids@.len() ==> self.view()[e2].dom().contains(#[trigger] type_ids@[j])))
                            || (self.loc(e2).archetype_index == a && self.loc(e2).component_index < row + 1))
                            implies result@.contains(e2) by {
                            if self.loc(e2).archetype_index == a && self.loc(e2).component_index == row {
                                assert(e2 == e);
                                assert(result@[before.len() as int] == e);
                            } else {
                                assert(before.contains(e2));
                                let i = choose|i: int| 0 <= i < before.len() && before[i] == e2;
                                assert(result@[i] == e2);
                            }
                        }
                    }
                    row = row + 1;
                }
                proof {
                    assert(archetype.entities().subrange(0, count as int) =~= archetype.entities());
                    assert forall|e: usize| #[trigger] self.alive(e) && self.loc(e).archetype_index < a + 1
                        && (forall|j: int| 0 <= j < type_ids@.len() ==> self.view()[e].dom().contains(#[trigger] type_ids@[j]))
                        implies result@.contains(e) by {
                        if self.loc(e).archetype_index == a {
                            assert(locations_wf(self.archetypes@, self.entity_locations@, self.valid_entity_locations@));
                        }
                    }
                }
            } else {
                proof {
                    assert(result@ =~= self.matching_rows(type_ids@, a + 1));
                    assert forall|e: usize| #[trigger] self.alive(e) && self.loc(e).archetype_index < a + 1
                        && (forall|j: int| 0 <= j < type_ids@.len() ==> self.view()[e].dom().contains(#[trigger] type_ids@[j]))
                        implies result@.contains(e) by {
                        if self.loc(e).archetype_index == a {
                            let k = choose|k: int| 0 <= k < type_ids@.len() && !archetype.ids().contains(#[trigger] type_ids@[k]);
                            assert(self.view()[e].dom().contains(type_ids@[k]));
                            assert(self.view()[e] == archetype.row(self.loc(e).component_index as int));
                        }
                    }
                }
            }
            a = a + 1;
        }
        proof {
            assert forall|e: usize| #[trigger] result@.contains(e) <==> (self.view().dom().contains(e) && forall|j: int|
                0 <= j < type_ids@.len() ==> self.view()[e].dom().contains(#[trigger] type_ids@[j])) by {
                if result@.contains(e) {
                    let i = choose|i: int| 0 <= i < result@.len() && result@[i] == e;
                    assert(self.alive(result@[i]));
                }
                if self.view().dom().contains(e) {
                    assert(locations_wf(self.archetypes@, self.entity_locations@, self.valid_entity_locations@));
                    assert(self.alive(e));
                }
            }
        }
        result
    }

    /// For each entity that has a component of every type in `type_ids`, the entity and
    /// its components of those types, in the order of `type_ids`.
    pub fn query(&self, type_ids: &Vec<u64>) -> (r: Vec<(usize, Vec<&C>)>)
        requires
            self.wf(),
        ensures
            result_entities(r@).no_duplicates(),
            forall|e: usize|
                #[trigger] result_entities(r@).contains(e) <==> (self.view().dom().contains(e)
                    && forall|j: int|
                    0 <= j < type_ids@.len() ==> self.view()[e].dom().contains(#[trigger] type_ids@[j])),
            forall|i: int|
                0 <= i < r@.len() ==> (#[trigger] r@[i]).1@.len() == type_ids@.len() && forall|j: int|
                    0 <= j < type_ids@.len() ==> *(#[trigger] r@[i].1@[j]) == self.view()[r@[i].0][type_ids@[j]],
            result_entities(r@) == self.query_order(type_ids@),
    {
        let entities = self.query_entities(type_ids);
        let mut result: Vec<(usize, Vec<&C>)> = Vec::new();
        let mut i: usize = 0;
        while i < entities.len()
            invariant
                self.wf(),
                i <= entities@.len(),
                result_entities(result@) == entities@.subrange(0, i as int),
                forall|e: usize|
                    #[trigger] entities@.contains(e) ==> (self.view().dom().contains(e) && forall|j: int|
                        0 <= j < type_ids@.len() ==> self.view()[e].dom().contains(#[trigger] type_ids@[j])),
                forall|k: int|
                    0 <= k < result@.len() ==> (#[trigger] result@[k]).1@.len() == type_ids@.len() && forall|j: int|
                        0 <= j < type_ids@.len() ==> *(#[trigger] result@[k].1@[j]) == self.view()[result@[k].0][type_ids@[j]],
            decreases entities@.len() - i,
        {
            let e = entities[i];
            assert(entities@.contains(e));
            let mut refs: Vec<&C> = Vec::new();
            let mut j: usize = 0;
            while j < type_ids.len()
                invariant
                    self.wf(),
                    j <= type_ids@.len(),
                    self.view().dom().contains(e),
                    forall|k: int| 0 <= k < type_ids@.len() ==> self.view()[e].dom().contains(#[trigger] type_ids@[k]),
                    refs@.len() == j,
                    forall|k: int| 0 <= k < j ==> *(#[trigger] refs@[k]) == self.view()[e][type_ids@[k]],
                decreases type_ids@.len() - j,
            {
                assert(self.view()[e].dom().contains(type_ids@[j as int]));
                let c = self.get(type_ids[j], e).unwrap();
                refs.push(c);
                j = j + 1;
            }
            let ghost before = result@;
            let ghost item = (e, refs);
            result.push((e, refs));
            proof {
                assert(result@ == before.push(item));
                assert(result_entities(result@) =~= result_entities(before).push(e));
                assert(result_entities(result@) =~= entities@.subrange(0, i + 1));
                assert forall|k: int| 0 <= k < result@.len() implies (#[trigger] result@[k]).1@.len() == type_ids@.len() && forall|j: int|
                    0 <= j < type_ids@.len() ==> *(#[trigger] result@[k].1@[j]) == self.view()[result@[k].0][type_ids@[j]] by {
                    if k < before.len() {
                        assert(result@[k] == before[k]);
                    }
                }
            }
            i = i + 1;
        }
        assert(entities@.subrange(0, entities@.len() as int) =~= entities@);
        result
    }

    /// A read-only handle to entity `index`, if it exists.
    pub fn entity(&self, index: usize) -> (r: Option<EntityRef<'_, C>>)
        requires
            self.wf(),
        ensures
            match r {
                Some(entity) => self.view().dom().contains(index) && entity.wf() && entity.entity_id() == index
                    && entity.components() == self.view()[index],
                None => !self.view().dom().contains(index),
            },
    {
        match self.location(index) {
            Some(location) => {
                assert(self.archetypes@[location.archetype_index as int].wf());
                Some(EntityRef { archetype: &self.archetypes[location.archetype_index], location, index })
            },
            None => None,
        }
    }

    /// Spawns an entity under the given index, which must not be in use; the type infos
    /// must be sorted by id with no type twice, in the order of `components`.
    pub fn spawn_with_id(&mut self, index: usize, type_infos: &Vec<TypeInfo>, components: Vec<C>)
        requires
            old(self).wf(),
            !old(self).view().dom().contains(index),
            strictly_sorted(type_infos@),
            forall|i: int|
                0 <= i < type_infos@.len() ==> valid_component_layout(#[trigger] type_infos@[i].layout),
            components@.len() == type_infos@.len(),
        ensures
            final(self).wf(),
            final(self).view() == old(self).view().insert(
                index,
                components_map(info_ids(type_infos@), components@),
            ),
            !final(self).free_indexes().contains(index),
            old(self).free_indexes().contains(index) ==> exists|p: int|
                0 <= p < old(self).free_indexes().len() && old(self).free_indexes()[p] == index
                    && final(self).free_indexes() == old(self).free_indexes().remove(p),
            !old(self).free_indexes().contains(index) ==> final(self).free_indexes() == old(self).free_indexes(),
            final(self).index_bound() == (if index < old(self).index_bound() {
                old(self).index_bound() as int
            } else {
                index + 1
            }),
            final(self).archetype_ids() == with_archetype(old(self).archetype_ids(), info_ids(type_infos@)),
            final(self).archetype_rows() == rows_after_add(old(self).archetype_rows(), old(self).archetype_ids(), info_ids(type_infos@), index),
    {
        self.place_with_id(index, type_infos, components)
    }

    /// [`Self::spawn_with_id`] for any layout a component array can hold. The scene
    /// spawns its root, which holds only metadata, through it: the verifier knows the
    /// metadata type's alignment but not its size.
    pub(crate) fn place_with_id(&mut self, index: usize, type_infos: &Vec<TypeInfo>, components: Vec<C>)
        requires
            old(self).wf(),
            !old(self).view().dom().contains(index),
            strictly_sorted(type_infos@),
            forall|i: int|
                0 <= i < type_infos@.len() ==> storable_layout(#[trigger] type_infos@[i].layout),
            components@.len() == type_infos@.len(),
        ensures
            final(self).wf(),
            final(self).view() == old(self).view().insert(
                index,
                components_map(info_ids(type_infos@), components@),
            ),
            !final(self).free_indexes().contains(index),
            old(self).free_indexes().contains(index) ==> exists|p: int|
                0 <= p < old(self).free_indexes().len() && old(self).free_indexes()[p] == index
                    && final(self).free_indexes() == old(self).free_indexes().remove(p),
            !old(self).free_indexes().contains(index) ==> final(self).free_indexes() == old(self).free_indexes(),
            final(self).index_bound() == (if index < old(self).index_bound() {
                old(self).index_bound() as int
            } else {
                index + 1
            }),
            final(self).archetype_ids() == with_archetype(old(self).archetype_ids(), info_ids(type_infos@)),
            final(self).archetype_rows() == rows_after_add(old(self).archetype_rows(), old(self).archetype_ids(), info_ids(type_infos@), index),
    {
        let ghost w0 = *self;
        // Take the index out of the free list, if it is there.
        let mut p: usize = 0;
        while p < self.free_entity_indexs.len() && self.free_entity_indexs[p] != index
            invariant
                p <= self.free_entity_indexs@.len(),
                forall|q: int| 0 <= q < p ==> #[trigger] self.free_entity_indexs@[q] != index,
            decreases self.free_entity_indexs@.len() - p,
        {
            p = p + 1;
        }
        if p < self.free_entity_indexs.len() {
            self.free_entity_indexs.remove(p);
            proof {
                let old_free = w0.free_entity_indexs@;
                assert forall|a: int, b: int| 0 <= a < b < self.free_entity_indexs@.len() implies self.free_entity_indexs@[a]
                    != self.free_entity_indexs@[b] by {
                    let a0 = if a < p { a } else { a + 1 };
                    let b0 = if b < p { b } else { b + 1 };
                    assert(old_free[a0] != old_free[b0]);
                }
                assert forall|q: int| 0 <= q < self.free_entity_indexs@.len() implies self.free_entity_indexs@[q] != index by {
                    let q0 = if q < p { q } else { q + 1 };
                    assert(old_free[q0] != old_free[p as int]);
                }
                assert forall|q: int| 0 <= q < self.free_entity_indexs@.len() implies (#[trigger] self.free_entity_indexs@[q])
                    < self.valid_entity_locations@.len() && !self.valid_entity_locations@[self.free_entity_indexs@[q] as int] by {
                    let q0 = if q < p { q } else { q + 1 };
                    assert(old_free[q0] == self.free_entity_indexs@[q]);
                }
            }
        }
        proof {
            assert(!self.free_entity_indexs@.contains(index));
            assert(free_list_wf(self.free_entity_indexs@, self.valid_entity_locations@));
        }
        let ghost wfree = *self;
        // Make room for the index.
        while self.entity_locations.len() <= index
            invariant
                w0.wf(),
                self.archetypes == w0.archetypes,
                self.type_ids_index_map == w0.type_ids_index_map,
                self.free_entity_indexs == wfree.free_entity_indexs,
                self.entity_locations@.len() == self.valid_entity_locations@.len(),
                w0.entity_locations@.len() <= self.entity_locations@.len(),
                self.entity_locations@.len() <= index + 1 || self.entity_locations@.len() == w0.entity_locations@.len(),
                forall|e: int| 0 <= e < w0.entity_locations@.len() ==> #[trigger] self.entity_locations@[e] == w0.entity_locations@[e]
                    && self.valid_entity_locations@[e] == w0.valid_entity_locations@[e],
                forall|e: int| w0.entity_locations@.len() <= e < self.valid_entity_locations@.len() ==> !#[trigger] self.valid_entity_locations@[e],
            decreases index + 1 - self.entity_locations@.len(),
        {
            self.entity_locations.push(EntityLocation { archetype_index: 0, component_index: 0 });
            self.valid_entity_locations.push(false);
        }
        let ghost w1 = *self;
        proof {
            assert forall|e: usize| alive_in(w1.valid_entity_locations@, e) <==> alive_in(w0.valid_entity_locations@, e) by {
                if e < w0.entity_locations@.len() {
                    assert(w1.entity_locations@[e as int] == w0.entity_locations@[e as int]);
                } else if e < w1.entity_locations@.len() {
                    assert(!w1.valid_entity_locations@[e as int]);
                }
            }
            assert forall|e: usize| #[trigger] alive_in(w1.valid_entity_locations@, e) implies w1.entity_locations@[e as int] == w0.entity_locations@[e as int] by {
                if e < w0.entity_locations@.len() {
                    assert(w1.entity_locations@[e as int] == w0.entity_locations@[e as int]);
                } else {
                    assert(!w1.valid_entity_locations@[e as int]);
                }
            }
            assert(locations_wf(w1.archetypes@, w1.entity_locations@, w1.valid_entity_locations@)) by {
                let archs = w1.archetypes@;
                assert forall|a: int, r: int| 0 <= a < archs.len() && 0 <= r < archs[a].entities().len() implies {
                    let e = #[trigger] archs[a].entities()[r];
                    &&& alive_in(w1.valid_entity_locations@, e)
                    &&& w1.entity_locations@[e as int].archetype_index == a
                    &&& w1.entity_locations@[e as int].component_index == r
                } by {
                    let e = archs[a].entities()[r];
                    assert(alive_in(w0.valid_entity_locations@, e));
                    assert(alive_in(w1.valid_entity_locations@, e));
                }
                assert forall|e: usize| #[trigger] alive_in(w1.valid_entity_locations@, e) implies {
                    let l = w1.entity_locations@[e as int];
                    &&& l.archetype_index < archs.len()
                    &&& l.component_index < archs[l.archetype_index as int].entities().len()
                    &&& archs[l.archetype_index as int].entities()[l.component_index as int] == e
                } by {
                    assert(alive_in(w0.valid_entity_locations@, e));
                }
            }
            assert forall|q: int| 0 <= q < w1.free_entity_indexs@.len() implies (#[trigger] w1.free_entity_indexs@[q])
                < w1.valid_entity_locations@.len() && !w1.valid_entity_locations@[w1.free_entity_indexs@[q] as int] by {
                let f = wfree.free_entity_indexs@[q];
                assert(w1.free_entity_indexs@[q] == f);
                assert(f < wfree.valid_entity_locations@.len() && !wfree.valid_entity_locations@[f as int]);
                assert(wfree.valid_entity_locations == w0.valid_entity_locations);
                assert(w1.entity_locations@[f as int] == w0.entity_locations@[f as int]);
                assert(w1.valid_entity_locations@[f as int] == w0.valid_entity_locations@[f as int]);
            }
            assert(free_list_wf(w1.free_entity_indexs@, w1.valid_entity_locations@));
            assert(w1.view() =~= w0.view());
            assert(w1.wf());
        }
        let archetype_index = self.archetype_index_from_infos(type_infos);
        let ghost w2 = *self;
        assert(w2.archetypes@[archetype_index as int].wf());
        proof {
            w2.archetypes@[archetype_index as int].lemma_wf();
        }
        let entity_index = self.archetypes[archetype_index].new_entity(index, components);
        self.entity_locations.set(index, EntityLocation { archetype_index, component_index: entity_index });
        self.valid_entity_locations.set(index, true);
        proof {
            let archs = self.archetypes@;
            let old_archs = w2.archetypes@;
            let ai = archetype_index as int;
            assert forall|a: int| 0 <= a < archs.len() implies (#[trigger] archs[a]).wf() by {
                if a != ai {
                    assert(old_archs[a] == archs[a]);
                    assert(old_archs[a].wf());
                }
            }
            assert(archetypes_wf(archs));
            assert forall|a: int| 0 <= a < archs.len() implies #[trigger] archs[a].ids() == old_archs[a].ids() by {
                if a != ai {
                    assert(old_archs[a] == archs[a]);
                }
            }
            assert(index_map_wf(archs, archetype_index_map_contents(self.type_ids_index_map)));
            assert(self.archetype_ids() =~= w2.archetype_ids());
            assert(w1.archetypes@ == w0.archetypes@);
            assert(w1.archetype_ids() =~= w0.archetype_ids());
            assert(w1.archetypes@ == w0.archetypes@);
            assert(self.archetype_rows() =~= rows_after_add(w0.archetype_rows(), w0.archetype_ids(), info_ids(type_infos@), index)) by {
                if w0.archetype_ids().contains(info_ids(type_infos@)) {
                    assert forall|a: int| 0 <= a < archs.len() implies #[trigger] self.archetype_rows()[a]
                        == rows_after_add(w0.archetype_rows(), w0.archetype_ids(), info_ids(type_infos@), index)[a] by {
                        if a != ai {
                            assert(archs[a] == old_archs[a]);
                        }
                    }
                } else {
                    assert forall|a: int| 0 <= a < archs.len() implies #[trigger] self.archetype_rows()[a]
                        == rows_after_add(w0.archetype_rows(), w0.archetype_ids(), info_ids(type_infos@), index)[a] by {
                        if a != ai {
                            assert(archs[a] == old_archs[a]);
                        } else {
                            assert(archs[a].entities() =~= seq![index]);
                        }
                    }
                }
            }
            let locs = self.entity_locations@;
            let valid = self.valid_entity_locations@;
            assert forall|e: usize| #[trigger] alive_in(valid, e) implies {
                let l = locs[e as int];
                &&& l.archetype_index < archs.len()
                &&& l.component_index < archs[l.archetype_index as int].entities().len()
                &&& archs[l.archetype_index as int].entities()[l.component_index as int] == e
            } by {
                if e != index {
                    assert(alive_in(w2.valid_entity_locations@, e));
                    let l = locs[e as int];
                    if l.archetype_index != archetype_index {
                        assert(archs[l.archetype_index as int] == old_archs[l.archetype_index as int]);
                    }
                }
            }
            assert forall|a: int, r: int| 0 <= a < archs.len() && 0 <= r < archs[a].entities().len() implies {
                let e = #[trigger] archs[a].entities()[r];
                &&& alive_in(valid, e)
                &&& locs[e as int].archetype_index == a
                &&& locs[e as int].component_index == r
            } by {
                if a != ai {
                    assert(archs[a] == old_archs[a]);
                    let e = old_archs[a].entities()[r];
                    assert(alive_in(w2.valid_entity_locations@, e));
                } else if r < old_archs[a].entities().len() {
                    let e = old_archs[a].entities()[r];
                    assert(archs[a].entities()[r] == e);
                    assert(alive_in(w2.valid_entity_locations@, e));
                }
            }
            assert(locations_wf(archs, locs, valid));
            assert forall|q: int| 0 <= q < self.free_entity_indexs@.len() implies (
            #[trigger] self.free_entity_indexs@[q]) < valid.len() && !valid[self.free_entity_indexs@[q] as int] by {
                let f = self.free_entity_indexs@[q];
                assert(f < w2.valid_entity_locations@.len() && !w2.valid_entity_locations@[f as int]);
                assert(f != index);
            }
            assert(free_list_wf(self.free_entity_indexs@, valid));
            let new_map = components_map(info_ids(type_infos@), components@);
            assert forall|e: usize| #[trigger] self.view().dom().contains(e) implies self.view()[e]
                == w0.view().insert(index, new_map)[e] by {
                if e != index {
                    assert(alive_in(w2.valid_entity_locations@, e));
                    let l = locs[e as int];
                    assert(l == w2.entity_locations@[e as int]);
                    if l.archetype_index != archetype_index {
                        assert(archs[l.archetype_index as int] == old_archs[l.archetype_index as int]);
                    } else {
                        assert(archs[ai].row_values(l.component_index as int) == old_archs[ai].row_values(l.component_index as int));
                    }
                    assert(w2.view()[e] == w0.view()[e]);
                }
            }
            assert(self.view().dom() =~= w0.view().insert(index, new_map).dom());
            assert(self.view() =~= w0.view().insert(index, new_map));
        }
    }

    /// Each component of entity `index` with its type id, in increasing id order.
    pub fn entity_components(&self, index: usize) -> (r: Vec<(u64, &C)>)
        requires
            self.wf(),
            self.view().dom().contains(index),
        ensures
            forall|i: int, j: int| 0 <= i < j < r@.len() ==> (#[trigger] r@[i]).0 < (#[trigger] r@[j]).0,
            forall|i: int|
                0 <= i < r@.len() ==> self.view()[index].dom().contains((#[trigger] r@[i]).0) && *r@[i].1
                    == self.view()[index][r@[i].0],
            forall|t: u64| #[trigger] self.view()[index].dom().contains(t) ==> exists|i: int|
                0 <= i < r@.len() && (#[trigger] r@[i]).0 == t,
    {
        proof {
            self.lemma_entity(index);
        }
        let location = self.location(index).unwrap();
        let archetype = &self.archetypes[location.archetype_index];
        let infos = archetype.type_infos();
        let mut result: Vec<(u64, &C)> = Vec::new();
        let mut k: usize = 0;
        while k < infos.len()
            invariant
                archetype.wf(),
                archetype == self.entity_archetype(index),
                location.component_index < archetype.entities().len(),
                self.view()[index] == archetype.row(location.component_index as int),
                infos@ == archetype.infos(),
                strictly_sorted(infos@),
                k <= infos@.len(),
                result@.len() == k,
                forall|i: int| 0 <= i < k ==> (#[trigger] result@[i]).0 == infos@[i].id,
                forall|i: int|
                    0 <= i < k ==> self.view()[index].dom().contains((#[trigger] result@[i]).0) && *result@[i].1
                        == self.view()[index][result@[i].0],
            decreases infos@.len() - k,
        {
            let t = infos[k].id;
            assert(archetype.ids()[k as int] == t);
            let c = archetype.borrow_component(t, location.component_index).unwrap();
            result.push((t, c));
            k = k + 1;
        }
        proof {
            assert forall|i: int, j: int| 0 <= i < j < result@.len() implies (#[trigger] result@[i]).0 < (#[trigger] result@[j]).0 by {
                assert(infos@[i].id < infos@[j].id);
            }
            assert forall|t: u64| #[trigger] self.view()[index].dom().contains(t) implies exists|i: int|
                0 <= i < result@.len() && (#[trigger] result@[i]).0 == t by {
                let i = choose|i: int| 0 <= i < archetype.ids().len() && archetype.ids()[i] == t;
                assert(result@[i].0 == t);
            }
        }
        result
    }

    /// The type infos and components of `components` sorted by type id.
    pub(crate) fn sort_components(components: Vec<(TypeInfo, C)>) -> (r: (Vec<TypeInfo>, Vec<C>))
        requires
            pair_ids(components@).no_duplicates(),
            forall|i: int|
                0 <= i < components@.len() ==> valid_component_layout(#[trigger] components@[i].0.layout),
        ensures
            strictly_sorted(r.0@),
            forall|i: int| 0 <= i < r.0@.len() ==> valid_component_layout(#[trigger] r.0@[i].layout),
            r.1@.len() == r.0@.len(),
            components_map(info_ids(r.0@), r.1@) == pairs_map(components@),
    {
        let ghost all = components@;
        let n = components.len();
        let mut remaining = components;
        let mut sorted: Vec<(TypeInfo, C)> = Vec::new();
        assert(pairs_map(sorted@) =~= pairs_map(all.subrange(n as int, n as int)));
        while remaining.len() > 0
            invariant
                n == all.len(),
                remaining@.len() <= n,
                remaining@ == all.subrange(0, remaining@.len() as int),
                pair_ids(all).no_duplicates(),
                forall|i: int| 0 <= i < all.len() ==> valid_component_layout(#[trigger] all[i].0.layout),
                forall|a: int, b: int|
                    0 <= a < b < sorted@.len() ==> #[trigger] sorted@[a].0.id < #[trigger] sorted@[b].0.id,
                forall|i: int|
                    0 <= i < sorted@.len() ==> valid_component_layout(#[trigger] sorted@[i].0.layout),
                pair_ids(sorted@).no_duplicates(),
                pair_ids(sorted@).len() == sorted@.len(),
                pairs_map(sorted@) == pairs_map(all.subrange(remaining@.len() as int, n as int)),
            decreases remaining@.len(),
        {
            let k = remaining.len() - 1;
            let ghost suffix = all.subrange(k + 1, n as int);
            let ghost suffix2 = all.subrange(k as int, n as int);
            let item = remaining.pop().unwrap();
            assert(item == all[k as int]);
            assert(remaining@ =~= all.subrange(0, k as int));
            let t = item.0.id;
            proof {
                assert(pair_ids(suffix).no_duplicates()) by {
                    assert forall|a: int, b: int| 0 <= a < pair_ids(suffix).len() && 0 <= b < pair_ids(suffix).len() && a != b
                        implies pair_ids(suffix)[a] != pair_ids(suffix)[b] by {
                        assert(pair_ids(all)[a + k + 1] != pair_ids(all)[b + k + 1]);
                    }
                }
                assert(!pair_ids(suffix).contains(t)) by {
                    if pair_ids(suffix).contains(t) {
                        let j = choose|j: int| 0 <= j < pair_ids(suffix).len() && pair_ids(suffix)[j] == t;
                        assert(pair_ids(all)[j + k + 1] == pair_ids(all)[k as int]);
                    }
                }
                assert(pair_ids(suffix2) =~= pair_ids(suffix).insert(0, t));
                assert(pair_values(suffix2) =~= pair_values(suffix).insert(0, item.1));
                lemma_components_map_insert(pair_ids(suffix), pair_values(suffix), 0, t, item.1);
                assert(!pair_ids(sorted@).contains(t)) by {
                    if pair_ids(sorted@).contains(t) {
                        assert(pairs_map(sorted@).dom().contains(t));
                        assert(pairs_map(suffix).dom().contains(t));
                    }
                }
            }
            let mut pos: usize = 0;
            while pos < sorted.len() && sorted[pos].0.id < t
                invariant
                    pos <= sorted@.len(),
                    forall|j: int| 0 <= j < pos ==> #[trigger] sorted@[j].0.id < t,
                decreases sorted@.len() - pos,
            {
                pos = pos + 1;
            }
            let ghost old_sorted = sorted@;
            proof {
                if pos < old_sorted.len() {
                    assert(old_sorted[pos as int].0.id != t) by {
                        assert(pair_ids(old_sorted)[pos as int] == old_sorted[pos as int].0.id);
                    }
                }
            }
            sorted.insert(pos, item);
            proof {
                assert forall|a: int, b: int| 0 <= a < b < sorted@.len() implies #[trigger] sorted@[a].0.id
                    < #[trigger] sorted@[b].0.id by {
                    if a < pos && b < pos {
                        assert(old_sorted[a].0.id < old_sorted[b].0.id);
                    } else if a < pos && b == pos {
                    } else if a < pos && b > pos {
                        assert(old_sorted[a].0.id < old_sorted[b - 1].0.id);
                    } else if a == pos {
                        if b - 1 > pos {
                            assert(old_sorted[pos as int].0.id < old_sorted[b - 1].0.id);
                        }
                    } else {
                        assert(old_sorted[a - 1].0.id < old_sorted[b - 1].0.id);
                    }
                }
                assert(pair_ids(sorted@) =~= pair_ids(old_sorted).insert(pos as int, t));
                assert(pair_values(sorted@) =~= pair_values(old_sorted).insert(pos as int, item.1));
                lemma_components_map_insert(pair_ids(old_sorted), pair_values(old_sorted), pos as int, t, item.1);
            }
        }
        assert(all.subrange(0, n as int) =~= all);
        let ghost sorted_all = sorted@;
        let mut infos: Vec<TypeInfo> = Vec::new();
        let mut values: Vec<C> = Vec::new();
        let m = sorted.len();
        while sorted.len() > 0
            invariant
                m == sorted_all.len(),
                sorted@.len() <= m,
                sorted@ == sorted_all.subrange(m - sorted@.len(), m as int),
                infos@ == sorted_all.subrange(0, m - sorted@.len()).map_values(|p: (TypeInfo, C)| p.0),
                values@ == pair_values(sorted_all.subrange(0, m - sorted@.len())),
            decreases sorted@.len(),
        {
            let ghost i = m - sorted@.len();
            let item = sorted.remove(0);
            assert(item == sorted_all[i]);
            infos.push(item.0);
            values.push(item.1);
            assert(sorted@ =~= sorted_all.subrange(i + 1, m as int));
            assert(infos@ =~= sorted_all.subrange(0, i + 1).map_values(|p: (TypeInfo, C)| p.0));
            assert(values@ =~= pair_values(sorted_all.subrange(0, i + 1)));
        }
        assert(sorted_all.subrange(0, m as int) =~= sorted_all);
        assert(info_ids(infos@) =~= pair_ids(sorted_all));
        (infos, values)
    }
}

/// A read-only handle to one entity of a [`World`].
pub struct EntityRef<'a, C> {
    archetype: &'a Archetype<C>,
    location: EntityLocation,
    index: usize,
}

impl<'a, C> EntityRef<'a, C> {
    pub closed spec fn wf(&self) -> bool {
        self.archetype.wf() && self.location.component_index < self.archetype.entities().len()
    }

    /// The entity's components, by type id.
    pub closed spec fn components(&self) -> Map<u64, C> {
        self.archetype.row(self.location.component_index as int)
    }

    /// The entity's index.
    pub closed spec fn entity_id(&self) -> usize {
        self.index
    }

    /// The entity's component of type `type_id`, if it has one.
    pub fn get(&self, type_id: u64) -> (r: Option<&'a C>)
        requires
            self.wf(),
        ensures
            match r {
                Some(c) => self.components().dom().contains(type_id) && *c == self.components()[type_id],
                None => !self.components().dom().contains(type_id),
            },
    {
        self.archetype.borrow_component(type_id, self.location.component_index)
    }

    /// Whether the entity has a component of type `type_id`.
    pub fn has(&self, type_id: u64) -> (r: bool)
        requires
            self.wf(),
        ensures
            r == self.components().dom().contains(type_id),
    {
        self.archetype.has_component(type_id)
    }

    /// The entity's index.
    pub fn index(&self) -> (r: usize)
        ensures
            r == self.entity_id(),
    {
        self.index
    }
}

impl<C> Default for World<C> {
    fn default() -> (r: World<C>)
        ensures
            r.wf(),
            r.view().is_empty(),
            r.free_indexes().len() == 0,
            r.index_bound() == 0,
            r.archetype_ids().len() == 0,
            r.archetype_rows().len() == 0,
    {
        World::new()
    }
}

/// Law: a component that was just spawned reads back unchanged. If `after` is `before`
/// with entity `e` spawned holding `components` (no type twice), then `e` exists and
/// its component of the type of `components[i]` is that component.
pub proof fn law_spawn_then_read<C>(
    before: World<C>,
    after: World<C>,
    e: usize,
    components: Seq<(TypeInfo, C)>,
    i: int,
)
    requires
        after.view() == before.view().insert(e, pairs_map(components)),
        pair_ids(components).no_duplicates(),
        0 <= i < components.len(),
    ensures
        after.view().dom().contains(e),
        after.view()[e].dom().contains(components[i].0.id),
        after.view()[e][components[i].0.id] == components[i].1,
{
    assert(pair_ids(components)[i] == components[i].0.id);
    assert(pair_values(components)[i] == components[i].1);
    lemma_index_of_distinct(pair_ids(components), i);
}

/// Law: despawning leaves every other entity untouched, and the despawned entity is
/// gone.
pub proof fn law_despawn_keeps_others<C>(before: World<C>, after: World<C>, e: usize, other: usize)
    requires
        after.view() == before.view().remove(e),
        other != e,
    ensures
        !after.view().dom().contains(e),
        after.view().dom().contains(other) == before.view().dom().contains(other),
        before.view().dom().contains(other) ==> after.view()[other] == before.view()[other],
{
}

/// Law: the index of the most recently despawned entity is the one the next spawn
/// hands out.
pub proof fn law_despawned_index_is_reused<C>(before: World<C>, after: World<C>, e: usize)
    requires
        after.free_indexes() == before.free_indexes().push(e),
    ensures
        after.next_index() == e,
{
}

/// Law: adding a component the entity lacks and then removing it again gives back the
/// world as it was before the addition.
pub proof fn law_add_then_remove_restores<C>(
    w0: World<C>,
    w1: World<C>,
    w2: World<C>,
    index: usize,
    type_id: u64,
    c: C,
)
    requires
        w0.view().dom().contains(index),
        !w0.view()[index].dom().contains(type_id),
        w1.view() == w0.view().insert(index, w0.view()[index].insert(type_id, c)),
        w2.view() == w1.view().insert(index, w1.view()[index].remove(type_id)),
    ensures
        w2.view() == w0.view(),
{
    assert(w0.view()[index].insert(type_id, c).remove(type_id) =~= w0.view()[index]);
    assert(w2.view() =~= w0.view());
}

/// Law: the order in which components are given to a spawn does not matter; two lists
/// of the same (id, component) pairs give the same entity.
pub proof fn law_spawn_order_irrelevant<C>(a: Seq<(TypeInfo, C)>, b: Seq<(TypeInfo, C)>)
    requires
        pair_ids(a).no_duplicates(),
        pair_ids(b).no_duplicates(),
        a.to_multiset() == b.to_multiset(),
    ensures
        pairs_map(a) == pairs_map(b),
{
    assert forall|k: u64| #[trigger] pairs_map(a).dom().contains(k) <==> pairs_map(b).dom().contains(k) by {
        if pair_ids(a).contains(k) {
            let i = choose|i: int| 0 <= i < pair_ids(a).len() && pair_ids(a)[i] == k;
            a.to_multiset_ensures();
            b.to_multiset_ensures();
            assert(a.to_multiset().count(a[i]) > 0);
            assert(b.contains(a[i]));
            let j = choose|j: int| 0 <= j < b.len() && b[j] == a[i];
            assert(pair_ids(b)[j] == k);
        }
        if pair_ids(b).contains(k) {
            let i = choose|i: int| 0 <= i < pair_ids(b).len() && pair_ids(b)[i] == k;
            a.to_multiset_ensures();
            b.to_multiset_ensures();
            assert(b.to_multiset().count(b[i]) > 0);
            assert(a.contains(b[i]));
            let j = choose|j: int| 0 <= j < a.len() && a[j] == b[i];
            assert(pair_ids(a)[j] == k);
        }
    }
    assert forall|k: u64| #[trigger] pairs_map(a).dom().contains(k) implies pairs_map(a)[k] == pairs_map(b)[k] by {
        let i = choose|i: int| 0 <= i < pair_ids(a).len() && pair_ids(a)[i] == k;
        a.to_multiset_ensures();
        b.to_multiset_ensures();
        assert(a.to_multiset().count(a[i]) > 0);
        assert(b.contains(a[i]));
        let j = choose|j: int| 0 <= j < b.len() && b[j] == a[i];
        lemma_index_of_distinct(pair_ids(a), i);
        assert(pair_ids(b)[j] == k);
        lemma_index_of_distinct(pair_ids(b), j);
    }
    assert(pairs_map(a) =~= pairs_map(b));
}

} // verus!
