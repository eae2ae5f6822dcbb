use vstd::prelude::*;
use crate::ecs::type_info::{info_ids, strictly_sorted, storable_layout, TypeInfo};
use crate::hashmap::{type_index_map_contents, TypeIndexMap};

verus! {

/// The component of each type id in `ids`, taken from the value at the same position
/// in `values`.
pub open spec fn components_map<C>(ids: Seq<u64>, values: Seq<C>) -> Map<u64, C> {
    Map::new(|k: u64| ids.contains(k), |k: u64| values[ids.index_of(k)])
}

/// In a sequence whose elements are all different, `index_of` finds the one position
/// of each element.
pub proof fn lemma_index_of_distinct<A>(s: Seq<A>, i: int)
    requires
        s.no_duplicates(),
        0 <= i < s.len(),
    ensures
        s.index_of(s[i]) == i,
{
    assert(s.contains(s[i]));
}

/// The ids of strictly sorted type infos are all different.
pub proof fn lemma_sorted_ids_distinct(infos: Seq<TypeInfo>)
    requires
        strictly_sorted(infos),
    ensures
        info_ids(infos).no_duplicates(),
        info_ids(infos).len() == infos.len(),
{
    let ids = info_ids(infos);
    assert forall|i: int, j: int| 0 <= i < ids.len() && 0 <= j < ids.len() && i != j implies ids[i]
        != ids[j] by {
        if i < j {
            assert(infos[i].id < infos[j].id);
        } else {
            assert(infos[j].id < infos[i].id);
        }
    }
}

/// Inserting a new type id and its component at the same position of the id and value
/// sequences inserts that pair into the components map.
pub proof fn lemma_components_map_insert<C>(ids: Seq<u64>, values: Seq<C>, pos: int, t: u64, c: C)
    requires
        ids.no_duplicates(),
        !ids.contains(t),
        values.len() == ids.len(),
        0 <= pos <= ids.len(),
    ensures
        ids.insert(pos, t).no_duplicates(),
        components_map(ids.insert(pos, t), values.insert(pos, c)) == components_map(ids, values).insert(t, c),
{
    let ids2 = ids.insert(pos, t);
    let vals2 = values.insert(pos, c);
    assert forall|i: int, j: int| 0 <= i < ids2.len() && 0 <= j < ids2.len() && i != j implies ids2[i] != ids2[j] by {
        if i == pos {
            if j < pos { assert(ids.contains(ids[j])); } else { assert(ids.contains(ids[j - 1])); }
        } else if j == pos {
            if i < pos { assert(ids.contains(ids[i])); } else { assert(ids.contains(ids[i - 1])); }
        } else {
            let i0 = if i < pos { i } else { i - 1 };
            let j0 = if j < pos { j } else { j - 1 };
            assert(ids[i0] != ids[j0]);
        }
    }
    let m1 = components_map(ids2, vals2);
    let m2 = components_map(ids, values).insert(t, c);
    assert forall|k: u64| #[trigger] m1.dom().contains(k) <==> m2.dom().contains(k) by {
        if ids2.contains(k) && k != t {
            let i = choose|i: int| 0 <= i < ids2.len() && ids2[i] == k;
            if i < pos { assert(ids[i] == k); } else { assert(ids[i - 1] == k); }
        }
        if ids.contains(k) {
            let i = choose|i: int| 0 <= i < ids.len() && ids[i] == k;
            if i < pos { assert(ids2[i] == k); } else { assert(ids2[i + 1] == k); }
        }
        if k == t { assert(ids2[pos] == t); }
    }
    assert forall|k: u64| #[trigger] m1.dom().contains(k) implies m1[k] == m2[k] by {
        if k == t {
            lemma_index_of_distinct(ids2, pos);
        } else {
            let i = choose|i: int| 0 <= i < ids.len() && ids[i] == k;
            lemma_index_of_distinct(ids, i);
            if i < pos {
                assert(ids2[i] == k);
                lemma_index_of_distinct(ids2, i);
            } else {
                assert(ids2[i + 1] == k);
                lemma_index_of_distinct(ids2, i + 1);
            }
        }
    }
    assert(m1 =~= m2);
}

/// Removing the type id and the component at the same position of the id and value
/// sequences removes that id from the components map.
pub proof fn lemma_components_map_remove<C>(ids: Seq<u64>, values: Seq<C>, pos: int)
    requires
        ids.no_duplicates(),
        values.len() == ids.len(),
        0 <= pos < ids.len(),
    ensures
        ids.remove(pos).no_duplicates(),
        components_map(ids.remove(pos), values.remove(pos)) == components_map(ids, values).remove(ids[pos]),
{
    let ids2 = ids.remove(pos);
    let vals2 = values.remove(pos);
    assert forall|i: int, j: int| 0 <= i < ids2.len() && 0 <= j < ids2.len() && i != j implies ids2[i] != ids2[j] by {
        let i0 = if i < pos { i } else { i + 1 };
        let j0 = if j < pos { j } else { j + 1 };
        assert(ids[i0] != ids[j0]);
    }
    let t = ids[pos];
    let m1 = components_map(ids2, vals2);
    let m2 = components_map(ids, values).remove(t);
    assert forall|k: u64| #[trigger] m1.dom().contains(k) <==> m2.dom().contains(k) by {
        if ids2.contains(k) {
            let i = choose|i: int| 0 <= i < ids2.len() && ids2[i] == k;
            if i < pos { assert(ids[i] == k); assert(i != pos); } else { assert(ids[i + 1] == k); assert(i + 1 != pos); }
        }
        if ids.contains(k) && k != t {
            let i = choose|i: int| 0 <= i < ids.len() && ids[i] == k;
            if i < pos { assert(ids2[i] == k); } else { assert(i != pos); assert(ids2[i - 1] == k); }
        }
    }
    assert forall|k: u64| #[trigger] m1.dom().contains(k) implies m1[k] == m2[k] by {
        let i = choose|i: int| 0 <= i < ids2.len() && ids2[i] == k;
        lemma_index_of_distinct(ids2, i);
        if i < pos {
            lemma_index_of_distinct(ids, i);
        } else {
            lemma_index_of_distinct(ids, i + 1);
        }
    }
    assert(m1 =~= m2);
}

/// A column of components that all have the same type.
pub struct ComponentArray<C> {
    type_info: TypeInfo,
    components: Vec<C>,
}

impl<C> ComponentArray<C> {
    /// The type of the components stored in this array.
    pub closed spec fn info(&self) -> TypeInfo {
        self.type_info
    }

    /// The components, in row order.
    pub closed spec fn items(&self) -> Seq<C> {
        self.components@
    }

    /// An empty array for components of `type_info`.
    pub fn new(type_info: TypeInfo) -> (r: ComponentArray<C>)
        ensures
            r.info() == type_info,
            r.items().len() == 0,
    {
        ComponentArray { type_info, components: Vec::new() }
    }

    /// An empty array for components of `type_info` with room for `capacity` of them.
    pub fn with_capacity(type_info: TypeInfo, capacity: usize) -> (r: ComponentArray<C>)
        ensures
            r.info() == type_info,
            r.items().len() == 0,
    {
        ComponentArray { type_info, components: Vec::with_capacity(capacity) }
    }

    /// The stored components as one contiguous slice.
    pub fn get_ptr(&self) -> (r: &[C])
        ensures
            r@ == self.items(),
    {
        self.components.as_slice()
    }

    /// The id of the component type stored in this array.
    pub fn get_type_id(&self) -> (r: u64)
        ensures
            r == self.info().id,
    {
        self.type_info.id
    }

    /// The number of components stored.
    pub fn count(&self) -> (r: usize)
        ensures
            r == self.items().len(),
    {
        self.components.len()
    }

    /// The component in row `index`.
    pub fn get_component_ptr(&self, index: usize) -> (r: &C)
        requires
            index < self.items().len(),
        ensures
            *r == self.items()[index as int],
    {
        &self.components[index]
    }

    /// The component in row `index`, to change in place.
    fn get_component_mut(&mut self, index: usize) -> (r: &mut C)
        requires
            index < old(self).items().len(),
        ensures
            *r == old(self).items()[index as int],
            final(self).info() == old(self).info(),
            final(self).items() == old(self).items().update(index as int, *final(r)),
    {
        &mut self.components[index]
    }

    /// Appends a component at the end of the array.
    fn push_component(&mut self, component: C)
        ensures
            final(self).info() == old(self).info(),
            final(self).items() == old(self).items().push(component),
    {
        self.components.push(component);
    }

    /// Puts `component` into row `index` and returns the component that was there.
    fn replace_component(&mut self, index: usize, component: C) -> (r: C)
        requires
            index < old(self).items().len(),
        ensures
            r == old(self).items()[index as int],
            final(self).info() == old(self).info(),
            final(self).items() == old(self).items().update(index as int, component),
    {
        let mut value = component;
        std::mem::swap(&mut self.components[index], &mut value);
        value
    }

    /// Removes the component in row `index` and moves the last component into its place.
    fn swap_remove(&mut self, index: usize) -> (r: C)
        requires
            index < old(self).items().len(),
        ensures
            r == old(self).items()[index as int],
            final(self).info() == old(self).info(),
            final(self).items() == old(self).items().update(
                index as int,
                old(self).items().last(),
            ).drop_last(),
    {
        self.components.swap_remove(index)
    }
}

impl<C: Clone> Clone for ComponentArray<C> {
    /// A copy of the array, each component cloned.
    fn clone(&self) -> (r: Self)
        ensures
            r.info() == self.info(),
            r.items().len() == self.items().len(),
            forall|i: int| 0 <= i < self.items().len() ==> cloned::<C>(self.items()[i], #[trigger] r.items()[i]),
    {
        ComponentArray { type_info: self.type_info, components: self.components.clone() }
    }
}

/// All the entities that have exactly the same set of component types, stored
/// column by column: one [`ComponentArray`] per type, one row per entity.
pub struct Archetype<C> {
    component_arrays: Vec<ComponentArray<C>>,
    /// Maps a component type id to its index inside `component_arrays`.
    index_map: TypeIndexMap,
    type_infos: Vec<TypeInfo>,
    entity_indexs: Vec<usize>,
}

impl<C: Clone> Clone for Archetype<C> {
    /// A copy of the archetype: the same types and entities, each component cloned.
    fn clone(&self) -> (r: Self)
        ensures
            self.wf() ==> r.wf(),
            r.infos() == self.infos(),
            r.entities() == self.entities(),
            self.wf() ==> forall|row: int, i: int|
                0 <= row < self.entities().len() && 0 <= i < self.infos().len() ==> cloned::<C>(
                    self.row_values(row)[i],
                    #[trigger] r.row_values(row)[i],
                ),
    {
        let mut component_arrays: Vec<ComponentArray<C>> = Vec::new();
        let mut k: usize = 0;
        while k < self.component_arrays.len()
            invariant
                k <= self.component_arrays@.len(),
                component_arrays@.len() == k,
                forall|j: int|
                    0 <= j < k ==> (#[trigger] component_arrays@[j]).info() == self.component_arrays@[j].info()
                        && component_arrays@[j].items().len() == self.component_arrays@[j].items().len()
                        && forall|row: int|
                        0 <= row < self.component_arrays@[j].items().len() ==> cloned::<C>(
                            self.component_arrays@[j].items()[row],
                            #[trigger] component_arrays@[j].items()[row],
                        ),
            decreases self.component_arrays@.len() - k,
        {
            component_arrays.push(self.component_arrays[k].clone());
            k = k + 1;
        }
        let r = Archetype {
            component_arrays,
            index_map: self.index_map.duplicate(),
            type_infos: self.type_infos.clone(),
            entity_indexs: self.entity_indexs.clone(),
        };
        assert(r.type_infos@ =~= self.type_infos@);
        assert(r.entity_indexs@ =~= self.entity_indexs@);
        r
    }
}

impl<C> Archetype<C> {
    pub const START_CAP: usize = 32;

    /// The component types of this archetype, sorted by id.
    pub closed spec fn infos(&self) -> Seq<TypeInfo> {
        self.type_infos@
    }

    /// The component type ids of this archetype, sorted.
    pub open spec fn ids(&self) -> Seq<u64> {
        info_ids(self.infos())
    }

    /// The entity stored in each row.
    pub closed spec fn entities(&self) -> Seq<usize> {
        self.entity_indexs@
    }

    /// The components of row `r`, in the order of [`Self::infos`].
    pub closed spec fn row_values(&self, r: int) -> Seq<C> {
        Seq::new(self.component_arrays@.len(), |i: int| self.component_arrays@[i].items()[r])
    }

    /// The components of row `r`, by type id.
    pub open spec fn row(&self, r: int) -> Map<u64, C> {
        components_map(self.ids(), self.row_values(r))
    }

    pub closed spec fn wf(&self) -> bool {
        let n = self.type_infos@.len();
        let imap = type_index_map_contents(self.index_map);
        &&& strictly_sorted(self.type_infos@)
        &&& forall|i: int| 0 <= i < n ==> storable_layout(#[trigger] self.type_infos@[i].layout)
        &&& self.component_arrays@.len() == n
        &&& forall|i: int|
            0 <= i < n ==> (#[trigger] self.component_arrays@[i]).info() == self.type_infos@[i]
        &&& forall|i: int|
            0 <= i < n ==> (#[trigger] self.component_arrays@[i]).items().len()
                == self.entity_indexs@.len()
        &&& forall|i: int|
            0 <= i < n ==> imap.dom().contains(#[trigger] self.type_infos@[i].id) && imap[self.type_infos@[i].id]
                == i
        &&& forall|k: u64|
            #[trigger] imap.dom().contains(k) ==> imap[k] < n && self.type_infos@[imap[k] as int].id
                == k
    }

    /// What holds of every well-formed archetype.
    pub proof fn lemma_wf(&self)
        requires
            self.wf(),
        ensures
            strictly_sorted(self.infos()),
            self.ids().no_duplicates(),
            self.ids().len() == self.infos().len(),
            forall|i: int|
                0 <= i < self.infos().len() ==> storable_layout(
                    #[trigger] self.infos()[i].layout,
                ),
            forall|r: int| #[trigger] self.row_values(r).len() == self.infos().len(),
    {
        lemma_sorted_ids_distinct(self.infos());
    }

    /// An archetype with no entities for the given component types.
    ///
    /// The types must be sorted by id with no type twice, each with a power-of-two
    /// alignment. Components are held in `Vec`s, which store zero-sized values as well;
    /// the public entry points of the world still refuse zero-sized component types,
    /// while the engine's own metadata type, whose size cannot be stated here, comes
    /// in through this alignment check alone.
    pub(crate) fn new(type_infos: Vec<TypeInfo>) -> (r: Archetype<C>)
        requires
            strictly_sorted(type_infos@),
            forall|i: int|
                0 <= i < type_infos@.len() ==> storable_layout(#[trigger] type_infos@[i].layout),
        ensures
            r.wf(),
            r.infos() == type_infos@,
            r.entities().len() == 0,
    {
        let n = type_infos.len();
        let mut index_map = TypeIndexMap::new();
        let mut component_arrays: Vec<ComponentArray<C>> = Vec::new();
        let mut i: usize = 0;
        while i < n
            invariant
                n == type_infos@.len(),
                i <= n,
                strictly_sorted(type_infos@),
                component_arrays@.len() == i,
                forall|j: int|
                    0 <= j < i ==> (#[trigger] component_arrays@[j]).info() == type_infos@[j]
                        && component_arrays@[j].items().len() == 0,
                forall|j: int|
                    0 <= j < i ==> type_index_map_contents(index_map).dom().contains(
                        #[trigger] type_infos@[j].id,
                    ) && type_index_map_contents(index_map)[type_infos@[j].id] == j,
                forall|k: u64|
                    #[trigger] type_index_map_contents(index_map).dom().contains(k) ==> type_index_map_contents(
                        index_map,
                    )[k] < i && type_infos@[type_index_map_contents(index_map)[k] as int].id == k,
            decreases n - i,
        {
            let info = type_infos[i];
            component_arrays.push(ComponentArray::with_capacity(info, Self::START_CAP));
            proof {
                assert forall|j: int| 0 <= j < i implies type_infos@[j].id != info.id by {
                    assert(type_infos@[j].id < type_infos@[i as int].id);
                }
            }
            index_map.insert(info.id, i);
            i = i + 1;
        }
        Archetype {
            component_arrays,
            index_map,
            type_infos,
            entity_indexs: Vec::with_capacity(Self::START_CAP),
        }
    }

    /// Adds a row for `entity_index` holding `components` (in the order of
    /// [`Self::infos`]) and returns the row.
    pub fn new_entity(&mut self, entity_index: usize, components: Vec<C>) -> (r: usize)
        requires
            old(self).wf(),
            components@.len() == old(self).infos().len(),
        ensures
            final(self).wf(),
            final(self).infos() == old(self).infos(),
            final(self).entities() == old(self).entities().push(entity_index),
            r == old(self).entities().len(),
            forall|row: int|
                0 <= row < old(self).entities().len() ==> #[trigger] final(self).row_values(row)
                    == old(self).row_values(row),
            final(self).row_values(r as int) == components@,
    {
        let ghost old_self = *self;
        let n = components.len();
        let mut comps = components;
        let mut i: usize = n;
        while i > 0
            invariant
                i <= n,
                n == old_self.component_arrays@.len(),
                n == components@.len(),
                old_self.wf(),
                self.component_arrays@.len() == n,
                self.index_map == old_self.index_map,
                self.type_infos == old_self.type_infos,
                self.entity_indexs == old_self.entity_indexs,
                comps@ == components@.subrange(0, i as int),
                forall|j: int|
                    0 <= j < i ==> #[trigger] self.component_arrays@[j] == old_self.component_arrays@[j],
                forall|j: int|
                    i <= j < n ==> (#[trigger] self.component_arrays@[j]).info()
                        == old_self.component_arrays@[j].info() && self.component_arrays@[j].items()
                        == old_self.component_arrays@[j].items().push(components@[j]),
            decreases i,
        {
            i = i - 1;
            let c = comps.pop().unwrap();
            assert(c == components@[i as int]);
            self.component_arrays[i].push_component(c);
            assert(comps@ =~= components@.subrange(0, i as int));
        }
        self.entity_indexs.push(entity_index);
        proof {
            let len = old_self.entity_indexs@.len() as int;
            assert forall|row: int| 0 <= row < len implies #[trigger] self.row_values(row)
                == old_self.row_values(row) by {
                assert(self.row_values(row) =~= old_self.row_values(row));
            }
            assert(self.row_values(len) =~= components@);
        }
        self.entity_indexs.len() - 1
    }

    /// Removes row `component_index`, moving the last row into its place.
    ///
    /// Returns the entity that was in the last row (which now sits in
    /// `component_index`, unless it was the removed row itself) and the removed
    /// components in the order of [`Self::infos`].
    pub fn remove_entity(&mut self, component_index: usize) -> (r: (usize, Vec<C>))
        requires
            old(self).wf(),
            component_index < old(self).entities().len(),
        ensures
            final(self).wf(),
            final(self).infos() == old(self).infos(),
            final(self).entities() == old(self).entities().update(
                component_index as int,
                old(self).entities().last(),
            ).drop_last(),
            r.0 == old(self).entities().last(),
            r.1@ == old(self).row_values(component_index as int),
            forall|row: int|
                0 <= row < final(self).entities().len() ==> #[trigger] final(self).row_values(row)
                    == (if row == component_index {
                    old(self).row_values(old(self).entities().len() - 1)
                } else {
                    old(self).row_values(row)
                }),
    {
        let ghost old_self = *self;
        let n = self.component_arrays.len();
        let mut comps: Vec<C> = Vec::new();
        let mut i: usize = 0;
        while i < n
            invariant
                i <= n,
                n == old_self.component_arrays@.len(),
                self.component_arrays@.len() == n,
                self.index_map == old_self.index_map,
                self.type_infos == old_self.type_infos,
                self.entity_indexs == old_self.entity_indexs,
                component_index < old_self.entity_indexs@.len(),
                old_self.wf(),
                comps@.len() == i,
                forall|j: int|
                    0 <= j < i ==> #[trigger] comps@[j] == old_self.component_arrays@[j].items()[component_index as int],
                forall|j: int|
                    i <= j < n ==> #[trigger] self.component_arrays@[j] == old_self.component_arrays@[j],
                forall|j: int|
                    0 <= j < i ==> (#[trigger] self.component_arrays@[j]).info()
                        == old_self.component_arrays@[j].info() && self.component_arrays@[j].items()
                        == old_self.component_arrays@[j].items().update(
                        component_index as int,
                        old_self.component_arrays@[j].items().last(),
                    ).drop_last(),
            decreases n - i,
        {
            assert(self.component_arrays@[i as int].items().len() == old_self.entity_indexs@.len());
            let c = self.component_arrays[i].swap_remove(component_index);
            comps.push(c);
            i = i + 1;
        }
        let last = self.entity_indexs.len() - 1;
        let moved_index = self.entity_indexs[last];
        self.entity_indexs.swap_remove(component_index);
        proof {
            assert(comps@ =~= old_self.row_values(component_index as int));
            let new_len = self.entity_indexs@.len() as int;
            assert forall|row: int| 0 <= row < new_len implies #[trigger] self.row_values(row) == (
            if row == component_index {
                old_self.row_values(old_self.entity_indexs@.len() - 1)
            } else {
                old_self.row_values(row)
            }) by {
                if row == component_index {
                    assert(self.row_values(row) =~= old_self.row_values(
                        old_self.entity_indexs@.len() - 1,
                    ));
                } else {
                    assert(self.row_values(row) =~= old_self.row_values(row));
                }
            }
        }
        (moved_index, comps)
    }

    /// The component of type `type_id` in row `component_index`, if this archetype has
    /// that type.
    pub fn borrow_component(&self, type_id: u64, component_index: usize) -> (r: Option<&C>)
        requires
            self.wf(),
            component_index < self.entities().len(),
        ensures
            match r {
                Some(c) => self.row(component_index as int).dom().contains(type_id) && *c == self.row(
                    component_index as int,
                )[type_id],
                None => !self.row(component_index as int).dom().contains(type_id),
            },
    {
        proof {
            self.lemma_wf();
        }
        match self.index_map.get(type_id) {
            Some(index) => {
                proof {
                    assert(self.ids()[index as int] == type_id);
                    lemma_index_of_distinct(self.ids(), index as int);
                }
                Some(self.component_arrays[index].get_component_ptr(component_index))
            },
            None => {
                proof {
                    if self.ids().contains(type_id) {
                        let i = choose|i: int| 0 <= i < self.ids().len() && self.ids()[i] == type_id;
                        assert(self.type_infos@[i].id == type_id);
                    }
                }
                None
            },
        }
    }

    /// Whether this archetype stores components of type `type_id`.
    pub fn has_component(&self, type_id: u64) -> (r: bool)
        requires
            self.wf(),
        ensures
            r == self.ids().contains(type_id),
    {
        match self.index_map.get(type_id) {
            Some(index) => {
                assert(self.ids()[index as int] == type_id);
                true
            },
            None => {
                proof {
                    if self.ids().contains(type_id) {
                        let i = choose|i: int| 0 <= i < self.ids().len() && self.ids()[i] == type_id;
                        assert(self.type_infos@[i].id == type_id);
                    }
                }
                false
            },
        }
    }

    /// The array that stores components of type `id`, if this archetype has that type.
    pub fn get_array(&self, id: u64) -> (r: Option<&ComponentArray<C>>)
        requires
            self.wf(),
        ensures
            match r {
                Some(a) => {
                    &&& self.ids().contains(id)
                    &&& a.info().id == id
                    &&& a.items().len() == self.entities().len()
                    &&& forall|row: int|
                        0 <= row < self.entities().len() ==> a.items()[row] == #[trigger] self.row(
                            row,
                        )[id]
                },
                None => !self.ids().contains(id),
            },
    {
        proof {
            self.lemma_wf();
        }
        match self.index_map.get(id) {
            Some(index) => {
                proof {
                    assert(self.ids()[index as int] == id);
                    lemma_index_of_distinct(self.ids(), index as int);
                }
                Some(&self.component_arrays[index])
            },
            None => {
                proof {
                    if self.ids().contains(id) {
                        let i = choose|i: int| 0 <= i < self.ids().len() && self.ids()[i] == id;
                        assert(self.type_infos@[i].id == id);
                    }
                }
                None
            },
        }
    }

    /// The component types of this archetype, sorted by id.
    pub fn type_infos(&self) -> (r: &[TypeInfo])
        ensures
            r@ == self.infos(),
    {
        self.type_infos.as_slice()
    }

    /// The entity in row `component_index`.
    pub fn entity_at(&self, component_index: usize) -> (r: usize)
        requires
            component_index < self.entities().len(),
        ensures
            r == self.entities()[component_index as int],
    {
        self.entity_indexs[component_index]
    }

    /// The number of entities in this archetype.
    pub fn count(&self) -> (r: usize)
        ensures
            r == self.entities().len(),
    {
        self.entity_indexs.len()
    }

    /// The component of type `type_id` in row `component_index`, to change in place; the
    /// rest of the archetype stays as it is.
    pub(crate) fn component_mut(&mut self, type_id: u64, component_index: usize) -> (r: &mut C)
        requires
            old(self).wf(),
            component_index < old(self).entities().len(),
            old(self).ids().contains(type_id),
        ensures
            final(self).wf(),
            final(self).infos() == old(self).infos(),
            final(self).entities() == old(self).entities(),
            *r == old(self).row(component_index as int)[type_id],
            final(self).row(component_index as int) == old(self).row(component_index as int).insert(
                type_id,
                *final(r),
            ),
            forall|row: int|
                0 <= row < old(self).entities().len() && row != component_index ==> #[trigger] final(self).row_values(row) == old(self).row_values(row),
    {
        let ghost old_self = *self;
        proof {
            self.lemma_wf();
            let i = choose|i: int| 0 <= i < self.ids().len() && self.ids()[i] == type_id;
            assert(self.type_infos@[i].id == type_id);
        }
        let index = self.index_map.get(type_id).unwrap();
        proof {
            assert(self.ids()[index as int] == type_id);
            lemma_index_of_distinct(self.ids(), index as int);
        }
        assert(self.component_arrays@[index as int].items().len() == self.entity_indexs@.len());
        let r = self.component_arrays[index].get_component_mut(component_index);
        r
    }

    /// Puts `component` in place of the component of type `type_id` in row
    /// `component_index`, and returns the component that was there.
    pub fn replace_component(&mut self, type_id: u64, component_index: usize, component: C) -> (r: C)
        requires
            old(self).wf(),
            component_index < old(self).entities().len(),
            old(self).ids().contains(type_id),
        ensures
            final(self).wf(),
            final(self).infos() == old(self).infos(),
            final(self).entities() == old(self).entities(),
            r == old(self).row(component_index as int)[type_id],
            final(self).row(component_index as int) == old(self).row(component_index as int).insert(
                type_id,
                component,
            ),
            forall|row: int|
                0 <= row < old(self).entities().len() && row != component_index ==> #[trigger] final(self).row_values(row) == old(self).row_values(row),
    {
        let ghost old_self = *self;
        proof {
            self.lemma_wf();
            let i = choose|i: int| 0 <= i < self.ids().len() && self.ids()[i] == type_id;
            assert(self.type_infos@[i].id == type_id);
        }
        let index = self.index_map.get(type_id).unwrap();
        proof {
            assert(self.ids()[index as int] == type_id);
            lemma_index_of_distinct(self.ids(), index as int);
        }
        assert(self.component_arrays@[index as int].items().len() == self.entity_indexs@.len());
        let r = self.component_arrays[index].replace_component(component_index, component);
        proof {
            let ci = component_index as int;
            assert forall|row: int| 0 <= row < old_self.entity_indexs@.len() && row != ci implies #[trigger] self.row_values(row)
                == old_self.row_values(row) by {
                assert(self.row_values(row) =~= old_self.row_values(row));
            }
            assert(self.row_values(ci) =~= old_self.row_values(ci).update(index as int, component));
            let m1 = self.row(ci);
            let m2 = old_self.row(ci).insert(type_id, component);
            assert forall|k: u64| #[trigger] m1.dom().contains(k) implies m1[k] == m2[k] by {
                let j = choose|j: int| 0 <= j < self.ids().len() && self.ids()[j] == k;
                lemma_index_of_distinct(self.ids(), j);
            }
            assert(m1 =~= m2);
        }
        r
    }
}

} // verus!
