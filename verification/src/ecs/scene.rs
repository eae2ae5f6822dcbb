use vstd::prelude::*;
use crate::ecs::archetype::{components_map, lemma_index_of_distinct};
use crate::ecs::components::{EntityId, MetaDataComponent};
use crate::ecs::type_info::{info_ids, storable_layout, valid_component_layout, TypeInfo};
use crate::ecs::world::{cloned_view, pair_ids, pairs_map, EntityRef, World};

verus! {

/// A component stored in a scene: the entity's metadata, or one of the user's components.
#[derive(Debug, Clone)]
pub enum SceneComponent<C> {
    MetaData(MetaDataComponent),
    Other(C),
}

/// The metadata of entity `e`, if it exists and has some.
pub open spec fn meta_of<C>(
    view: Map<usize, Map<u64, SceneComponent<C>>>,
    meta_id: u64,
    e: usize,
) -> Option<MetaDataComponent> {
    if view.dom().contains(e) && view[e].dom().contains(meta_id) {
        match view[e][meta_id] {
            SceneComponent::MetaData(m) => Some(m),
            SceneComponent::Other(_) => None,
        }
    } else {
        None
    }
}

/// The entities visited when walking `children` in order, each child after everything
/// below it, going at most `fuel` levels further down.
pub open spec fn descendants<C>(
    view: Map<usize, Map<u64, SceneComponent<C>>>,
    meta_id: u64,
    children: Seq<usize>,
    fuel: nat,
) -> Seq<usize>
    decreases fuel, children.len(),
{
    if children.len() == 0 {
        Seq::empty()
    } else {
        let c = children.last();
        let below = if fuel > 0 {
            match meta_of(view, meta_id, c) {
                Some(m) => descendants(view, meta_id, m.children@, (fuel - 1) as nat),
                None => Seq::empty(),
            }
        } else {
            Seq::empty()
        };
        descendants(view, meta_id, children.drop_last(), fuel) + below.push(c)
    }
}

/// The parents of `e` up to but not including the root, the topmost first, going at
/// most `fuel` levels up.
pub open spec fn ancestors<C>(
    view: Map<usize, Map<u64, SceneComponent<C>>>,
    meta_id: u64,
    e: usize,
    fuel: nat,
) -> Seq<usize>
    decreases fuel,
{
    match meta_of(view, meta_id, e) {
        Some(m) => if m.parent != 0 && fuel > 0 {
            ancestors(view, meta_id, m.parent, (fuel - 1) as nat).push(m.parent)
        } else {
            Seq::empty()
        },
        None => Seq::empty(),
    }
}

/// `chain` is the whole parent chain of `e`, topmost first: `e` has metadata, every
/// element is an entity with metadata other than the root, the last element is `e`'s
/// parent, each element's parent is the element before it, and the first element's
/// parent is the root. It is empty exactly when `e`'s parent is the root.
pub open spec fn is_parent_chain<C>(
    view: Map<usize, Map<u64, SceneComponent<C>>>,
    meta_id: u64,
    e: usize,
    chain: Seq<usize>,
) -> bool {
    &&& meta_of(view, meta_id, e) is Some
    &&& forall|i: int|
        0 <= i < chain.len() ==> #[trigger] chain[i] != 0 && meta_of(view, meta_id, chain[i]) is Some
    &&& if chain.len() == 0 {
        meta_of(view, meta_id, e).unwrap().parent == 0
    } else {
        &&& meta_of(view, meta_id, e).unwrap().parent == chain.last()
        &&& meta_of(view, meta_id, chain[0]).unwrap().parent == 0
        &&& forall|i: int|
            1 <= i < chain.len() ==> meta_of(view, meta_id, #[trigger] chain[i]).unwrap().parent
                == chain[i - 1]
    }
}

/// With at least as much fuel as the chain is long, the walk up gives the whole chain.
proof fn lemma_ancestors_of_chain<C>(
    view: Map<usize, Map<u64, SceneComponent<C>>>,
    meta_id: u64,
    e: usize,
    chain: Seq<usize>,
    fuel: nat,
)
    requires
        is_parent_chain(view, meta_id, e, chain),
        chain.len() <= fuel,
    ensures
        ancestors(view, meta_id, e, fuel) == chain,
    decreases chain.len(),
{
    if chain.len() > 0 {
        let p = chain.last();
        let rest = chain.drop_last();
        assert(chain[chain.len() - 1] != 0);
        assert(is_parent_chain(view, meta_id, p, rest)) by {
            assert(meta_of(view, meta_id, chain[chain.len() - 1]) is Some);
            assert forall|i: int| 0 <= i < rest.len() implies #[trigger] rest[i] != 0 && meta_of(
                view,
                meta_id,
                rest[i],
            ) is Some by {
                assert(rest[i] == chain[i]);
            }
            if rest.len() > 0 {
                assert(rest[0] == chain[0]);
                assert(meta_of(view, meta_id, chain[chain.len() - 1]).unwrap().parent == chain[chain.len() - 2]);
                assert forall|i: int| 1 <= i < rest.len() implies meta_of(view, meta_id, #[trigger] rest[i]).unwrap().parent
                    == rest[i - 1] by {
                    assert(rest[i] == chain[i]);
                    assert(rest[i - 1] == chain[i - 1]);
                }
            }
        }
        lemma_ancestors_of_chain(view, meta_id, p, rest, (fuel - 1) as nat);
        assert(rest.push(p) =~= chain);
    }
}

/// A parent chain never visits an entity twice: each entity has one parent and the
/// chain ends at the root, so a repeat would have to reach the root early.
proof fn lemma_parent_chain_repeat<C>(
    view: Map<usize, Map<u64, SceneComponent<C>>>,
    meta_id: u64,
    e: usize,
    chain: Seq<usize>,
    i: int,
    j: int,
)
    requires
        is_parent_chain(view, meta_id, e, chain),
        0 <= i < j < chain.len(),
    ensures
        chain[i] != chain[j],
    decreases i,
{
    assert(chain[j] != 0);
    assert(meta_of(view, meta_id, chain[j]).unwrap().parent == chain[j - 1]);
    assert(chain[j - 1] != 0);
    if i > 0 {
        assert(meta_of(view, meta_id, chain[i]).unwrap().parent == chain[i - 1]);
        lemma_parent_chain_repeat(view, meta_id, e, chain, i - 1, j - 1);
    }
}

/// A parent chain of a world's entities is no longer than the world's index bound.
proof fn lemma_parent_chain_len<C>(
    world: World<SceneComponent<C>>,
    meta_id: u64,
    e: usize,
    chain: Seq<usize>,
)
    requires
        world.wf(),
        is_parent_chain(world.view(), meta_id, e, chain),
    ensures
        chain.len() <= world.index_bound(),
{
    world.lemma_dom_bounded();
    let ints = chain.map_values(|x: usize| x as int);
    assert(ints.no_duplicates()) by {
        assert forall|i: int, j: int| 0 <= i < ints.len() && 0 <= j < ints.len() && i != j implies ints[i]
            != ints[j] by {
            if i < j {
                lemma_parent_chain_repeat(world.view(), meta_id, e, chain, i, j);
            } else {
                lemma_parent_chain_repeat(world.view(), meta_id, e, chain, j, i);
            }
        }
    }
    ints.unique_seq_to_set();
    let bound = world.index_bound() as int;
    vstd::set_lib::lemma_int_range(0, bound);
    assert(ints.to_set().subset_of(vstd::set_lib::set_int_range(0, bound))) by {
        assert forall|x: int| ints.to_set().contains(x) implies vstd::set_lib::set_int_range(0, bound).contains(x) by {
            let i = choose|i: int| 0 <= i < ints.len() && ints[i] == x;
            assert(meta_of(world.view(), meta_id, chain[i]) is Some);
            assert(world.view().dom().contains(chain[i]));
        }
    }
    vstd::set_lib::lemma_len_subset(ints.to_set(), vstd::set_lib::set_int_range(0, bound));
}

/// Law: in a scene, the walk up from an entity lists its whole parent chain. Whenever
/// `chain` is the chain of parents of `e` up to the root, topmost first, the parents
/// that `for_each_parent` reports are exactly `chain`, however deep it is.
pub proof fn law_parents_are_the_whole_chain<C>(s: Scene<C>, e: EntityId, chain: Seq<usize>)
    requires
        s.wf(),
        is_parent_chain(s.view(), s.meta_id(), e, chain),
    ensures
        ancestors(s.view(), s.meta_id(), e, s.fuel()) == chain,
{
    lemma_parent_chain_len(s.world, s.meta_id(), e, chain);
    lemma_ancestors_of_chain(s.view(), s.meta_id(), e, chain, s.fuel());
}

/// The user's components of a spawn, stored as scene components.
pub open spec fn wrap_pairs<C>(pairs: Seq<(TypeInfo, C)>) -> Seq<(TypeInfo, SceneComponent<C>)> {
    pairs.map_values(|p: (TypeInfo, C)| (p.0, SceneComponent::Other(p.1)))
}

fn copy_ids(ids: &Vec<EntityId>) -> (r: Vec<EntityId>)
    ensures
        r@ == ids@,
{
    let mut r: Vec<EntityId> = Vec::new();
    let mut i: usize = 0;
    while i < ids.len()
        invariant
            i <= ids@.len(),
            r@ == ids@.subrange(0, i as int),
        decreases ids@.len() - i,
    {
        r.push(ids[i]);
        i = i + 1;
        assert(r@ =~= ids@.subrange(0, i as int));
    }
    assert(r@ =~= ids@);
    r
}

/// Where `x` first occurs in `s`, or -1 if it does not occur.
pub open spec fn first_position(s: Seq<usize>, x: usize) -> int
    decreases s.len(),
{
    if s.len() == 0 {
        -1
    } else if s[0] == x {
        0
    } else {
        let r = first_position(s.drop_first(), x);
        if r < 0 {
            -1
        } else {
            r + 1
        }
    }
}

proof fn lemma_first_position(s: Seq<usize>, x: usize, k: int)
    requires
        0 <= k <= s.len(),
        forall|j: int| 0 <= j < k ==> s[j] != x,
        k < s.len() ==> s[k] == x,
    ensures
        first_position(s, x) == (if k < s.len() { k } else { -1 }),
    decreases s.len(),
{
    if s.len() > 0 && s[0] != x {
        assert forall|j: int| 0 <= j < k - 1 implies s.drop_first()[j] != x by {
            assert(s[j + 1] != x);
        }
        lemma_first_position(s.drop_first(), x, k - 1);
    }
}

/// The parent a spawn attaches to: the one given, or the root.
pub open spec fn parent_or_root(parent_id: Option<EntityId>) -> EntityId {
    match parent_id {
        Some(p) => p,
        None => 0,
    }
}

/// Whether `components` can be spawned under `parent`: no type twice, each a valid
/// layout, none of them metadata, and the parent has metadata.
pub open spec fn can_spawn<C>(scene: Scene<C>, components: Seq<(TypeInfo, C)>, parent: EntityId) -> bool {
    &&& pair_ids(components).no_duplicates()
    &&& forall|i: int| 0 <= i < components.len() ==> valid_component_layout(#[trigger] components[i].0.layout)
    &&& !pair_ids(components).contains(scene.meta_id())
    &&& meta_of(scene.view(), scene.meta_id(), parent) is Some
}

/// `after` is `before` with entity `r` spawned, named `name`, with `components`, as the
/// last child of `parent`.
pub open spec fn spawned<C>(
    before: Scene<C>,
    after: Scene<C>,
    name: Seq<char>,
    components: Seq<(TypeInfo, C)>,
    parent: EntityId,
    r: EntityId,
) -> bool {
    let meta_id = before.meta_id();
    let pm = meta_of(before.view(), meta_id, parent).unwrap();
    &&& after.meta_info == before.meta_info
    &&& r == before.world.next_index()
    &&& !before.view().dom().contains(r)
    &&& after.view().dom() == before.view().dom().insert(r)
    &&& meta_of(after.view(), meta_id, r) matches Some(m) && m.name@ == name && m.children@ == Seq::<EntityId>::empty()
        && m.parent == parent
    &&& after.view()[r].remove(meta_id) == pairs_map(wrap_pairs(components))
    &&& meta_of(after.view(), meta_id, parent) matches Some(m) && m.name@ == pm.name@ && m.children@ == pm.children@.push(r)
        && m.parent == pm.parent
    &&& after.view()[parent].remove(meta_id) == before.view()[parent].remove(meta_id)
    &&& forall|e: usize|
        before.view().dom().contains(e) && e != parent ==> #[trigger] after.view()[e] == before.view()[e]
}

/// Whether entity `id` can be despawned: it has metadata, and everything below it exists
/// and is listed once, without `id` itself.
pub open spec fn can_despawn<C>(scene: Scene<C>, id: EntityId) -> bool {
    let m = meta_of(scene.view(), scene.meta_id(), id).unwrap();
    let d = descendants(scene.view(), scene.meta_id(), m.children@, scene.fuel());
    &&& meta_of(scene.view(), scene.meta_id(), id) is Some
    &&& d.no_duplicates()
    &&& forall|i: int| 0 <= i < d.len() ==> scene.view().dom().contains(#[trigger] d[i])
    &&& !d.contains(id)
}

/// `after` is `before` with entity `id` and everything below it despawned, and `id`
/// taken out of its parent's children.
pub open spec fn despawned<C>(before: Scene<C>, after: Scene<C>, id: EntityId) -> bool {
    let v0 = before.view();
    let v = after.view();
    let meta_id = before.meta_id();
    let m = meta_of(v0, meta_id, id).unwrap();
    let d = descendants(v0, meta_id, m.children@, before.fuel());
    let p = m.parent;
    &&& after.meta_info == before.meta_info
    &&& v.dom() == v0.dom().difference(d.to_set()).remove(id)
    &&& forall|e: usize| #[trigger] v.dom().contains(e) && e != p ==> v[e] == v0[e]
    &&& v.dom().contains(p) ==> match meta_of(v0, meta_id, p) {
        Some(pm) => {
            let k = first_position(pm.children@, id);
            &&& meta_of(v, meta_id, p) matches Some(pm2) && pm2.name@ == pm.name@ && pm2.parent == pm.parent
                && pm2.children@ == (if k >= 0 { pm.children@.remove(k) } else { pm.children@ })
            &&& v[p].remove(meta_id) == v0[p].remove(meta_id)
        },
        None => v[p] == v0[p],
    }
    &&& after.world.free_indexes() == before.world.free_indexes() + d.push(id)
}

/// Whether entity `e` has metadata.
pub open spec fn has_meta<C>(view: Map<usize, Map<u64, SceneComponent<C>>>, meta_id: u64, e: usize) -> bool {
    meta_of(view, meta_id, e) is Some
}

/// The parent that entity `e`'s metadata names.
pub open spec fn parent_of<C>(view: Map<usize, Map<u64, SceneComponent<C>>>, meta_id: u64, e: usize) -> usize {
    meta_of(view, meta_id, e).unwrap().parent
}

/// The children that entity `e`'s metadata lists.
pub open spec fn children_of<C>(view: Map<usize, Map<u64, SceneComponent<C>>>, meta_id: u64, e: usize) -> Seq<usize> {
    meta_of(view, meta_id, e).unwrap().children@
}

/// The hierarchy agrees with itself: every listed child has metadata naming its parent,
/// every entity but the root is listed among its parent's children, and no child is
/// listed twice.
pub open spec fn hierarchy_consistent<C>(view: Map<usize, Map<u64, SceneComponent<C>>>, meta_id: u64) -> bool {
    &&& forall|e: usize, i: int|
        has_meta(view, meta_id, e) && 0 <= i < children_of(view, meta_id, e).len() ==> {
            let c = #[trigger] children_of(view, meta_id, e)[i];
            has_meta(view, meta_id, c) && parent_of(view, meta_id, c) == e
        }
    &&& forall|e: usize|
        #[trigger] has_meta(view, meta_id, e) && e != 0 ==> has_meta(view, meta_id, parent_of(view, meta_id, e))
            && children_of(view, meta_id, parent_of(view, meta_id, e)).contains(e)
    &&& forall|e: usize| #[trigger] has_meta(view, meta_id, e) ==> children_of(view, meta_id, e).no_duplicates()
}

/// Law: spawning keeps the hierarchy consistent.
pub proof fn law_spawn_keeps_hierarchy<C>(
    s0: Scene<C>,
    s1: Scene<C>,
    name: Seq<char>,
    components: Seq<(TypeInfo, C)>,
    parent: EntityId,
    r: EntityId,
)
    requires
        hierarchy_consistent(s0.view(), s0.meta_id()),
        meta_of(s0.view(), s0.meta_id(), parent) is Some,
        spawned(s0, s1, name, components, parent, r),
    ensures
        hierarchy_consistent(s1.view(), s1.meta_id()),
{
    let v0 = s0.view();
    let v1 = s1.view();
    let mid = s0.meta_id();
    assert(s1.meta_id() == mid);
    let pm = meta_of(v0, mid, parent).unwrap();
    assert(has_meta(v1, mid, parent));
    assert(children_of(v1, mid, parent) == pm.children@.push(r));
    assert(parent_of(v1, mid, parent) == pm.parent);
    assert(has_meta(v1, mid, r) && parent_of(v1, mid, r) == parent && children_of(v1, mid, r).len() == 0);
    // Entities other than the parent and the new one keep their metadata.
    assert forall|e: usize| e != parent && e != r implies #[trigger] meta_of(v1, mid, e) == meta_of(v0, mid, e) by {
        if v0.dom().contains(e) {
            assert(v1[e] == v0[e]);
        } else {
            assert(!v1.dom().contains(e));
        }
    }
    assert forall|e: usize, i: int|
        has_meta(v1, mid, e) && 0 <= i < children_of(v1, mid, e).len() implies {
            let c = #[trigger] children_of(v1, mid, e)[i];
            has_meta(v1, mid, c) && parent_of(v1, mid, c) == e
        } by {
        let c = children_of(v1, mid, e)[i];
        if e == parent {
            if i < pm.children@.len() {
                assert(c == children_of(v0, mid, parent)[i]);
                assert(has_meta(v0, mid, c) && parent_of(v0, mid, c) == parent);
                assert(c != r);
                if c != parent {
                    assert(meta_of(v1, mid, c) == meta_of(v0, mid, c));
                }
            } else {
                assert(c == r);
            }
        } else {
            assert(e != r);
            assert(meta_of(v1, mid, e) == meta_of(v0, mid, e));
            assert(c == children_of(v0, mid, e)[i]);
            assert(has_meta(v0, mid, c) && parent_of(v0, mid, c) == e);
            assert(c != r);
            if c != parent {
                assert(meta_of(v1, mid, c) == meta_of(v0, mid, c));
            }
        }
    }
    assert forall|e: usize|
        #[trigger] has_meta(v1, mid, e) && e != 0 implies has_meta(v1, mid, parent_of(v1, mid, e))
            && children_of(v1, mid, parent_of(v1, mid, e)).contains(e) by {
        if e == r {
            assert(children_of(v1, mid, parent)[pm.children@.len() as int] == r);
        } else {
            if e != parent {
                assert(meta_of(v1, mid, e) == meta_of(v0, mid, e));
            }
            assert(has_meta(v0, mid, e));
            let q = parent_of(v0, mid, e);
            assert(parent_of(v1, mid, e) == q);
            assert(has_meta(v0, mid, q) && children_of(v0, mid, q).contains(e));
            let k = choose|k: int| 0 <= k < children_of(v0, mid, q).len() && children_of(v0, mid, q)[k] == e;
            if q == parent {
                assert(children_of(v1, mid, q)[k] == e);
            } else {
                assert(q != r);
                assert(meta_of(v1, mid, q) == meta_of(v0, mid, q));
                assert(children_of(v1, mid, q)[k] == e);
            }
        }
    }
    assert forall|e: usize| #[trigger] has_meta(v1, mid, e) implies children_of(v1, mid, e).no_duplicates() by {
        if e == parent {
            assert(has_meta(v0, mid, parent));
            assert(children_of(v0, mid, parent).no_duplicates());
            assert forall|i: int| 0 <= i < pm.children@.len() implies #[trigger] pm.children@[i] != r by {
                assert(has_meta(v0, mid, children_of(v0, mid, parent)[i]));
            }
            let ch = pm.children@.push(r);
            assert forall|i: int, j: int| 0 <= i < ch.len() && 0 <= j < ch.len() && i != j implies ch[i] != ch[j] by {
                if i < pm.children@.len() && j < pm.children@.len() {
                    assert(pm.children@[i] != pm.children@[j]);
                } else if i < pm.children@.len() {
                    assert(pm.children@[i] != r);
                } else {
                    assert(pm.children@[j] != r);
                }
            }
        } else if e != r {
            assert(meta_of(v1, mid, e) == meta_of(v0, mid, e));
            assert(has_meta(v0, mid, e));
        } else {
            assert(children_of(v1, mid, r).len() == 0);
        }
    }
}

/// Where `x` first occurs, if anywhere: `first_position` is -1 exactly when `x` does
/// not occur, and otherwise a position holding `x`.
proof fn lemma_first_position_occurs(s: Seq<usize>, x: usize)
    ensures
        first_position(s, x) < 0 <==> !s.contains(x),
        first_position(s, x) >= 0 ==> first_position(s, x) < s.len() && s[first_position(s, x)] == x,
    decreases s.len(),
{
    if s.len() > 0 {
        lemma_first_position_occurs(s.drop_first(), x);
        if s[0] != x {
            if s.contains(x) {
                let j = choose|j: int| 0 <= j < s.len() && s[j] == x;
                assert(s.drop_first()[j - 1] == x);
            }
            if s.drop_first().contains(x) {
                let j = choose|j: int| 0 <= j < s.drop_first().len() && s.drop_first()[j] == x;
                assert(s[j + 1] == x);
            }
        }
    }
}

/// Whether the walk below `children` stops at some entity that still has children,
/// because the levels ran out.
pub open spec fn walk_cut<C>(
    view: Map<usize, Map<u64, SceneComponent<C>>>,
    meta_id: u64,
    children: Seq<usize>,
    fuel: nat,
) -> bool
    decreases fuel, children.len(),
{
    if children.len() == 0 {
        false
    } else {
        let c = children.last();
        walk_cut(view, meta_id, children.drop_last(), fuel) || match meta_of(view, meta_id, c) {
            Some(m) => if fuel > 0 {
                walk_cut(view, meta_id, m.children@, (fuel - 1) as nat)
            } else {
                m.children@.len() > 0
            },
            None => false,
        }
    }
}

/// The walk visits every entity of the list it starts from.
proof fn lemma_descendants_cover_list<C>(
    view: Map<usize, Map<u64, SceneComponent<C>>>,
    meta_id: u64,
    children: Seq<usize>,
    fuel: nat,
    x: usize,
)
    requires
        children.contains(x),
    ensures
        descendants(view, meta_id, children, fuel).contains(x),
    decreases children.len(),
{
    let d = descendants(view, meta_id, children, fuel);
    let rest = descendants(view, meta_id, children.drop_last(), fuel);
    if children.last() == x {
        assert(d[d.len() - 1] == x);
    } else {
        let j = choose|j: int| 0 <= j < children.len() && children[j] == x;
        assert(children.drop_last()[j] == x);
        lemma_descendants_cover_list(view, meta_id, children.drop_last(), fuel, x);
        let k = choose|k: int| 0 <= k < rest.len() && rest[k] == x;
        assert(d[k] == x);
    }
}

/// Every entity the walk visits is in the list it starts from, or a child of another
/// visited entity.
proof fn lemma_descendants_have_parent<C>(
    view: Map<usize, Map<u64, SceneComponent<C>>>,
    meta_id: u64,
    children: Seq<usize>,
    fuel: nat,
    x: usize,
)
    requires
        descendants(view, meta_id, children, fuel).contains(x),
    ensures
        children.contains(x) || exists|y: usize|
            descendants(view, meta_id, children, fuel).contains(y) && has_meta(view, meta_id, y)
                && #[trigger] children_of(view, meta_id, y).contains(x),
    decreases fuel, children.len(),
{
    let d = descendants(view, meta_id, children, fuel);
    let c = children.last();
    let rest = descendants(view, meta_id, children.drop_last(), fuel);
    let below = if fuel > 0 {
        match meta_of(view, meta_id, c) {
            Some(m) => descendants(view, meta_id, m.children@, (fuel - 1) as nat),
            None => Seq::empty(),
        }
    } else {
        Seq::empty()
    };
    assert(d == rest + below.push(c));
    let k = choose|k: int| 0 <= k < d.len() && d[k] == x;
    if k < rest.len() {
        assert(rest[k] == x);
        lemma_descendants_have_parent(view, meta_id, children.drop_last(), fuel, x);
        if children.drop_last().contains(x) {
            let j = choose|j: int| 0 <= j < children.drop_last().len() && children.drop_last()[j] == x;
            assert(children[j] == x);
        } else {
            let y = choose|y: usize|
                rest.contains(y) && has_meta(view, meta_id, y) && #[trigger] children_of(view, meta_id, y).contains(x);
            let i = choose|i: int| 0 <= i < rest.len() && rest[i] == y;
            assert(d[i] == y);
        }
    } else if k == d.len() - 1 {
        assert(children[children.len() - 1] == x);
    } else {
        let m = meta_of(view, meta_id, c).unwrap();
        assert(below[k - rest.len()] == x);
        assert(d[d.len() - 1] == c);
        lemma_descendants_have_parent(view, meta_id, m.children@, (fuel - 1) as nat, x);
        if m.children@.contains(x) {
            assert(has_meta(view, meta_id, c) && children_of(view, meta_id, c).contains(x));
        } else {
            let y = choose|y: usize|
                below.contains(y) && has_meta(view, meta_id, y) && #[trigger] children_of(view, meta_id, y).contains(x);
            let i = choose|i: int| 0 <= i < below.len() && below[i] == y;
            assert(d[rest.len() + i] == y);
        }
    }
}

/// When the walk is not cut, the children of every visited entity are visited too.
proof fn lemma_descendants_closed<C>(
    view: Map<usize, Map<u64, SceneComponent<C>>>,
    meta_id: u64,
    children: Seq<usize>,
    fuel: nat,
    y: usize,
    x: usize,
)
    requires
        !walk_cut(view, meta_id, children, fuel),
        descendants(view, meta_id, children, fuel).contains(y),
        has_meta(view, meta_id, y),
        children_of(view, meta_id, y).contains(x),
    ensures
        descendants(view, meta_id, children, fuel).contains(x),
    decreases fuel, children.len(),
{
    let d = descendants(view, meta_id, children, fuel);
    let c = children.last();
    let rest = descendants(view, meta_id, children.drop_last(), fuel);
    let below = if fuel > 0 {
        match meta_of(view, meta_id, c) {
            Some(m) => descendants(view, meta_id, m.children@, (fuel - 1) as nat),
            None => Seq::empty(),
        }
    } else {
        Seq::empty()
    };
    assert(d == rest + below.push(c));
    let k = choose|k: int| 0 <= k < d.len() && d[k] == y;
    if k < rest.len() {
        assert(rest[k] == y);
        lemma_descendants_closed(view, meta_id, children.drop_last(), fuel, y, x);
        let i = choose|i: int| 0 <= i < rest.len() && rest[i] == x;
        assert(d[i] == x);
    } else {
        let m = meta_of(view, meta_id, c).unwrap();
        if k == d.len() - 1 {
            assert(y == c);
            lemma_descendants_cover_list(view, meta_id, m.children@, (fuel - 1) as nat, x);
        } else {
            assert(below[k - rest.len()] == y);
            lemma_descendants_closed(view, meta_id, m.children@, (fuel - 1) as nat, y, x);
        }
        let i = choose|i: int| 0 <= i < below.len() && below[i] == x;
        assert(d[rest.len() + i] == x);
    }
}

/// A cut walk visits more entities than it has levels.
proof fn lemma_cut_walk_is_long<C>(
    view: Map<usize, Map<u64, SceneComponent<C>>>,
    meta_id: u64,
    children: Seq<usize>,
    fuel: nat,
)
    requires
        walk_cut(view, meta_id, children, fuel),
    ensures
        descendants(view, meta_id, children, fuel).len() >= fuel + 1,
    decreases fuel, children.len(),
{
    let c = children.last();
    if walk_cut(view, meta_id, children.drop_last(), fuel) {
        lemma_cut_walk_is_long(view, meta_id, children.drop_last(), fuel);
    } else if fuel > 0 {
        let m = meta_of(view, meta_id, c).unwrap();
        lemma_cut_walk_is_long(view, meta_id, m.children@, (fuel - 1) as nat);
    }
}

/// Distinct indexes below `n` are at most `n` many.
proof fn lemma_distinct_below(s: Seq<usize>, n: nat)
    requires
        s.no_duplicates(),
        forall|i: int| 0 <= i < s.len() ==> #[trigger] s[i] < n,
    ensures
        s.len() <= n,
{
    let t = s.map_values(|x: usize| x as int);
    assert forall|i: int, j: int| 0 <= i < t.len() && 0 <= j < t.len() && i != j implies t[i] != t[j] by {
        assert(s[i] != s[j]);
    }
    t.unique_seq_to_set();
    vstd::set_lib::lemma_int_range(0, n as int);
    assert forall|x: int| t.to_set().contains(x) implies vstd::set_lib::set_int_range(0, n as int).contains(x) by {
        let i = choose|i: int| 0 <= i < t.len() && t[i] == x;
        assert(s[i] < n);
    }
    vstd::set_lib::lemma_len_subset(t.to_set(), vstd::set_lib::set_int_range(0, n as int));
}

/// Law: despawning keeps the hierarchy consistent.
pub proof fn law_despawn_keeps_hierarchy<C>(s0: Scene<C>, s1: Scene<C>, id: EntityId)
    requires
        s0.wf(),
        can_despawn(s0, id),
        hierarchy_consistent(s0.view(), s0.meta_id()),
        despawned(s0, s1, id),
    ensures
        hierarchy_consistent(s1.view(), s1.meta_id()),
{
    let v0 = s0.view();
    let v1 = s1.view();
    let mid = s0.meta_id();
    assert(s1.meta_id() == mid);
    let m = meta_of(v0, mid, id).unwrap();
    let fuel = s0.fuel();
    let d = descendants(v0, mid, m.children@, fuel);
    let p = m.parent;
    // The walk below the entity is complete: a cut walk would visit more distinct
    // entities than there are indexes.
    assert(!walk_cut(v0, mid, m.children@, fuel)) by {
        if walk_cut(v0, mid, m.children@, fuel) {
            lemma_cut_walk_is_long(v0, mid, m.children@, fuel);
            s0.world.lemma_dom_bounded();
            let all = d.push(id);
            assert forall|i: int| 0 <= i < all.len() implies #[trigger] all[i] < fuel by {
                if i < d.len() {
                    assert(v0.dom().contains(d[i]));
                }
            }
            assert(all.no_duplicates()) by {
                assert forall|i: int, j: int| 0 <= i < all.len() && 0 <= j < all.len() && i != j implies all[i] != all[j] by {
                    if i < d.len() && j < d.len() {
                    } else if i < d.len() {
                        assert(d.contains(all[i]));
                    } else if j < d.len() {
                        assert(d.contains(all[j]));
                    }
                }
            }
            lemma_distinct_below(all, fuel);
        }
    }
    // What is removed: the entity and everything below it.
    let removed = |x: usize| x == id || d.contains(x);
    assert forall|x: usize| #[trigger] d.contains(x) implies has_meta(v0, mid, x) && removed(parent_of(v0, mid, x)) by {
        lemma_descendants_have_parent(v0, mid, m.children@, fuel, x);
        if m.children@.contains(x) {
            let j = choose|j: int| 0 <= j < m.children@.len() && m.children@[j] == x;
            assert(children_of(v0, mid, id)[j] == x);
        } else {
            let y = choose|y: usize|
                d.contains(y) && has_meta(v0, mid, y) && #[trigger] children_of(v0, mid, y).contains(x);
            let j = choose|j: int| 0 <= j < children_of(v0, mid, y).len() && children_of(v0, mid, y)[j] == x;
        }
    }
    assert forall|y: usize, x: usize|
        removed(y) && has_meta(v0, mid, y) && #[trigger] children_of(v0, mid, y).contains(x) implies removed(x) by {
        if y == id {
            lemma_descendants_cover_list(v0, mid, m.children@, fuel, x);
        } else {
            lemma_descendants_closed(v0, mid, m.children@, fuel, y, x);
        }
    }
    // How metadata changes: only the parent's children.
    assert forall|e: usize| v1.dom().contains(e) && e != p implies #[trigger] meta_of(v1, mid, e) == meta_of(v0, mid, e) by {
        assert(v1[e] == v0[e]);
    }
    assert forall|e: usize| !v1.dom().contains(e) implies !#[trigger] has_meta(v1, mid, e) by {}
    assert forall|e: usize| #[trigger] v1.dom().contains(e) implies v0.dom().contains(e) && !removed(e) by {
        if d.contains(e) {
            assert(d.to_set().contains(e));
        }
    }
    assert forall|e: usize| v0.dom().contains(e) && !removed(e) implies #[trigger] v1.dom().contains(e) by {
        assert(!d.to_set().contains(e));
    }
    let pm = meta_of(v0, mid, p);
    if v1.dom().contains(p) && pm is Some {
        lemma_first_position_occurs(pm.unwrap().children@, id);
    }
    assert forall|e: usize| v1.dom().contains(e) implies (#[trigger] has_meta(v1, mid, e) <==> has_meta(v0, mid, e))
        && (has_meta(v1, mid, e) ==> parent_of(v1, mid, e) == parent_of(v0, mid, e) && (forall|x: usize|
        children_of(v1, mid, e).contains(x) ==> children_of(v0, mid, e).contains(x) && x != id) && (forall|x: usize|
        children_of(v0, mid, e).contains(x) && x != id ==> children_of(v1, mid, e).contains(x))
        && children_of(v1, mid, e).no_duplicates()) by {
        if e == p {
            match meta_of(v0, mid, p) {
                Some(old_pm) => {
                    let k = first_position(old_pm.children@, id);
                    let old_children = old_pm.children@;
                    assert(has_meta(v0, mid, p));
                    assert(old_children.no_duplicates());
                    assert(has_meta(v1, mid, p));
                    assert(parent_of(v1, mid, e) == parent_of(v0, mid, e));
                    if k >= 0 {
                        let new_children = old_children.remove(k);
                        assert(children_of(v1, mid, e) == new_children);
                        assert(old_children[k] == id);
                        assert forall|x: usize| new_children.contains(x) implies old_children.contains(x) && x != id by {
                            let j = choose|j: int| 0 <= j < new_children.len() && new_children[j] == x;
                            if j < k {
                                assert(old_children[j] == x);
                                assert(j != k);
                            } else {
                                assert(old_children[j + 1] == x);
                                assert(j + 1 != k);
                            }
                        }
                        assert forall|x: usize| old_children.contains(x) && x != id implies new_children.contains(x) by {
                            let j = choose|j: int| 0 <= j < old_children.len() && old_children[j] == x;
                            if j < k {
                                assert(new_children[j] == x);
                            } else {
                                assert(j != k);
                                assert(new_children[j - 1] == x);
                            }
                        }
                        assert forall|i: int, j: int|
                            0 <= i < new_children.len() && 0 <= j < new_children.len() && i != j implies new_children[i]
                            != new_children[j] by {
                            let oi = if i < k { i } else { i + 1 };
                            let oj = if j < k { j } else { j + 1 };
                            assert(new_children[i] == old_children[oi]);
                            assert(new_children[j] == old_children[oj]);
                        }
                    } else {
                        assert(children_of(v1, mid, e) == old_children);
                        assert(!old_children.contains(id));
                    }
                },
                None => {
                    assert(meta_of(v1, mid, e) == meta_of(v0, mid, e));
                },
            }
        } else {
            assert(meta_of(v1, mid, e) == meta_of(v0, mid, e));
            if has_meta(v0, mid, e) {
                assert(children_of(v0, mid, e).no_duplicates());
                if children_of(v0, mid, e).contains(id) {
                    let j = choose|j: int| 0 <= j < children_of(v0, mid, e).len() && children_of(v0, mid, e)[j] == id;
                    assert(parent_of(v0, mid, children_of(v0, mid, e)[j]) == e);
                }
            }
        }
    }
    // The three parts of consistency after the despawn.
    assert forall|e: usize, i: int|
        has_meta(v1, mid, e) && 0 <= i < children_of(v1, mid, e).len() implies {
            let c = #[trigger] children_of(v1, mid, e)[i];
            has_meta(v1, mid, c) && parent_of(v1, mid, c) == e
        } by {
        let c = children_of(v1, mid, e)[i];
        assert(v1.dom().contains(e));
        assert(children_of(v1, mid, e).contains(c));
        assert(children_of(v0, mid, e).contains(c) && c != id);
        let j = choose|j: int| 0 <= j < children_of(v0, mid, e).len() && children_of(v0, mid, e)[j] == c;
        assert(has_meta(v0, mid, c) && parent_of(v0, mid, c) == e);
        assert(!d.contains(c));
        assert(v1.dom().contains(c));
    }
    assert forall|e: usize|
        #[trigger] has_meta(v1, mid, e) && e != 0 implies has_meta(v1, mid, parent_of(v1, mid, e))
            && children_of(v1, mid, parent_of(v1, mid, e)).contains(e) by {
        assert(v1.dom().contains(e));
        assert(e != id);
        let q = parent_of(v0, mid, e);
        assert(parent_of(v1, mid, e) == q);
        assert(has_meta(v0, mid, q) && children_of(v0, mid, q).contains(e));
        assert(!removed(q)) by {
            if removed(q) {
                assert(removed(e));
            }
        }
        assert(v1.dom().contains(q));
        assert(has_meta(v1, mid, q));
        assert(children_of(v1, mid, q).contains(e));
    }
    assert forall|e: usize| #[trigger] has_meta(v1, mid, e) implies children_of(v1, mid, e).no_duplicates() by {
        assert(v1.dom().contains(e));
    }
}

/// Law: despawning an entity right after spawning it brings the scene back: the same
/// entities, each with the same components, except that the parent's metadata is
/// rebuilt with the same name, parent and children.
pub proof fn law_despawn_undoes_spawn<C>(
    s0: Scene<C>,
    s1: Scene<C>,
    s2: Scene<C>,
    name: Seq<char>,
    components: Seq<(TypeInfo, C)>,
    parent: EntityId,
    r: EntityId,
)
    requires
        spawned(s0, s1, name, components, parent, r),
        meta_of(s0.view(), s0.meta_id(), parent) is Some,
        !meta_of(s0.view(), s0.meta_id(), parent).unwrap().children@.contains(r),
        despawned(s1, s2, r),
    ensures
        s2.view().dom() == s0.view().dom(),
        forall|e: usize|
            s0.view().dom().contains(e) && e != parent ==> #[trigger] s2.view()[e] == s0.view()[e],
        s2.view()[parent].remove(s0.meta_id()) == s0.view()[parent].remove(s0.meta_id()),
        ({
            let pm = meta_of(s0.view(), s0.meta_id(), parent).unwrap();
            meta_of(s2.view(), s0.meta_id(), parent) matches Some(m) && m.name@ == pm.name@ && m.parent == pm.parent
                && m.children@ == pm.children@
        }),
{
    let meta_id = s0.meta_id();
    let v0 = s0.view();
    let v1 = s1.view();
    let pm = meta_of(v0, meta_id, parent).unwrap();
    let m1 = meta_of(v1, meta_id, r).unwrap();
    let d = descendants(v1, meta_id, m1.children@, s1.fuel());
    assert(d =~= Seq::<usize>::empty());
    assert(d.to_set() =~= Set::<usize>::empty());
    assert(s2.view().dom() =~= v0.dom());
    let pm1 = meta_of(v1, meta_id, parent).unwrap();
    assert(pm1.children@ == pm.children@.push(r));
    lemma_first_position(pm1.children@, r, pm.children@.len() as int);
    assert(pm1.children@.remove(pm.children@.len() as int) =~= pm.children@);
}

/// A world of entities arranged in a hierarchy: each entity's metadata names its parent
/// and its children, and the root entity is [`Scene::ROOT_ID`].
pub struct Scene<C> {
    pub world: World<SceneComponent<C>>,
    /// The type under which entities keep their [`MetaDataComponent`].
    pub meta_info: TypeInfo,
}

impl<C> Scene<C> {
    pub const ROOT_ID: EntityId = 0;

    /// The type id under which entities keep their metadata.
    pub open spec fn meta_id(&self) -> u64 {
        self.meta_info.id
    }

    pub open spec fn wf(&self) -> bool {
        self.world.wf() && storable_layout(self.meta_info.layout)
    }

    /// Every entity with its components, by type id.
    pub open spec fn view(&self) -> Map<usize, Map<u64, SceneComponent<C>>> {
        self.world.view()
    }

    /// How many levels the hierarchy walks go down or up: one per index ever handed out.
    pub open spec fn fuel(&self) -> nat {
        self.world.index_bound()
    }

    /// The type id under which entities keep their metadata.
    pub fn meta_type_id(&self) -> (r: u64)
        ensures
            r == self.meta_id(),
    {
        self.meta_info.id
    }

    /// A completely empty scene with no root entity; normally you would use
    /// `Scene::default()`.
    pub fn empty() -> (r: Scene<C>)
        ensures
            r.wf(),
            r.view().is_empty(),
            hierarchy_consistent(r.view(), r.meta_id()),
    {
        Scene { world: World::new(), meta_info: TypeInfo::of::<MetaDataComponent>() }
    }

    /// The metadata of entity `id`, if it exists and has some.
    pub fn get_meta(&self, id: EntityId) -> (r: Option<&MetaDataComponent>)
        requires
            self.wf(),
        ensures
            match r {
                Some(m) => meta_of(self.view(), self.meta_id(), id) == Some(*m),
                None => meta_of(self.view(), self.meta_id(), id) is None,
            },
    {
        match self.world.get(self.meta_info.id, id) {
            Some(SceneComponent::MetaData(m)) => Some(m),
            _ => None,
        }
    }

    fn collect_descendants(&self, children: &Vec<EntityId>, fuel: usize, out: &mut Vec<EntityId>)
        requires
            self.wf(),
        ensures
            final(out)@ == old(out)@ + descendants(self.view(), self.meta_id(), children@, fuel as nat),
        decreases fuel,
    {
        let ghost start = out@;
        let mut i: usize = 0;
        while i < children.len()
            invariant
                self.wf(),
                i <= children@.len(),
                out@ == start + descendants(self.view(), self.meta_id(), children@.subrange(0, i as int), fuel as nat),
            decreases children@.len() - i,
        {
            let c = children[i];
            let ghost before = out@;
            if fuel > 0 {
                match self.get_meta(c) {
                    Some(m) => {
                        self.collect_descendants(&m.children, fuel - 1, out);
                    },
                    None => {},
                }
            }
            out.push(c);
            proof {
                let prefix = children@.subrange(0, i + 1);
                assert(prefix.drop_last() =~= children@.subrange(0, i as int));
                assert(prefix.last() == c);
                assert(out@ =~= start + descendants(self.view(), self.meta_id(), prefix, fuel as nat));
            }
            i = i + 1;
        }
        assert(children@.subrange(0, children@.len() as int) =~= children@);
    }

    /// Every entity below `meta` in the hierarchy, in the order of a walk that visits
    /// each child after everything below it.
    pub fn for_each_child(&self, meta: &MetaDataComponent) -> (r: Vec<EntityId>)
        requires
            self.wf(),
        ensures
            r@ == descendants(self.view(), self.meta_id(), meta.children@, self.fuel()),
    {
        let mut out: Vec<EntityId> = Vec::new();
        let fuel = self.world.index_count();
        self.collect_descendants(&meta.children, fuel, &mut out);
        assert(out@ =~= descendants(self.view(), self.meta_id(), meta.children@, self.fuel()));
        out
    }

    fn collect_ancestors(&self, id: EntityId, fuel: usize) -> (r: Vec<EntityId>)
        requires
            self.wf(),
        ensures
            r@ == ancestors(self.view(), self.meta_id(), id, fuel as nat),
        decreases fuel,
    {
        match self.get_meta(id) {
            Some(meta) => {
                if meta.parent != Self::ROOT_ID && fuel > 0 {
                    let mut r = self.collect_ancestors(meta.parent, fuel - 1);
                    r.push(meta.parent);
                    r
                } else {
                    Vec::new()
                }
            },
            None => Vec::new(),
        }
    }

    /// The parents of entity `id` up to but not including the root, the topmost first.
    pub fn for_each_parent(&self, id: EntityId) -> (r: Vec<EntityId>)
        requires
            self.wf(),
        ensures
            r@ == ancestors(self.view(), self.meta_id(), id, self.fuel()),
            forall|chain: Seq<usize>| #[trigger] is_parent_chain(self.view(), self.meta_id(), id, chain) ==> r@ == chain,
    {
        let r = self.collect_ancestors(id, self.world.index_count());
        proof {
            assert forall|chain: Seq<usize>| #[trigger] is_parent_chain(self.view(), self.meta_id(), id, chain) implies r@
                == chain by {
                law_parents_are_the_whole_chain(*self, id, chain);
            }
        }
        r
    }

    /// The root entity.
    pub fn root_entity(&self) -> (r: EntityRef<'_, SceneComponent<C>>)
        requires
            self.wf(),
            self.view().dom().contains(Self::ROOT_ID),
        ensures
            r.wf(),
            r.entity_id() == Self::ROOT_ID,
            r.components() == self.view()[Self::ROOT_ID],
    {
        self.world.entity(Self::ROOT_ID).unwrap()
    }

    /// The root entity's metadata.
    pub fn root_meta(&self) -> (r: &MetaDataComponent)
        requires
            self.wf(),
            meta_of(self.view(), self.meta_id(), Self::ROOT_ID) is Some,
        ensures
            meta_of(self.view(), self.meta_id(), Self::ROOT_ID) == Some(*r),
    {
        self.get_meta(Self::ROOT_ID).unwrap()
    }

    /// Spawns an entity named `name` with the given components (in any order, no type
    /// twice, none of them metadata) as the last child of `parent_id`, or of the root if
    /// none is given. The parent must have metadata.
    pub fn spawn(&mut self, name: &str, components: Vec<(TypeInfo, C)>, parent_id: Option<EntityId>) -> (r: EntityId)
        requires
            old(self).wf(),
            can_spawn(*old(self), components@, parent_or_root(parent_id)),
        ensures
            final(self).wf(),
            spawned(*old(self), *final(self), name@, components@, parent_or_root(parent_id), r),
    {
        let ghost all = components@;
        let ghost meta_id = self.meta_info.id;
        let n = components.len();
        let mut rest = components;
        let mut wrapped: Vec<(TypeInfo, SceneComponent<C>)> = Vec::new();
        while rest.len() > 0
            invariant
                n == all.len(),
                rest@.len() <= n,
                rest@ == all.subrange(n - rest@.len(), n as int),
                wrapped@ == wrap_pairs(all.subrange(0, n - rest@.len())),
            decreases rest@.len(),
        {
            let ghost i = n - rest@.len();
            let (info, c) = rest.remove(0);
            wrapped.push((info, SceneComponent::Other(c)));
            assert(rest@ =~= all.subrange(i + 1, n as int));
            assert(wrapped@ =~= wrap_pairs(all.subrange(0, i + 1)));
        }
        assert(all.subrange(0, n as int) =~= all);
        assert(pair_ids(wrapped@) =~= pair_ids(all));
        let id = self.world.spawn(wrapped);
        let p = match parent_id {
            Some(p) => p,
            None => Self::ROOT_ID,
        };
        let ghost w1 = self.world.view();
        assert(w1[p] == old(self).view()[p]);
        let parent_meta = self.get_meta(p).unwrap();
        let mut children = copy_ids(&parent_meta.children);
        children.push(id);
        let new_parent_meta = MetaDataComponent {
            name: parent_meta.name.clone(),
            children,
            parent: parent_meta.parent,
        };
        self.world.replace_component(p, self.meta_info.id, SceneComponent::MetaData(new_parent_meta));
        let ghost w2 = self.world.view();
        assert(pairs_map(wrap_pairs(all)).dom() =~= pair_ids(wrap_pairs(all)).to_set());
        assert(!w2[id].dom().contains(meta_id)) by {
            assert(w2[id] == w1[id]);
            assert(pair_ids(wrap_pairs(all)) =~= pair_ids(all));
        }
        let meta = MetaDataComponent { name: name.to_owned(), children: Vec::new(), parent: p };
        self.world.attach_component(id, self.meta_info, SceneComponent::MetaData(meta));
        proof {
            let v = self.world.view();
            assert(v[id].remove(meta_id) =~= w1[id]);
            assert(v[p].remove(meta_id) =~= old(self).view()[p].remove(meta_id));
            assert(v.dom() =~= old(self).view().dom().insert(id));
        }
        id
    }

    /// Whether `despawn(id)` may be called: `id` has metadata, and the walk below it
    /// reaches existing entities only, each once, and never `id` itself.
    pub fn despawn_allowed(&self, id: EntityId) -> (r: bool)
        requires
            self.wf(),
        ensures
            r == can_despawn(*self, id),
    {
        let meta = match self.get_meta(id) {
            Some(m) => m,
            None => return false,
        };
        let below = self.for_each_child(meta);
        let ghost d = below@;
        assert(d == descendants(
            self.view(),
            self.meta_id(),
            meta_of(self.view(), self.meta_id(), id).unwrap().children@,
            self.fuel(),
        ));
        let mut i: usize = 0;
        while i < below.len()
            invariant
                self.wf(),
                d == below@,
                meta_of(self.view(), self.meta_id(), id) is Some,
                d == descendants(
                    self.view(),
                    self.meta_id(),
                    meta_of(self.view(), self.meta_id(), id).unwrap().children@,
                    self.fuel(),
                ),
                i <= d.len(),
                forall|a: int, b: int| 0 <= a < b < i ==> d[a] != d[b],
                forall|a: int| 0 <= a < i ==> self.view().dom().contains(#[trigger] d[a]),
                forall|a: int| 0 <= a < i ==> #[trigger] d[a] != id,
            decreases d.len() - i,
        {
            let e = below[i];
            if e == id || !self.world.entity_exists(e) {
                assert(d[i as int] == e);
                assert(e == id ==> d.contains(id));
                return false;
            }
            let mut j: usize = 0;
            while j < i
                invariant
                    d == below@,
                    meta_of(self.view(), self.meta_id(), id) is Some,
                    d == descendants(
                        self.view(),
                        self.meta_id(),
                        meta_of(self.view(), self.meta_id(), id).unwrap().children@,
                        self.fuel(),
                    ),
                    j <= i < d.len(),
                    e == d[i as int],
                    forall|a: int| 0 <= a < j ==> #[trigger] d[a] != e,
                decreases i - j,
            {
                if below[j] == e {
                    assert(!d.no_duplicates()) by {
                        assert(d[j as int] == d[i as int]);
                    }
                    return false;
                }
                j = j + 1;
            }
            i = i + 1;
        }
        assert(d.no_duplicates());
        assert(!d.contains(id)) by {
            if d.contains(id) {
                let a = choose|a: int| 0 <= a < d.len() && d[a] == id;
                assert(d[a] != id);
            }
        }
        true
    }

    /// Despawns entity `id` and everything below it, after taking `id` out of its
    /// parent's children. Everything below it must exist and be listed once, and `id`
    /// must not be below itself.
    pub fn despawn(&mut self, id: EntityId)
        requires
            old(self).wf(),
            can_despawn(*old(self), id),
        ensures
            final(self).wf(),
            despawned(*old(self), *final(self), id),
    {
        let ghost v0 = self.view();
        let ghost meta_id = self.meta_info.id;
        let meta = self.get_meta(id).unwrap();
        let children_list = self.for_each_child(meta);
        let ghost d = children_list@;
        let parent = meta.parent;
        // Take the entity out of its parent's children.
        let parent_meta = self.get_meta(parent);
        match parent_meta {
            Some(pm) => {
                let mut k: usize = 0;
                while k < pm.children.len() && pm.children[k] != id
                    invariant
                        k <= pm.children@.len(),
                        forall|j: int| 0 <= j < k ==> pm.children@[j] != id,
                    decreases pm.children@.len() - k,
                {
                    k = k + 1;
                }
                proof {
                    lemma_first_position(pm.children@, id, k as int);
                }
                if k < pm.children.len() {
                    let mut children = copy_ids(&pm.children);
                    children.remove(k);
                    let new_meta = MetaDataComponent { name: pm.name.clone(), children, parent: pm.parent };
                    self.world.replace_component(parent, self.meta_info.id, SceneComponent::MetaData(new_meta));
                }
            },
            None => {},
        }
        let ghost v1 = self.view();
        let ghost free1 = self.world.free_indexes();
        assert(v1.dom() == v0.dom());
        // Despawn everything below the entity, then the entity itself.
        let mut i: usize = 0;
        while i < children_list.len()
            invariant
                self.wf(),
                self.meta_info == old(self).meta_info,
                self.meta_info.id == meta_id,
                d == children_list@,
                d.no_duplicates(),
                forall|j: int| 0 <= j < d.len() ==> v1.dom().contains(#[trigger] d[j]),
                !d.contains(id),
                v1.dom().contains(id),
                i <= d.len(),
                self.view().dom() == v1.dom().difference(d.subrange(0, i as int).to_set()),
                forall|e: usize| #[trigger] self.view().dom().contains(e) ==> self.view()[e] == v1[e],
                self.world.free_indexes() == free1 + d.subrange(0, i as int),
            decreases d.len() - i,
        {
            let child = children_list[i];
            assert(!d.subrange(0, i as int).contains(child)) by {
                if d.subrange(0, i as int).contains(child) {
                    let j = choose|j: int| 0 <= j < i && d.subrange(0, i as int)[j] == child;
                    assert(d[j] == d[i as int]);
                }
            }
            assert(self.view().dom().contains(child));
            self.world.despawn(child);
            proof {
                let pre = d.subrange(0, i as int);
                let post = d.subrange(0, i + 1);
                assert(post =~= pre.push(child));
                assert forall|e: usize| post.contains(e) <==> (pre.contains(e) || e == child) by {
                    if post.contains(e) {
                        let j = choose|j: int| 0 <= j < post.len() && post[j] == e;
                        if j < i { assert(pre[j] == e); }
                    }
                    if pre.contains(e) {
                        let j = choose|j: int| 0 <= j < pre.len() && pre[j] == e;
                        assert(post[j] == e);
                    }
                    if e == child { assert(post[i as int] == e); }
                }
                assert(self.view().dom() =~= v1.dom().difference(post.to_set()));
                assert(self.world.free_indexes() =~= free1 + d.subrange(0, i + 1));
            }
            i = i + 1;
        }
        assert(d.subrange(0, d.len() as int) =~= d);
        assert(self.view().dom().contains(id));
        self.world.despawn(id);
        proof {
            let v = self.view();
            assert(v.dom() =~= v0.dom().difference(d.to_set()).remove(id));
            assert(self.world.free_indexes() =~= old(self).world.free_indexes() + d.push(id));
            let m = meta_of(v0, meta_id, id).unwrap();
            assert(d == descendants(v0, meta_id, m.children@, old(self).fuel()));
            assert(forall|e: usize| #[trigger] v.dom().contains(e) && e != m.parent ==> v[e] == v0[e]);
            assert(v.dom().contains(m.parent) ==> match meta_of(v0, meta_id, m.parent) {
                Some(pm) => {
                    let k = first_position(pm.children@, id);
                    &&& meta_of(v, meta_id, m.parent) matches Some(pm2) && pm2.name@ == pm.name@ && pm2.parent == pm.parent
                        && pm2.children@ == (if k >= 0 { pm.children@.remove(k) } else { pm.children@ })
                    &&& v[m.parent].remove(meta_id) == v0[m.parent].remove(meta_id)
                },
                None => v[m.parent] == v0[m.parent],
            });
        }
    }
}

impl<C: Clone> Clone for Scene<C> {
    /// A copy of the scene: the same entities under the same indexes, each component
    /// cloned.
    fn clone(&self) -> (r: Self)
        ensures
            r.meta_info == self.meta_info,
            self.wf() ==> r.wf() && cloned_view(self.view(), r.view()),
            r.world.free_indexes() == self.world.free_indexes(),
            r.world.index_bound() == self.world.index_bound(),
    {
        Scene { world: self.world.clone(), meta_info: self.meta_info }
    }
}

impl<C> Default for Scene<C> {
    /// A scene holding only the root entity, named `Root`.
    fn default() -> (r: Scene<C>)
        ensures
            r.wf(),
            r.view().dom() == Set::<usize>::empty().insert(0),
            r.view()[0].dom() == Set::<u64>::empty().insert(r.meta_id()),
            meta_of(r.view(), r.meta_id(), 0) matches Some(m) && m.name@ == "Root"@
                && m.children@ == Seq::<EntityId>::empty() && m.parent == 0,
            r.world.next_index() == 1,
            hierarchy_consistent(r.view(), r.meta_id()),
    {
        let mut world = World::new();
        let meta_info = TypeInfo::of::<MetaDataComponent>();
        let mut infos: Vec<TypeInfo> = Vec::new();
        infos.push(meta_info);
        let mut components: Vec<SceneComponent<C>> = Vec::new();
        let root = MetaDataComponent { name: "Root".to_owned(), children: Vec::new(), parent: 0 };
        components.push(SceneComponent::MetaData(root));
        world.place_with_id(Self::ROOT_ID, &infos, components);
        let r = Scene { world, meta_info };
        proof {
            let ids = info_ids(infos@);
            assert(ids =~= seq![meta_info.id]);
            assert(ids[0] == meta_info.id);
            assert(ids.contains(meta_info.id));
            lemma_index_of_distinct(ids, 0);
            assert(r.view().dom() =~= Set::<usize>::empty().insert(0));
            assert(r.view()[0].dom() =~= Set::<u64>::empty().insert(r.meta_id()));
            assert forall|e: usize| #[trigger] has_meta(r.view(), r.meta_id(), e) implies e == 0 && children_of(
                r.view(),
                r.meta_id(),
                e,
            ).len() == 0 by {}
        }
        r
    }
}

} // verus!
