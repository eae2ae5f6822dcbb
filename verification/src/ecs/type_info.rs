use vstd::prelude::*;
use vstd::arithmetic::power2::is_pow2;
use std::any::TypeId;
use std::collections::hash_map::DefaultHasher;
use std::hash::Hasher;

verus! {

/// Size and alignment of one component, in bytes.
#[derive(Clone, Copy, Debug)]
pub struct ComponentLayout {
    pub size: usize,
    pub align: usize,
}

/// Stores information about a component type to be used inside component arrays.
///
/// Two type infos stand for the same component type exactly when their ids are equal.
#[derive(Clone, Copy, Debug)]
pub struct TypeInfo {
    pub id: u64,
    pub layout: ComponentLayout,
}

/// Two type infos are equal when they stand for the same type: when their ids are.
impl PartialEq for TypeInfo {
    fn eq(&self, other: &Self) -> (r: bool) {
        self.id == other.id
    }
}

impl Eq for TypeInfo {
}

impl vstd::std_specs::cmp::PartialEqSpecImpl for TypeInfo {
    open spec fn obeys_eq_spec() -> bool {
        true
    }

    open spec fn eq_spec(&self, other: &Self) -> bool {
        self.id == other.id
    }
}

/// Layouts that the world accepts for components: the component takes up space
/// (zero-sized components are not supported) and the alignment is a power of two.
pub open spec fn valid_component_layout(layout: ComponentLayout) -> bool {
    layout.size > 0 && is_pow2(layout.align as int)
}

/// Layouts that a component array can hold: the alignment is a power of two. The
/// engine's own metadata type is stored under such a layout.
pub open spec fn storable_layout(layout: ComponentLayout) -> bool {
    is_pow2(layout.align as int)
}

/// A sequence of type infos whose ids strictly increase (sorted, no component twice).
pub open spec fn strictly_sorted(infos: Seq<TypeInfo>) -> bool {
    forall|i: int, j: int| 0 <= i < j < infos.len() ==> #[trigger] infos[i].id < #[trigger] infos[j].id
}

/// The ids of a sequence of type infos.
pub open spec fn info_ids(infos: Seq<TypeInfo>) -> Seq<u64> {
    infos.map_values(|t: TypeInfo| t.id)
}

/// `std::any::TypeId`, carried through opaquely.
#[verifier::external_type_specification]
#[verifier::external_body]
pub struct ExTypeId(std::any::TypeId);

/// Calls `std::any::TypeId::of::<T>`. Nothing is stated of the id: the standard
/// library promises only that it is unique per type within one build.
#[verifier::external_body]
fn type_id_of<T: ?Sized + 'static>() -> TypeId {
    std::any::TypeId::of::<T>()
}

/// Feeds `id` into `state` through `TypeId`'s `Hash` impl (`std::hash::Hash::hash`).
/// Which bytes are written is left unstated: the standard library does not document it.
#[verifier::external_body]
fn hash_type_id(id: &TypeId, state: &mut DefaultHasher) {
    std::hash::Hash::hash(id, state)
}

/// The 64-bit key of `T`: its `TypeId` hashed with a fresh `DefaultHasher`, which is
/// keyed the same way on every call, so one type gets one key within a build.
fn type_id_key<T: 'static>() -> u64 {
    let mut state = DefaultHasher::new();
    hash_type_id(&type_id_of::<T>(), &mut state);
    state.finish()
}

impl TypeInfo {
    /// The type info of `T`: its id, its size and its alignment.
    pub fn of<T: 'static>() -> (r: TypeInfo)
        ensures
            r.layout.size as nat == vstd::layout::size_of::<T>(),
            r.layout.align as nat == vstd::layout::align_of::<T>(),
            is_pow2(r.layout.align as int),
    {
        vstd::layout::layout_for_type_is_valid::<T>();
        TypeInfo {
            id: type_id_key::<T>(),
            layout: ComponentLayout {
                size: core::mem::size_of::<T>(),
                align: core::mem::align_of::<T>(),
            },
        }
    }
}

/// Where the piece after the last `"::"` starts, scanning from `i` with the current
/// piece starting at `start`, when `s` is split on non-overlapping `"::"` from the left.
pub open spec fn last_piece_start(s: Seq<char>, i: int, start: int) -> int
    decreases s.len() - i,
{
    if i < 0 || i + 1 >= s.len() {
        start
    } else if s[i] == ':' && s[i + 1] == ':' {
        last_piece_start(s, i + 2, i + 2)
    } else {
        last_piece_start(s, i + 1, start)
    }
}

/// The last piece of a type's name split on `"::"`, i.e. the final segment of its
/// path: `MetaDataComponent` for `crile::ecs::components::MetaDataComponent`.
pub fn last_type_name(name: &str) -> (r: &str)
    ensures
        r@ == name@.subrange(last_piece_start(name@, 0, 0), name@.len() as int),
{
    let len = name.unicode_len();
    let mut i: usize = 0;
    let mut start: usize = 0;
    while i < len && i + 1 < len
        invariant
            len == name@.len(),
            start <= i <= len,
            last_piece_start(name@, i as int, start as int) == last_piece_start(name@, 0, 0),
        decreases len - i,
    {
        if name.get_char(i) == ':' && name.get_char(i + 1) == ':' {
            i = i + 2;
            start = i;
        } else {
            i = i + 1;
        }
    }
    name.substring_char(start, len)
}

} // verus!
