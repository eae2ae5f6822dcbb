use vstd::prelude::*;

verus! {

/// A hasher that forwards the integer written into it as the hash instead of mixing it.
///
/// It is meant for keys that are already well-distributed integers, such as the
/// 64-bit component type ids of the ECS.
#[derive(Default)]
pub struct NoHashHasher {
    hash: u64,
}

impl NoHashHasher {
    /// The value that `finish` reports.
    pub closed spec fn state(&self) -> u64 {
        self.hash
    }

    pub fn new() -> (h: NoHashHasher)
        ensures
            h.state() == 0,
    {
        NoHashHasher { hash: 0 }
    }
}

/// The state after writing `bytes` into a hasher whose state was `h`: each byte is
/// shifted in at the low end, so the last eight bytes remain, read big-endian.
pub open spec fn fold_bytes(h: u64, bytes: Seq<u8>) -> u64
    decreases bytes.len(),
{
    if bytes.len() == 0 {
        h
    } else {
        (fold_bytes(h, bytes.drop_last()) << 8u64) | (bytes.last() as u64)
    }
}

impl std::hash::Hasher for NoHashHasher {
    /// Byte input is folded into the state big-endian, so that a single small
    /// integer written as bytes is still forwarded unchanged.
    ///
    /// This hasher is meant for integer keys only, and byte input has no meaning
    /// for it. It is accepted rather than refused on purpose: the library does not
    /// panic, and `Hasher::write` can take no precondition that would keep such
    /// input out, so it gets a defined, stated result instead.
    fn write(&mut self, bytes: &[u8])
        ensures
            final(self).state() == fold_bytes(old(self).state(), bytes@),
    {
        let mut i: usize = 0;
        while i < bytes.len()
            invariant
                i <= bytes@.len(),
                self.hash == fold_bytes(old(self).hash, bytes@.subrange(0, i as int)),
            decreases bytes.len() - i,
        {
            assert(bytes@.subrange(0, i + 1).drop_last() =~= bytes@.subrange(0, i as int));
            self.hash = (self.hash << 8u64) | (bytes[i] as u64);
            i = i + 1;
        }
        assert(bytes@.subrange(0, bytes@.len() as int) =~= bytes@);
    }

    fn write_u64(&mut self, i: u64)
        ensures
            final(self).state() == i,
    {
        self.hash = i;
    }

    fn write_u32(&mut self, i: u32)
        ensures
            final(self).state() == i as u64,
    {
        self.hash = i as u64;
    }

    fn finish(&self) -> (r: u64)
        ensures
            r == self.state(),
    {
        self.hash
    }
}

/// Map from a component type id to a column index, hashed with [`NoHashHasher`].
#[verifier::external_body]
pub struct TypeIndexMap {
    map: hashbrown::HashMap<u64, usize, std::hash::BuildHasherDefault<NoHashHasher>>,
}

/// The key/value pairs that a [`TypeIndexMap`] holds.
pub uninterp spec fn type_index_map_contents(m: TypeIndexMap) -> Map<u64, usize>;

impl TypeIndexMap {
    /// Calls `hashbrown::HashMap::default`; claims that the new map is empty.
    #[verifier::external_body]
    pub(crate) fn new() -> (r: TypeIndexMap)
        ensures
            type_index_map_contents(r).is_empty(),
    {
        TypeIndexMap { map: hashbrown::HashMap::default() }
    }

    /// Calls `hashbrown::HashMap::get`; claims that it finds exactly the value stored
    /// under `key`, if any.
    #[verifier::external_body]
    pub(crate) fn get(&self, key: u64) -> (r: Option<usize>)
        ensures
            r == (if type_index_map_contents(*self).dom().contains(key) {
                Some(type_index_map_contents(*self)[key])
            } else {
                None::<usize>
            }),
    {
        self.map.get(&key).copied()
    }

    /// Calls `hashbrown::HashMap::insert`; claims that afterwards `key` maps to `value`
    /// and every other key is unchanged.
    #[verifier::external_body]
    pub(crate) fn insert(&mut self, key: u64, value: usize)
        ensures
            type_index_map_contents(*final(self)) == type_index_map_contents(*old(self)).insert(
                key,
                value,
            ),
    {
        self.map.insert(key, value);
    }

    /// Calls `hashbrown::HashMap::clone`; claims that the copy holds the same pairs.
    #[verifier::external_body]
    pub(crate) fn duplicate(&self) -> (r: TypeIndexMap)
        ensures
            type_index_map_contents(r) == type_index_map_contents(*self),
    {
        TypeIndexMap { map: self.map.clone() }
    }
}

/// Map from a sorted sequence of component type ids to an archetype index.
#[verifier::external_body]
pub struct ArchetypeIndexMap {
    map: hashbrown::HashMap<Vec<u64>, usize>,
}

/// The key/value pairs that an [`ArchetypeIndexMap`] holds, keys taken by their view.
pub uninterp spec fn archetype_index_map_contents(m: ArchetypeIndexMap) -> Map<Seq<u64>, usize>;

impl ArchetypeIndexMap {
    /// Calls `hashbrown::HashMap::default`; claims that the new map is empty.
    #[verifier::external_body]
    pub(crate) fn new() -> (r: ArchetypeIndexMap)
        ensures
            archetype_index_map_contents(r).is_empty(),
    {
        ArchetypeIndexMap { map: hashbrown::HashMap::default() }
    }

    /// Calls `hashbrown::HashMap::get`; claims that it finds exactly the value stored
    /// under the sequence `key`, if any (`Vec<u64>` keys compare element by element).
    #[verifier::external_body]
    pub(crate) fn get(&self, key: &Vec<u64>) -> (r: Option<usize>)
        ensures
            r == (if archetype_index_map_contents(*self).dom().contains(key@) {
                Some(archetype_index_map_contents(*self)[key@])
            } else {
                None::<usize>
            }),
    {
        self.map.get(key).copied()
    }

    /// Calls `hashbrown::HashMap::insert`; claims that afterwards `key` maps to `value`
    /// and every other key is unchanged.
    #[verifier::external_body]
    pub(crate) fn insert(&mut self, key: Vec<u64>, value: usize)
        ensures
            archetype_index_map_contents(*final(self)) == archetype_index_map_contents(
                *old(self),
            ).insert(key@, value),
    {
        self.map.insert(key, value);
    }

    /// Calls `hashbrown::HashMap::clone`; claims that the copy holds the same pairs.
    #[verifier::external_body]
    pub(crate) fn duplicate(&self) -> (r: ArchetypeIndexMap)
        ensures
            archetype_index_map_contents(r) == archetype_index_map_contents(*self),
    {
        ArchetypeIndexMap { map: self.map.clone() }
    }
}

} // verus!
