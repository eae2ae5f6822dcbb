use vstd::prelude::*;

verus! {

/// The size a request takes up in a buffer: `size` rounded up to a multiple of
/// `alignment`.
pub open spec fn aligned_size(size: u64, alignment: u64) -> int {
    if size % alignment == 0 {
        size as int
    } else {
        size + (alignment - size % alignment)
    }
}

/// `x` limited to the range from `lo` to `hi`.
pub open spec fn clamped(x: int, lo: int, hi: int) -> int {
    if x < lo {
        lo
    } else if x > hi {
        hi
    } else {
        x
    }
}

/// One GPU buffer of the allocator: its size, and where its free space starts.
#[derive(Clone, Copy, Debug, PartialEq, Eq, Structural)]
pub struct BufferSpace {
    pub size: u64,
    pub cursor: u64,
}

/// A region handed out by the allocator: which buffer, where in it, and how many bytes
/// were asked for.
#[derive(Clone, Copy, Debug, PartialEq, Eq, Structural)]
pub struct BufferAllocation {
    pub space: usize,
    pub offset: u64,
    pub size: u64,
}

/// Hands out regions of GPU buffers to write uniform or storage data into, so that one
/// buffer serves many writes. Regions are aligned; a new, larger buffer is added when
/// none has room, and [`Self::free`] makes all the room available again.
///
/// The allocator decides where each region goes; the caller creates a GPU buffer of
/// [`Self::space_size`] bytes for each buffer it adds and writes the data.
pub struct DynamicBufferAllocator {
    buffer_spaces: Vec<BufferSpace>,
    descriptor_size: u64,
    alignment: u64,
    max_size: u64,
}

impl DynamicBufferAllocator {
    pub const START_SIZE: u64 = 8192;

    /// The buffers, in the order they were added.
    pub closed spec fn spaces(&self) -> Seq<BufferSpace> {
        self.buffer_spaces@
    }

    /// The size the next buffer is created from.
    pub closed spec fn next_size(&self) -> u64 {
        self.descriptor_size
    }

    pub closed spec fn align(&self) -> u64 {
        self.alignment
    }

    pub closed spec fn max(&self) -> u64 {
        self.max_size
    }

    pub closed spec fn wf(&self) -> bool {
        &&& self.alignment > 0
        &&& self.max_size <= u64::MAX / 2
        &&& self.descriptor_size <= u64::MAX / 2
        &&& forall|i: int|
            0 <= i < self.buffer_spaces@.len() ==> (#[trigger] self.buffer_spaces@[i]).cursor
                <= self.buffer_spaces@[i].size && self.buffer_spaces@[i].cursor % self.alignment == 0
    }

    /// An allocator with no buffers yet, for regions aligned to `alignment` and buffers
    /// of at most `max_size` bytes.
    pub fn new(alignment: u64, max_size: u64) -> (r: DynamicBufferAllocator)
        requires
            alignment > 0,
            max_size <= u64::MAX / 2,
        ensures
            r.wf(),
            r.spaces().len() == 0,
            r.next_size() == Self::START_SIZE,
            r.align() == alignment,
            r.max() == max_size,
    {
        DynamicBufferAllocator {
            buffer_spaces: Vec::new(),
            descriptor_size: Self::START_SIZE,
            alignment,
            max_size,
        }
    }

    fn next_multiple(size: u64, alignment: u64) -> (r: u64)
        requires
            alignment > 0,
            aligned_size(size, alignment) <= u64::MAX,
        ensures
            r == aligned_size(size, alignment),
            r % alignment == 0,
            size <= r,
    {
        let rem = size % alignment;
        if rem == 0 {
            size
        } else {
            let r = size + (alignment - rem);
            assert(r % alignment == 0) by (nonlinear_arith)
                requires
                    rem == size % alignment,
                    r == size + (alignment - rem),
                    alignment > 0,
            {
            }
            r
        }
    }

    /// Adds a buffer big enough for `required_size` bytes: twice the previous size,
    /// but at least the aligned request and at most the maximum.
    pub fn grow(&mut self, required_size: u64)
        requires
            old(self).wf(),
            aligned_size(required_size, old(self).align()) <= old(self).max(),
        ensures
            final(self).wf(),
            final(self).align() == old(self).align(),
            final(self).max() == old(self).max(),
            final(self).next_size() == clamped(
                2 * old(self).next_size(),
                aligned_size(required_size, old(self).align()),
                old(self).max() as int,
            ),
            final(self).spaces() == old(self).spaces().push(
                BufferSpace { size: final(self).next_size(), cursor: 0 },
            ),
    {
        let size_aligned = Self::next_multiple(required_size, self.alignment);
        let doubled = self.descriptor_size * 2;
        self.descriptor_size = if doubled < size_aligned {
            size_aligned
        } else if doubled > self.max_size {
            self.max_size
        } else {
            doubled
        };
        self.buffer_spaces.push(BufferSpace { size: self.descriptor_size, cursor: 0 });
        assert(0u64 % self.alignment == 0);
    }

    /// Finds room for `size` bytes of data in the first buffer that has it, adding a
    /// buffer if none does, and takes that room; the caller writes the data there.
    pub fn alloc_write(&mut self, size: u64) -> (r: BufferAllocation)
        requires
            old(self).wf(),
            aligned_size(size, old(self).align()) <= old(self).max(),
        ensures
            final(self).wf(),
            final(self).align() == old(self).align(),
            final(self).max() == old(self).max(),
            r.size == size,
            r.space <= old(self).spaces().len(),
            r.space < final(self).spaces().len(),
            r.offset % old(self).align() == 0,
            r.offset + aligned_size(size, old(self).align()) <= final(self).spaces()[r.space as int].size,
            forall|j: int|
                0 <= j < r.space && j < old(self).spaces().len() ==> (#[trigger] old(self).spaces()[j]).size
                    - old(self).spaces()[j].cursor < aligned_size(size, old(self).align()),
            r.space < old(self).spaces().len() ==> {
                &&& r.offset == old(self).spaces()[r.space as int].cursor
                &&& final(self).next_size() == old(self).next_size()
                &&& final(self).spaces() == old(self).spaces().update(
                    r.space as int,
                    BufferSpace {
                        size: old(self).spaces()[r.space as int].size,
                        cursor: (r.offset + aligned_size(size, old(self).align())) as u64,
                    },
                )
            },
            r.space == old(self).spaces().len() ==> {
                &&& r.offset == 0
                &&& final(self).next_size() == clamped(
                    2 * old(self).next_size(),
                    aligned_size(size, old(self).align()),
                    old(self).max() as int,
                )
                &&& final(self).spaces() == old(self).spaces().push(
                    BufferSpace {
                        size: final(self).next_size(),
                        cursor: aligned_size(size, old(self).align()) as u64,
                    },
                )
            },
    {
        let size_aligned = Self::next_multiple(size, self.alignment);
        let mut i: usize = 0;
        while i < self.buffer_spaces.len()
            invariant
                self == old(self),
                old(self).wf(),
                i <= self.buffer_spaces@.len(),
                size_aligned == aligned_size(size, self.alignment),
                size_aligned % self.alignment == 0,
                forall|j: int|
                    0 <= j < i ==> (#[trigger] self.buffer_spaces@[j]).size - self.buffer_spaces@[j].cursor
                        < size_aligned,
            decreases self.buffer_spaces@.len() - i,
        {
            let space = self.buffer_spaces[i];
            if size_aligned <= space.size - space.cursor {
                let offset = space.cursor;
                proof {
                    vstd::arithmetic::div_mod::lemma_add_mod_noop(offset as int, size_aligned as int, self.alignment as int);
                }
                self.buffer_spaces.set(i, BufferSpace { size: space.size, cursor: offset + size_aligned });
                return BufferAllocation { space: i, offset, size };
            }
            i = i + 1;
        }
        self.grow(size_aligned);
        let index = self.buffer_spaces.len() - 1;
        let space = self.buffer_spaces[index];
        assert(space.size >= size_aligned);
        self.buffer_spaces.set(index, BufferSpace { size: space.size, cursor: size_aligned });
        BufferAllocation { space: index, offset: 0, size }
    }

    /// Makes all the room in every buffer available again.
    pub fn free(&mut self)
        requires
            old(self).wf(),
        ensures
            final(self).wf(),
            final(self).align() == old(self).align(),
            final(self).max() == old(self).max(),
            final(self).next_size() == old(self).next_size(),
            final(self).spaces().len() == old(self).spaces().len(),
            forall|i: int|
                0 <= i < old(self).spaces().len() ==> #[trigger] final(self).spaces()[i] == (BufferSpace {
                    size: old(self).spaces()[i].size,
                    cursor: 0,
                }),
    {
        let mut i: usize = 0;
        while i < self.buffer_spaces.len()
            invariant
                self.alignment == old(self).alignment,
                self.max_size == old(self).max_size,
                self.descriptor_size == old(self).descriptor_size,
                old(self).wf(),
                self.buffer_spaces@.len() == old(self).buffer_spaces@.len(),
                i <= self.buffer_spaces@.len(),
                forall|j: int|
                    0 <= j < i ==> #[trigger] self.buffer_spaces@[j] == (BufferSpace {
                        size: old(self).buffer_spaces@[j].size,
                        cursor: 0,
                    }),
                forall|j: int|
                    i <= j < self.buffer_spaces@.len() ==> #[trigger] self.buffer_spaces@[j]
                        == old(self).buffer_spaces@[j],
            decreases self.buffer_spaces@.len() - i,
        {
            let space = self.buffer_spaces[i];
            self.buffer_spaces.set(i, BufferSpace { size: space.size, cursor: 0 });
            assert(0u64 % self.alignment == 0);
            i = i + 1;
        }
        assert forall|j: int| 0 <= j < self.buffer_spaces@.len() implies (#[trigger] self.buffer_spaces@[j]).cursor
            <= self.buffer_spaces@[j].size && self.buffer_spaces@[j].cursor % self.alignment == 0 by {
            assert(self.buffer_spaces@[j].cursor == 0);
        }
    }

    /// The number of buffers.
    pub fn space_count(&self) -> (r: usize)
        ensures
            r == self.spaces().len(),
    {
        self.buffer_spaces.len()
    }

    /// The size of buffer `index`, in bytes.
    pub fn space_size(&self, index: usize) -> (r: u64)
        requires
            index < self.spaces().len(),
        ensures
            r == self.spaces()[index as int].size,
    {
        self.buffer_spaces[index].size
    }
}

/// Law: two allocations in a row that land in the same buffer do not overlap; the
/// second starts where the first ends.
pub proof fn law_allocations_do_not_overlap(
    s0: DynamicBufferAllocator,
    s1: DynamicBufferAllocator,
    s2: DynamicBufferAllocator,
    a1: BufferAllocation,
    a2: BufferAllocation,
)
    requires
        a1.space == a2.space,
        a1.space < s1.spaces().len(),
        a1.space <= s0.spaces().len(),
        s1.align() == s0.align(),
        a1.space < s0.spaces().len() ==> s1.spaces()[a1.space as int].cursor == a1.offset + aligned_size(a1.size, s0.align()),
        a1.space == s0.spaces().len() ==> s1.spaces()[a1.space as int].cursor == aligned_size(a1.size, s0.align()) && a1.offset == 0,
        a2.space < s1.spaces().len() ==> a2.offset == s1.spaces()[a2.space as int].cursor,
    ensures
        a1.offset + aligned_size(a1.size, s0.align()) <= a2.offset,
{
}

} // verus!
