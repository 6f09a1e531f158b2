//! Arenas: bump allocation with bulk reset, for nodes that live as long as
//! a compilation.
//!
//! An arena keeps the byte accounting of one chunk of `capacity` bytes:
//! each allocation starts at the next offset aligned for its type and moves
//! the offset past it, and an allocation that would pass the capacity is
//! refused.  The storage of each accepted allocation is a heap block of its
//! own that stays valid for the rest of the program, so a reference handed
//! out can never dangle; `reset` makes the accounted space available again.

use vstd::prelude::*;
use std::mem::MaybeUninit;
use crate::util::layout::{align_up, check_layout, checked_align_up, is_pow2, layout_ok};

verus! {

/// Why an arena refused a request.
#[derive(Debug, Clone, Copy, PartialEq, Eq, Structural)]
pub enum ArenaError {
    OutOfMemory,
    InvalidLayout,
    UnsupportedAlignment,
    ArenaFull,
}

impl ArenaError {
    /// The human-readable description of the error.
    pub fn message(&self) -> (s: &'static str)
        ensures
            s@ == match *self {
                ArenaError::OutOfMemory => "out of memory"@,
                ArenaError::InvalidLayout => "invalid memory layout"@,
                ArenaError::UnsupportedAlignment => "unsupported alignment"@,
                ArenaError::ArenaFull => "arena full"@,
            },
    {
        match self {
            ArenaError::OutOfMemory => "out of memory",
            ArenaError::InvalidLayout => "invalid memory layout",
            ArenaError::UnsupportedAlignment => "unsupported alignment",
            ArenaError::ArenaFull => "arena full",
        }
    }
}

/// The result of an arena operation.
pub type ArenaResult<T> = Result<T, ArenaError>;

/// Calls `Box::leak` on a fresh box: the value moves to a heap block that
/// is never freed, and the reference points at it.
#[verifier::external_body]
pub(crate) fn leak<T: 'static>(value: T) -> (r: &'static mut T)
    ensures
        *r == value,
{
    std::boxed::Box::leak(std::boxed::Box::new(value))
}

/// Calls `Vec::leak`: the elements stay in a heap block that is never
/// freed, and the slice covers them.
#[verifier::external_body]
pub(crate) fn leak_slice<T: 'static>(v: Vec<T>) -> (r: &'static mut [T])
    ensures
        r@ == v@,
{
    v.leak()
}

/// `len` uninitialized slots.
pub(crate) fn uninit_vec<T>(len: usize) -> (v: Vec<MaybeUninit<T>>)
    ensures
        v@.len() == len,
{
    let mut v: Vec<MaybeUninit<T>> = Vec::new();
    let mut i: usize = 0;
    while i < len
        invariant
            i <= len,
            v@.len() == i,
        decreases len - i,
    {
        v.push(MaybeUninit::uninit());
        i = i + 1;
    }
    v
}

/// Where an allocation of `size` bytes aligned to `align` lands in a chunk
/// of `capacity` bytes whose first `offset` bytes are taken: its start, if
/// it fits.
pub open spec fn placement(offset: nat, size: nat, align: nat, capacity: nat) -> Option<nat> {
    if align_up(offset, align) + size <= capacity {
        Some(align_up(offset, align))
    } else {
        None
    }
}

/// The start of an allocation of `size` bytes aligned to `align` after the
/// first `offset` of `capacity` bytes, if it fits.
pub fn place(offset: usize, size: usize, align: usize, capacity: usize) -> (r: Option<usize>)
    requires
        align > 0,
    ensures
        match r {
            Some(start) => placement(offset as nat, size as nat, align as nat, capacity as nat) == Some(
                start as nat,
            ),
            None => placement(offset as nat, size as nat, align as nat, capacity as nat) is None,
        },
{
    match checked_align_up(offset, align) {
        Some(start) => {
            if start <= capacity && size <= capacity - start {
                Some(start)
            } else {
                None
            }
        },
        None => None,
    }
}

/// A bump arena over a chunk of `capacity` bytes.
pub struct Arena {
    offset: usize,
    capacity: usize,
    alignment: usize,
    total_allocated: usize,
    num_allocations: usize,
}

impl Arena {
    /// The capacity of an arena made by `new` (1 MiB).
    pub const DEFAULT_CAPACITY: usize = 1048576;
    /// The alignment of an arena's chunk unless another is asked for.
    pub const DEFAULT_ALIGNMENT: usize = 8;

    pub closed spec fn offset_of(&self) -> nat {
        self.offset as nat
    }

    pub closed spec fn cap(&self) -> nat {
        self.capacity as nat
    }

    pub closed spec fn chunk_alignment(&self) -> nat {
        self.alignment as nat
    }

    /// Bytes handed out since the last reset, padding excluded.
    pub closed spec fn allocated(&self) -> nat {
        self.total_allocated as nat
    }

    pub closed spec fn allocations(&self) -> nat {
        self.num_allocations as nat
    }

    /// The offset never passes the capacity, and what was handed out fits
    /// below the offset.
    pub closed spec fn wf(&self) -> bool {
        &&& self.offset <= self.capacity
        &&& self.total_allocated <= self.offset
        &&& layout_ok(self.capacity as nat, self.alignment as nat)
    }

    /// An arena of `DEFAULT_CAPACITY` bytes.
    pub fn new() -> (r: ArenaResult<Arena>)
        ensures
            r matches Ok(a) && a.wf() && a.cap() == Self::DEFAULT_CAPACITY && a.offset_of() == 0
                && a.allocated() == 0 && a.allocations() == 0,
    {
        proof {
            reveal_with_fuel(is_pow2, 4);
        }
        Self::with_capacity(Self::DEFAULT_CAPACITY)
    }

    /// An arena of `capacity` bytes aligned to `DEFAULT_ALIGNMENT`.
    pub fn with_capacity(capacity: usize) -> (r: ArenaResult<Arena>)
        ensures
            capacity == 0 || !layout_ok(capacity as nat, 8) ==> r == Err::<Arena, ArenaError>(
                ArenaError::InvalidLayout,
            ),
            capacity > 0 && layout_ok(capacity as nat, 8) ==> (r matches Ok(a) && a.wf() && a.cap() == capacity
                && a.offset_of() == 0 && a.allocated() == 0 && a.allocations() == 0),
    {
        Self::with_alignment(capacity, Self::DEFAULT_ALIGNMENT)
    }

    /// An arena of `capacity` bytes aligned to `alignment`; refused with
    /// `InvalidLayout` when the capacity is 0 or the layout is invalid.
    pub fn with_alignment(capacity: usize, alignment: usize) -> (r: ArenaResult<Arena>)
        ensures
            capacity == 0 || !layout_ok(capacity as nat, alignment as nat) ==> r == Err::<Arena, ArenaError>(
                ArenaError::InvalidLayout,
            ),
            capacity > 0 && layout_ok(capacity as nat, alignment as nat) ==> (r matches Ok(a) && a.wf()
                && a.cap() == capacity && a.chunk_alignment() == alignment && a.offset_of() == 0
                && a.allocated() == 0 && a.allocations() == 0),
    {
        if capacity == 0 || !check_layout(capacity, alignment) {
            return Err(ArenaError::InvalidLayout);
        }
        Ok(Arena { offset: 0, capacity, alignment, total_allocated: 0, num_allocations: 0 })
    }

    /// Accounts for an allocation of `size` bytes aligned to `align`.
    fn reserve(&mut self, size: usize, align: usize) -> (r: ArenaResult<usize>)
        requires
            old(self).wf(),
            old(self).allocations() < usize::MAX,
            align > 0,
        ensures
            final(self).wf(),
            final(self).cap() == old(self).cap(),
            final(self).chunk_alignment() == old(self).chunk_alignment(),
            match placement(old(self).offset_of(), size as nat, align as nat, old(self).cap()) {
                Some(start) => r == Ok::<usize, ArenaError>(start as usize) && final(self).offset_of() == start
                    + size && final(self).allocated() == old(self).allocated() + size
                    && final(self).allocations() == old(self).allocations() + 1,
                None => r == Err::<usize, ArenaError>(ArenaError::ArenaFull) && final(self).offset_of()
                    == old(self).offset_of() && final(self).allocated() == old(self).allocated()
                    && final(self).allocations() == old(self).allocations(),
            },
    {
        match place(self.offset, size, align, self.capacity) {
            Some(start) => {
                self.offset = start + size;
                self.total_allocated = self.total_allocated + size;
                self.num_allocations = self.num_allocations + 1;
                Ok(start)
            },
            None => Err(ArenaError::ArenaFull),
        }
    }

    /// Space for one `T`, aligned for it.
    pub fn alloc_slot<T: 'static>(&mut self) -> (r: ArenaResult<&'static mut MaybeUninit<T>>)
        requires
            old(self).wf(),
            old(self).allocations() < usize::MAX,
        ensures
            final(self).wf(),
            final(self).cap() == old(self).cap(),
            match placement(
                old(self).offset_of(),
                vstd::layout::size_of::<T>(),
                vstd::layout::align_of::<T>(),
                old(self).cap(),
            ) {
                Some(start) => r is Ok && final(self).offset_of() == start + vstd::layout::size_of::<T>()
                    && final(self).allocations() == old(self).allocations() + 1,
                None => r == Err::<&'static mut MaybeUninit<T>, ArenaError>(ArenaError::ArenaFull)
                    && final(self).offset_of() == old(self).offset_of(),
            },
    {
        vstd::layout::layout_for_type_is_valid::<T>();
        let size = std::mem::size_of::<T>();
        let align = std::mem::align_of::<T>();
        match self.reserve(size, align) {
            Ok(_) => Ok(leak(MaybeUninit::uninit())),
            Err(e) => Err(e),
        }
    }

    /// Space for `value`, initialized with it.
    pub fn alloc_init<T: 'static>(&mut self, value: T) -> (r: ArenaResult<&'static mut T>)
        requires
            old(self).wf(),
            old(self).allocations() < usize::MAX,
        ensures
            final(self).wf(),
            final(self).cap() == old(self).cap(),
            match placement(
                old(self).offset_of(),
                vstd::layout::size_of::<T>(),
                vstd::layout::align_of::<T>(),
                old(self).cap(),
            ) {
                Some(start) => (r matches Ok(v) && *v == value) && final(self).offset_of() == start
                    + vstd::layout::size_of::<T>() && final(self).allocations() == old(self).allocations() + 1,
                None => r == Err::<&'static mut T, ArenaError>(ArenaError::ArenaFull) && final(self).offset_of()
                    == old(self).offset_of(),
            },
    {
        vstd::layout::layout_for_type_is_valid::<T>();
        let size = std::mem::size_of::<T>();
        let align = std::mem::align_of::<T>();
        match self.reserve(size, align) {
            Ok(_) => Ok(leak(value)),
            Err(e) => Err(e),
        }
    }

    /// Space for `len` values of `T`; `InvalidLayout` when their size
    /// overflows `usize`.
    pub fn alloc_slice<T: 'static>(&mut self, len: usize) -> (r: ArenaResult<&'static mut [MaybeUninit<T>]>)
        requires
            old(self).wf(),
            old(self).allocations() < usize::MAX,
        ensures
            final(self).wf(),
            final(self).cap() == old(self).cap(),
            vstd::layout::size_of::<T>() * len > usize::MAX ==> r == Err::<&'static mut [MaybeUninit<T>], ArenaError>(
                ArenaError::InvalidLayout,
            ) && final(self).offset_of() == old(self).offset_of(),
            vstd::layout::size_of::<T>() * len <= usize::MAX ==> match placement(
                old(self).offset_of(),
                (vstd::layout::size_of::<T>() * len) as nat,
                vstd::layout::align_of::<T>(),
                old(self).cap(),
            ) {
                Some(start) => (r matches Ok(sl) && sl@.len() == len) && final(self).offset_of() == start
                    + vstd::layout::size_of::<T>() * len,
                None => r == Err::<&'static mut [MaybeUninit<T>], ArenaError>(ArenaError::ArenaFull)
                    && final(self).offset_of() == old(self).offset_of(),
            },
    {
        vstd::layout::layout_for_type_is_valid::<T>();
        let size = match std::mem::size_of::<T>().checked_mul(len) {
            Some(s) => s,
            None => {
                return Err(ArenaError::InvalidLayout);
            },
        };
        let align = std::mem::align_of::<T>();
        match self.reserve(size, align) {
            Ok(_) => Ok(leak_slice(uninit_vec(len))),
            Err(e) => Err(e),
        }
    }

    /// Space for the given values, initialized with them in order.
    pub fn alloc_slice_from_iter<T: 'static>(&mut self, values: Vec<T>) -> (r: ArenaResult<&'static mut [T]>)
        requires
            old(self).wf(),
            old(self).allocations() < usize::MAX,
        ensures
            final(self).wf(),
            final(self).cap() == old(self).cap(),
            r matches Ok(sl) ==> sl@ == values@,
            vstd::layout::size_of::<T>() * values@.len() > usize::MAX ==> r == Err::<&'static mut [T], ArenaError>(
                ArenaError::InvalidLayout,
            ),
            vstd::layout::size_of::<T>() * values@.len() <= usize::MAX ==> (r is Ok <==> placement(
                old(self).offset_of(),
                (vstd::layout::size_of::<T>() * values@.len()) as nat,
                vstd::layout::align_of::<T>(),
                old(self).cap(),
            ) is Some),
    {
        vstd::layout::layout_for_type_is_valid::<T>();
        let size = match std::mem::size_of::<T>().checked_mul(values.len()) {
            Some(s) => s,
            None => {
                return Err(ArenaError::InvalidLayout);
            },
        };
        let align = std::mem::align_of::<T>();
        match self.reserve(size, align) {
            Ok(_) => Ok(leak_slice(values)),
            Err(e) => Err(e),
        }
    }

    /// Makes the whole chunk available again.
    pub fn reset(&mut self)
        requires
            old(self).wf(),
        ensures
            final(self).wf(),
            final(self).cap() == old(self).cap(),
            final(self).offset_of() == 0,
            final(self).allocated() == 0,
            final(self).allocations() == 0,
    {
        self.offset = 0;
        self.total_allocated = 0;
        self.num_allocations = 0;
    }

    pub fn remaining(&self) -> (n: usize)
        requires
            self.wf(),
        ensures
            n == self.cap() - self.offset_of(),
    {
        self.capacity - self.offset
    }

    pub fn used(&self) -> (n: usize)
        ensures
            n == self.offset_of(),
    {
        self.offset
    }

    pub fn capacity(&self) -> (n: usize)
        ensures
            n == self.cap(),
    {
        self.capacity
    }

    pub fn total_allocated(&self) -> (n: usize)
        ensures
            n == self.allocated(),
    {
        self.total_allocated
    }

    pub fn num_allocations(&self) -> (n: usize)
        ensures
            n == self.allocations(),
    {
        self.num_allocations
    }
}

impl Default for Arena {
    /// An arena of `DEFAULT_CAPACITY` bytes.
    fn default() -> (a: Arena)
        ensures
            a.wf(),
            a.cap() == Arena::DEFAULT_CAPACITY,
            a.offset_of() == 0,
    {
        proof {
            reveal_with_fuel(is_pow2, 4);
        }
        Arena { offset: 0, capacity: Arena::DEFAULT_CAPACITY, alignment: Arena::DEFAULT_ALIGNMENT, total_allocated: 0, num_allocations: 0 }
    }
}

/// An allocation never passes the capacity: after any accepted request
/// the offset is still within the chunk, and the request starts at a
/// multiple of its alignment.
pub proof fn law_placement_fits(offset: nat, size: nat, align: nat, capacity: nat)
    requires
        align > 0,
        placement(offset, size, align, capacity) is Some,
    ensures
        placement(offset, size, align, capacity)->0 + size <= capacity,
        placement(offset, size, align, capacity)->0 % align == 0,
        placement(offset, size, align, capacity)->0 >= offset,
{
    crate::util::layout::law_align_up(offset, align);
}

/// An arena for values of one type, counted in elements.
pub struct TypedArena<T> {
    offset: usize,
    capacity: usize,
    marker: std::marker::PhantomData<T>,
}

impl<T: 'static> TypedArena<T> {
    pub closed spec fn used_slots(&self) -> nat {
        self.offset as nat
    }

    pub closed spec fn slots(&self) -> nat {
        self.capacity as nat
    }

    pub closed spec fn wf(&self) -> bool {
        self.offset <= self.capacity
    }

    /// Room for `capacity` values; refused with `InvalidLayout` when the
    /// capacity is 0 or the values' total size is no valid layout.
    pub fn with_capacity(capacity: usize) -> (r: ArenaResult<Self>)
        ensures
            (capacity == 0 || vstd::layout::size_of::<T>() * capacity > usize::MAX || !layout_ok(
                (vstd::layout::size_of::<T>() * capacity) as nat,
                vstd::layout::align_of::<T>(),
            )) ==> r == Err::<Self, ArenaError>(ArenaError::InvalidLayout),
            !(capacity == 0 || vstd::layout::size_of::<T>() * capacity > usize::MAX || !layout_ok(
                (vstd::layout::size_of::<T>() * capacity) as nat,
                vstd::layout::align_of::<T>(),
            )) ==> (r matches Ok(a) && a.wf() && a.slots() == capacity && a.used_slots() == 0),
    {
        if capacity == 0 {
            return Err(ArenaError::InvalidLayout);
        }
        let size = match std::mem::size_of::<T>().checked_mul(capacity) {
            Some(s) => s,
            None => {
                return Err(ArenaError::InvalidLayout);
            },
        };
        if !check_layout(size, std::mem::align_of::<T>()) {
            return Err(ArenaError::InvalidLayout);
        }
        Ok(TypedArena { offset: 0, capacity, marker: std::marker::PhantomData })
    }

    /// A slot for one value; `ArenaFull` when every slot is taken.
    pub fn alloc_slot(&mut self) -> (r: ArenaResult<&'static mut MaybeUninit<T>>)
        requires
            old(self).wf(),
        ensures
            final(self).wf(),
            final(self).slots() == old(self).slots(),
            old(self).used_slots() < old(self).slots() ==> r is Ok && final(self).used_slots()
                == old(self).used_slots() + 1,
            old(self).used_slots() >= old(self).slots() ==> r == Err::<&'static mut MaybeUninit<T>, ArenaError>(
                ArenaError::ArenaFull,
            ) && final(self).used_slots() == old(self).used_slots(),
    {
        if self.offset >= self.capacity {
            return Err(ArenaError::ArenaFull);
        }
        self.offset = self.offset + 1;
        Ok(leak(MaybeUninit::uninit()))
    }

    /// A slot holding `value`; `ArenaFull` when every slot is taken.
    pub fn alloc_init(&mut self, value: T) -> (r: ArenaResult<&'static mut T>)
        requires
            old(self).wf(),
        ensures
            final(self).wf(),
            final(self).slots() == old(self).slots(),
            old(self).used_slots() < old(self).slots() ==> (r matches Ok(v) && *v == value)
                && final(self).used_slots() == old(self).used_slots() + 1,
            old(self).used_slots() >= old(self).slots() ==> r == Err::<&'static mut T, ArenaError>(
                ArenaError::ArenaFull,
            ) && final(self).used_slots() == old(self).used_slots(),
    {
        if self.offset >= self.capacity {
            return Err(ArenaError::ArenaFull);
        }
        self.offset = self.offset + 1;
        Ok(leak(value))
    }

    /// `count` consecutive slots; `ArenaFull` when fewer are free.
    pub fn alloc_many(&mut self, count: usize) -> (r: ArenaResult<&'static mut [MaybeUninit<T>]>)
        requires
            old(self).wf(),
        ensures
            final(self).wf(),
            final(self).slots() == old(self).slots(),
            old(self).used_slots() + count <= old(self).slots() ==> (r matches Ok(sl) && sl@.len() == count)
                && final(self).used_slots() == old(self).used_slots() + count,
            old(self).used_slots() + count > old(self).slots() ==> r == Err::<
                &'static mut [MaybeUninit<T>],
                ArenaError,
            >(ArenaError::ArenaFull) && final(self).used_slots() == old(self).used_slots(),
    {
        if count > self.capacity - self.offset {
            return Err(ArenaError::ArenaFull);
        }
        self.offset = self.offset + count;
        Ok(leak_slice(uninit_vec(count)))
    }

    /// Makes every slot available again.
    pub fn reset(&mut self)
        requires
            old(self).wf(),
        ensures
            final(self).wf(),
            final(self).used_slots() == 0,
            final(self).slots() == old(self).slots(),
    {
        self.offset = 0;
    }

    pub fn remaining(&self) -> (n: usize)
        requires
            self.wf(),
        ensures
            n == self.slots() - self.used_slots(),
    {
        self.capacity - self.offset
    }

    pub fn used(&self) -> (n: usize)
        ensures
            n == self.used_slots(),
    {
        self.offset
    }

    pub fn capacity(&self) -> (n: usize)
        ensures
            n == self.slots(),
    {
        self.capacity
    }
}

/// The offsets of a list of chunks, summed.
pub open spec fn sum_used(chunks: Seq<(usize, usize)>) -> nat
    decreases chunks.len(),
{
    if chunks.len() == 0 {
        0
    } else {
        sum_used(chunks.drop_last()) + chunks.last().0 as nat
    }
}

/// The capacities of a list of chunks, summed.
pub open spec fn sum_capacity(chunks: Seq<(usize, usize)>) -> nat
    decreases chunks.len(),
{
    if chunks.len() == 0 {
        0
    } else {
        sum_capacity(chunks.drop_last()) + chunks.last().1 as nat
    }
}

/// An arena made of chunks of equal size; allocation uses the newest chunk
/// and `grow` adds one.  Each chunk is an (offset, capacity) pair.
pub struct GrowableArena {
    chunks: Vec<(usize, usize)>,
    current_chunk: usize,
    chunk_size: usize,
    alignment: usize,
}

impl GrowableArena {
    pub closed spec fn chunk_list(&self) -> Seq<(usize, usize)> {
        self.chunks@
    }

    pub closed spec fn current(&self) -> nat {
        self.current_chunk as nat
    }

    pub closed spec fn size_of_chunks(&self) -> nat {
        self.chunk_size as nat
    }

    pub closed spec fn wf(&self) -> bool {
        &&& self.chunks@.len() >= 1
        &&& self.current_chunk == self.chunks@.len() - 1
        &&& forall|i: int| 0 <= i < self.chunks@.len() ==> (#[trigger] self.chunks@[i]).0 <= self.chunks@[i].1
            && self.chunks@[i].1 == self.chunk_size
        &&& self.alignment == 8
        &&& layout_ok(self.chunk_size as nat, 8)
    }

    /// One chunk of `Arena::DEFAULT_CAPACITY` bytes.
    pub fn new() -> (r: ArenaResult<Self>)
        ensures
            r matches Ok(a) && a.wf() && a.size_of_chunks() == Arena::DEFAULT_CAPACITY && a.chunk_list().len() == 1
                && a.chunk_list()[0].0 == 0,
    {
        proof {
            reveal_with_fuel(is_pow2, 4);
        }
        Self::with_chunk_size(Arena::DEFAULT_CAPACITY)
    }

    /// One chunk of `chunk_size` bytes; `InvalidLayout` when that is no
    /// valid layout.
    pub fn with_chunk_size(chunk_size: usize) -> (r: ArenaResult<Self>)
        ensures
            !layout_ok(chunk_size as nat, 8) ==> r == Err::<Self, ArenaError>(ArenaError::InvalidLayout),
            layout_ok(chunk_size as nat, 8) ==> (r matches Ok(a) && a.wf() && a.size_of_chunks() == chunk_size
                && a.chunk_list().len() == 1 && a.chunk_list()[0].0 == 0),
    {
        if !check_layout(chunk_size, Arena::DEFAULT_ALIGNMENT) {
            return Err(ArenaError::InvalidLayout);
        }
        let mut chunks = Vec::new();
        chunks.push((0usize, chunk_size));
        Ok(GrowableArena { chunks, current_chunk: 0, chunk_size, alignment: Arena::DEFAULT_ALIGNMENT })
    }

    /// Space for one `T` in the newest chunk; `ArenaFull` when it does not
    /// fit there.
    pub fn alloc_slot<T: 'static>(&mut self) -> (r: ArenaResult<&'static mut MaybeUninit<T>>)
        requires
            old(self).wf(),
        ensures
            final(self).wf(),
            final(self).chunk_list().len() == old(self).chunk_list().len(),
            ({
                let c = old(self).chunk_list()[old(self).current() as int];
                match placement(c.0 as nat, vstd::layout::size_of::<T>(), vstd::layout::align_of::<T>(), c.1 as nat) {
                    Some(start) => r is Ok && final(self).chunk_list() == old(self).chunk_list().update(
                        old(self).current() as int,
                        ((start + vstd::layout::size_of::<T>()) as usize, c.1),
                    ),
                    None => r == Err::<&'static mut MaybeUninit<T>, ArenaError>(ArenaError::ArenaFull)
                        && final(self).chunk_list() == old(self).chunk_list(),
                }
            }),
    {
        vstd::layout::layout_for_type_is_valid::<T>();
        let size = std::mem::size_of::<T>();
        let align = std::mem::align_of::<T>();
        let (off, cap) = self.chunks[self.current_chunk];
        match place(off, size, align, cap) {
            Some(start) => {
                self.chunks.set(self.current_chunk, (start + size, cap));
                Ok(leak(MaybeUninit::uninit()))
            },
            None => Err(ArenaError::ArenaFull),
        }
    }

    /// Adds an empty chunk and makes it the current one.
    pub fn grow(&mut self) -> (r: ArenaResult<()>)
        requires
            old(self).wf(),
            old(self).chunk_list().len() < usize::MAX,
        ensures
            final(self).wf(),
            r is Ok,
            final(self).chunk_list() == old(self).chunk_list().push((0usize, old(self).size_of_chunks() as usize)),
            final(self).size_of_chunks() == old(self).size_of_chunks(),
    {
        self.chunks.push((0, self.chunk_size));
        self.current_chunk = self.current_chunk + 1;
        Ok(())
    }

    /// Empties every chunk.
    pub fn reset(&mut self)
        requires
            old(self).wf(),
        ensures
            final(self).wf(),
            final(self).chunk_list().len() == old(self).chunk_list().len(),
            forall|i: int| 0 <= i < old(self).chunk_list().len() ==> (#[trigger] final(self).chunk_list()[i]) == (
                0usize,
                old(self).chunk_list()[i].1,
            ),
    {
        let mut i: usize = 0;
        while i < self.chunks.len()
            invariant
                self.chunks@.len() == old(self).chunks@.len(),
                i <= self.chunks@.len(),
                forall|k: int| 0 <= k < i ==> self.chunks@[k] == (0usize, old(self).chunks@[k].1),
                forall|k: int| i <= k < self.chunks@.len() ==> self.chunks@[k] == old(self).chunks@[k],
                self.current_chunk == old(self).current_chunk,
                self.chunk_size == old(self).chunk_size,
                self.alignment == old(self).alignment,
                old(self).wf(),
            decreases self.chunks@.len() - i,
        {
            let cap = self.chunks[i].1;
            self.chunks.set(i, (0, cap));
            i = i + 1;
        }
    }

    /// The bytes taken in all chunks.
    pub fn total_used(&self) -> (n: usize)
        requires
            self.wf(),
            sum_used(self.chunk_list()) <= usize::MAX,
        ensures
            n == sum_used(self.chunk_list()),
    {
        let mut n: usize = 0;
        let mut i: usize = 0;
        while i < self.chunks.len()
            invariant
                i <= self.chunks@.len(),
                n == sum_used(self.chunks@.take(i as int)),
                sum_used(self.chunks@) <= usize::MAX,
            decreases self.chunks@.len() - i,
        {
            proof {
                assert(self.chunks@.take(i as int + 1).drop_last() =~= self.chunks@.take(i as int));
                lemma_sum_used_prefix(self.chunks@, i as int + 1);
            }
            n = n + self.chunks[i].0;
            i = i + 1;
        }
        proof {
            assert(self.chunks@.take(i as int) =~= self.chunks@);
        }
        n
    }

    /// The bytes of all chunks.
    pub fn total_capacity(&self) -> (n: usize)
        requires
            self.wf(),
            sum_capacity(self.chunk_list()) <= usize::MAX,
        ensures
            n == sum_capacity(self.chunk_list()),
    {
        let mut n: usize = 0;
        let mut i: usize = 0;
        while i < self.chunks.len()
            invariant
                i <= self.chunks@.len(),
                n == sum_capacity(self.chunks@.take(i as int)),
                sum_capacity(self.chunks@) <= usize::MAX,
            decreases self.chunks@.len() - i,
        {
            proof {
                assert(self.chunks@.take(i as int + 1).drop_last() =~= self.chunks@.take(i as int));
                lemma_sum_capacity_prefix(self.chunks@, i as int + 1);
            }
            n = n + self.chunks[i].1;
            i = i + 1;
        }
        proof {
            assert(self.chunks@.take(i as int) =~= self.chunks@);
        }
        n
    }
}

proof fn lemma_sum_used_prefix(s: Seq<(usize, usize)>, k: int)
    requires
        0 <= k <= s.len(),
    ensures
        sum_used(s.take(k)) <= sum_used(s),
    decreases s.len(),
{
    if k < s.len() {
        assert(s.drop_last().take(k) =~= s.take(k));
        lemma_sum_used_prefix(s.drop_last(), k);
    } else {
        assert(s.take(k) =~= s);
    }
}

proof fn lemma_sum_capacity_prefix(s: Seq<(usize, usize)>, k: int)
    requires
        0 <= k <= s.len(),
    ensures
        sum_capacity(s.take(k)) <= sum_capacity(s),
    decreases s.len(),
{
    if k < s.len() {
        assert(s.drop_last().take(k) =~= s.take(k));
        lemma_sum_capacity_prefix(s.drop_last(), k);
    } else {
        assert(s.take(k) =~= s);
    }
}

/// A bump allocator that is reset often.
pub struct BumpAlloc {
    offset: usize,
    capacity: usize,
    alignment: usize,
}

impl BumpAlloc {
    pub closed spec fn offset_of(&self) -> nat {
        self.offset as nat
    }

    pub closed spec fn cap(&self) -> nat {
        self.capacity as nat
    }

    pub closed spec fn wf(&self) -> bool {
        self.offset <= self.capacity
    }

    /// A bump allocator over `capacity` bytes aligned to 8.
    pub fn new(capacity: usize) -> (r: ArenaResult<Self>)
        ensures
            !layout_ok(capacity as nat, 8) ==> r == Err::<Self, ArenaError>(ArenaError::InvalidLayout),
            layout_ok(capacity as nat, 8) ==> (r matches Ok(b) && b.wf() && b.cap() == capacity && b.offset_of() == 0),
    {
        Self::with_alignment(capacity, Arena::DEFAULT_ALIGNMENT)
    }

    /// A bump allocator over `capacity` bytes aligned to `alignment`;
    /// `InvalidLayout` when that is no valid layout.
    pub fn with_alignment(capacity: usize, alignment: usize) -> (r: ArenaResult<Self>)
        ensures
            !layout_ok(capacity as nat, alignment as nat) ==> r == Err::<Self, ArenaError>(ArenaError::InvalidLayout),
            layout_ok(capacity as nat, alignment as nat) ==> (r matches Ok(b) && b.wf() && b.cap() == capacity
                && b.offset_of() == 0),
    {
        if !check_layout(capacity, alignment) {
            return Err(ArenaError::InvalidLayout);
        }
        Ok(BumpAlloc { offset: 0, capacity, alignment })
    }

    /// Space for one `T`; `ArenaFull` when it does not fit.
    pub fn alloc_slot<T: 'static>(&mut self) -> (r: ArenaResult<&'static mut MaybeUninit<T>>)
        requires
            old(self).wf(),
        ensures
            final(self).wf(),
            final(self).cap() == old(self).cap(),
            match placement(
                old(self).offset_of(),
                vstd::layout::size_of::<T>(),
                vstd::layout::align_of::<T>(),
                old(self).cap(),
            ) {
                Some(start) => r is Ok && final(self).offset_of() == start + vstd::layout::size_of::<T>(),
                None => r == Err::<&'static mut MaybeUninit<T>, ArenaError>(ArenaError::ArenaFull)
                    && final(self).offset_of() == old(self).offset_of(),
            },
    {
        vstd::layout::layout_for_type_is_valid::<T>();
        let size = std::mem::size_of::<T>();
        let align = std::mem::align_of::<T>();
        match place(self.offset, size, align, self.capacity) {
            Some(start) => {
                self.offset = start + size;
                Ok(leak(MaybeUninit::uninit()))
            },
            None => Err(ArenaError::ArenaFull),
        }
    }

    pub fn reset(&mut self)
        requires
            old(self).wf(),
        ensures
            final(self).wf(),
            final(self).offset_of() == 0,
            final(self).cap() == old(self).cap(),
    {
        self.offset = 0;
    }

    pub fn remaining(&self) -> (n: usize)
        requires
            self.wf(),
        ensures
            n == self.cap() - self.offset_of(),
    {
        self.capacity - self.offset
    }

    pub fn used(&self) -> (n: usize)
        ensures
            n == self.offset_of(),
    {
        self.offset
    }
}

} // verus!
