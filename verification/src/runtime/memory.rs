//! Memory management for programs: allocation statistics, owned boxes,
//! arenas, object pools and stack-ordered allocation.
//!
//! The arenas keep the byte accounting of a chunk of `capacity` bytes (see
//! `crate::util::arena`); each accepted allocation is a heap block of its
//! own that stays valid for the rest of the program.

use vstd::prelude::*;
use std::mem::MaybeUninit;
use crate::util::arena::{leak, leak_slice, place, placement, uninit_vec};
use crate::util::layout::{check_layout, is_pow2, layout_ok};

verus! {

/// Why an allocation failed.
#[derive(Debug, Clone, Copy, PartialEq, Eq, Structural)]
pub enum AllocError {
    OutOfMemory,
    InvalidLayout,
    UnsupportedAlignment,
    PoolExhausted,
    ArenaFull,
}

impl AllocError {
    /// The human-readable description of the error.
    pub fn message(&self) -> (s: &'static str)
        ensures
            s@ == match *self {
                AllocError::OutOfMemory => "out of memory"@,
                AllocError::InvalidLayout => "invalid memory layout"@,
                AllocError::UnsupportedAlignment => "unsupported alignment"@,
                AllocError::PoolExhausted => "pool exhausted"@,
                AllocError::ArenaFull => "arena full"@,
            },
    {
        match self {
            AllocError::OutOfMemory => "out of memory",
            AllocError::InvalidLayout => "invalid memory layout",
            AllocError::UnsupportedAlignment => "unsupported alignment",
            AllocError::PoolExhausted => "pool exhausted",
            AllocError::ArenaFull => "arena full",
        }
    }
}

/// The result of an allocation.
pub type AllocResult<T> = Result<T, AllocError>;

/// Counters of allocations and deallocations.
#[derive(Debug, Clone, Copy, PartialEq, Eq, Structural)]
pub struct MemoryStats {
    pub total_allocated: usize,
    pub total_deallocated: usize,
    pub current_usage: usize,
    pub peak_usage: usize,
    pub num_allocations: usize,
    pub num_deallocations: usize,
}

impl MemoryStats {
    /// The counters are consistent: what is in use is what was allocated
    /// and not deallocated, and the peak is at least the current usage.
    pub open spec fn consistent(&self) -> bool {
        &&& self.current_usage + self.total_deallocated == self.total_allocated
        &&& self.current_usage <= self.peak_usage
    }

    /// All counters at zero.
    pub fn new() -> (s: MemoryStats)
        ensures
            s == (MemoryStats {
                total_allocated: 0,
                total_deallocated: 0,
                current_usage: 0,
                peak_usage: 0,
                num_allocations: 0,
                num_deallocations: 0,
            }),
            s.consistent(),
    {
        MemoryStats {
            total_allocated: 0,
            total_deallocated: 0,
            current_usage: 0,
            peak_usage: 0,
            num_allocations: 0,
            num_deallocations: 0,
        }
    }

    /// Records an allocation of `size` bytes.
    pub fn record_alloc(&mut self, size: usize)
        requires
            old(self).total_allocated + size <= usize::MAX,
            old(self).current_usage + size <= usize::MAX,
            old(self).num_allocations < usize::MAX,
        ensures
            final(self).total_allocated == old(self).total_allocated + size,
            final(self).current_usage == old(self).current_usage + size,
            final(self).num_allocations == old(self).num_allocations + 1,
            final(self).peak_usage == (if old(self).current_usage + size > old(self).peak_usage {
                (old(self).current_usage + size) as usize
            } else {
                old(self).peak_usage
            }),
            final(self).total_deallocated == old(self).total_deallocated,
            final(self).num_deallocations == old(self).num_deallocations,
    {
        self.total_allocated = self.total_allocated + size;
        self.current_usage = self.current_usage + size;
        self.num_allocations = self.num_allocations + 1;
        if self.current_usage > self.peak_usage {
            self.peak_usage = self.current_usage;
        }
    }

    /// Records a deallocation of `size` bytes, which must be in use.
    pub fn record_dealloc(&mut self, size: usize)
        requires
            size <= old(self).current_usage,
            old(self).total_deallocated + size <= usize::MAX,
            old(self).num_deallocations < usize::MAX,
        ensures
            final(self).total_deallocated == old(self).total_deallocated + size,
            final(self).current_usage == old(self).current_usage - size,
            final(self).num_deallocations == old(self).num_deallocations + 1,
            final(self).total_allocated == old(self).total_allocated,
            final(self).peak_usage == old(self).peak_usage,
            final(self).num_allocations == old(self).num_allocations,
    {
        self.total_deallocated = self.total_deallocated + size;
        self.current_usage = self.current_usage - size;
        self.num_deallocations = self.num_deallocations + 1;
    }
}

impl Default for MemoryStats {
    fn default() -> (s: MemoryStats)
        ensures
            s.total_allocated == 0 && s.total_deallocated == 0 && s.current_usage == 0 && s.peak_usage == 0
                && s.num_allocations == 0 && s.num_deallocations == 0,
    {
        MemoryStats::new()
    }
}

/// Recording allocations and deallocations keeps the counters consistent:
/// the usage stays what was allocated and not given back, and the peak
/// never falls below it.
pub proof fn law_stats_consistent(before: MemoryStats, after_alloc: MemoryStats, after_dealloc: MemoryStats, size: nat)
    requires
        before.consistent(),
        after_alloc.total_allocated == before.total_allocated + size,
        after_alloc.current_usage == before.current_usage + size,
        after_alloc.total_deallocated == before.total_deallocated,
        after_alloc.peak_usage == (if before.current_usage + size > before.peak_usage {
            before.current_usage + size
        } else {
            before.peak_usage as int
        }),
        after_dealloc.total_deallocated == after_alloc.total_deallocated + size,
        after_dealloc.current_usage == after_alloc.current_usage - size,
        after_dealloc.total_allocated == after_alloc.total_allocated,
        after_dealloc.peak_usage == after_alloc.peak_usage,
    ensures
        after_alloc.consistent(),
        after_dealloc.consistent(),
        after_dealloc.current_usage == before.current_usage,
        after_dealloc.peak_usage >= before.peak_usage,
{
}

/// An owned heap value.
pub struct Box<T> {
    inner: std::boxed::Box<T>,
}

impl<T> Box<T> {
    pub closed spec fn value(&self) -> T {
        *self.inner
    }

    /// Moves `value` to the heap.  The global allocator aborts the program
    /// rather than report exhaustion, so this always succeeds.
    pub fn new(value: T) -> (r: AllocResult<Box<T>>)
        ensures
            r matches Ok(b) && b.value() == value,
    {
        Ok(Box { inner: std::boxed::Box::new(value) })
    }

    pub fn as_ref(&self) -> (r: &T)
        ensures
            *r == self.value(),
    {
        &*self.inner
    }

    pub fn as_mut(&mut self) -> (r: &mut T)
        ensures
            *r == old(self).value(),
            final(self).value() == *final(r),
    {
        &mut *self.inner
    }

    /// The value, moved out of the box.
    pub fn into_inner(self) -> (v: T)
        ensures
            v == self.value(),
    {
        *self.inner
    }
}

impl<T> std::ops::Deref for Box<T> {
    type Target = T;

    fn deref(&self) -> (r: &T)
        ensures
            *r == self.value(),
    {
        &*self.inner
    }
}

/// An arena over a chunk of `capacity` bytes.
pub struct Arena {
    offset: usize,
    capacity: usize,
    alignment: usize,
}

impl Arena {
    pub closed spec fn offset_of(&self) -> nat {
        self.offset as nat
    }

    pub closed spec fn cap(&self) -> nat {
        self.capacity as nat
    }

    pub closed spec fn wf(&self) -> bool {
        self.offset <= self.capacity
    }

    /// An arena of `capacity` bytes aligned to 8.
    pub fn new(capacity: usize) -> (r: AllocResult<Arena>)
        ensures
            !layout_ok(capacity as nat, 8) ==> r == Err::<Arena, AllocError>(AllocError::InvalidLayout),
            layout_ok(capacity as nat, 8) ==> (r matches Ok(a) && a.wf() && a.cap() == capacity && a.offset_of() == 0),
    {
        Self::with_alignment(capacity, 8)
    }

    /// An arena of `capacity` bytes aligned to `alignment`; `InvalidLayout`
    /// when that is no valid layout.
    pub fn with_alignment(capacity: usize, alignment: usize) -> (r: AllocResult<Arena>)
        ensures
            !layout_ok(capacity as nat, alignment as nat) ==> r == Err::<Arena, AllocError>(AllocError::InvalidLayout),
            layout_ok(capacity as nat, alignment as nat) ==> (r matches Ok(a) && a.wf() && a.cap() == capacity
                && a.offset_of() == 0),
    {
        if !check_layout(capacity, alignment) {
            return Err(AllocError::InvalidLayout);
        }
        Ok(Arena { offset: 0, capacity, alignment })
    }

    fn reserve(&mut self, size: usize, align: usize) -> (r: AllocResult<()>)
        requires
            old(self).wf(),
            align > 0,
        ensures
            final(self).wf(),
            final(self).cap() == old(self).cap(),
            match placement(old(self).offset_of(), size as nat, align as nat, old(self).cap()) {
                Some(start) => r is Ok && final(self).offset_of() == start + size,
                None => r == Err::<(), AllocError>(AllocError::ArenaFull) && final(self).offset_of()
                    == old(self).offset_of(),
            },
    {
        match place(self.offset, size, align, self.capacity) {
            Some(start) => {
                self.offset = start + size;
                Ok(())
            },
            None => Err(AllocError::ArenaFull),
        }
    }

    /// Space for one `T`; `ArenaFull` when it does not fit.
    pub fn alloc_slot<T: 'static>(&mut self) -> (r: AllocResult<&'static mut MaybeUninit<T>>)
        requires
            old(self).wf(),
        ensures
            final(self).wf(),
            final(self).cap() == old(self).cap(),
            match placement(
                old(self).offset_of(),
                vstd::layout::size_of::<T>(),
                vstd::layout::align_of::<T>(),
                old(self).cap(),
            ) {
                Some(start) => r is Ok && final(self).offset_of() == start + vstd::layout::size_of::<T>(),
                None => r == Err::<&'static mut MaybeUninit<T>, AllocError>(AllocError::ArenaFull)
                    && final(self).offset_of() == old(self).offset_of(),
            },
    {
        vstd::layout::layout_for_type_is_valid::<T>();
        match self.reserve(std::mem::size_of::<T>(), std::mem::align_of::<T>()) {
            Ok(()) => Ok(leak(MaybeUninit::uninit())),
            Err(e) => Err(e),
        }
    }

    /// Space for `value`, initialized with it.
    pub fn alloc_init<T: 'static>(&mut self, value: T) -> (r: AllocResult<&'static mut T>)
        requires
            old(self).wf(),
        ensures
            final(self).wf(),
            final(self).cap() == old(self).cap(),
            match placement(
                old(self).offset_of(),
                vstd::layout::size_of::<T>(),
                vstd::layout::align_of::<T>(),
                old(self).cap(),
            ) {
                Some(start) => (r matches Ok(v) && *v == value) && final(self).offset_of() == start
                    + vstd::layout::size_of::<T>(),
                None => r == Err::<&'static mut T, AllocError>(AllocError::ArenaFull) && final(self).offset_of()
                    == old(self).offset_of(),
            },
    {
        vstd::layout::layout_for_type_is_valid::<T>();
        match self.reserve(std::mem::size_of::<T>(), std::mem::align_of::<T>()) {
            Ok(()) => Ok(leak(value)),
            Err(e) => Err(e),
        }
    }

    /// Space for `len` values of `T`; `ArenaFull` when it does not fit.
    pub fn alloc_slice<T: 'static>(&mut self, len: usize) -> (r: AllocResult<&'static mut [MaybeUninit<T>]>)
        requires
            old(self).wf(),
            vstd::layout::size_of::<T>() * len <= usize::MAX,
        ensures
            final(self).wf(),
            final(self).cap() == old(self).cap(),
            match placement(
                old(self).offset_of(),
                (vstd::layout::size_of::<T>() * len) as nat,
                vstd::layout::align_of::<T>(),
                old(self).cap(),
            ) {
                Some(start) => (r matches Ok(sl) && sl@.len() == len) && final(self).offset_of() == start
                    + vstd::layout::size_of::<T>() * len,
                None => r == Err::<&'static mut [MaybeUninit<T>], AllocError>(AllocError::ArenaFull)
                    && final(self).offset_of() == old(self).offset_of(),
            },
    {
        vstd::layout::layout_for_type_is_valid::<T>();
        let size = std::mem::size_of::<T>() * len;
        match self.reserve(size, std::mem::align_of::<T>()) {
            Ok(()) => Ok(leak_slice(uninit_vec(len))),
            Err(e) => Err(e),
        }
    }

    pub fn reset(&mut self)
        requires
            old(self).wf(),
        ensures
            final(self).wf(),
            final(self).offset_of() == 0,
            final(self).cap() == old(self).cap(),
    {
        self.offset = 0;
    }

    pub fn remaining(&self) -> (n: usize)
        requires
            self.wf(),
        ensures
            n == self.cap() - self.offset_of(),
    {
        self.capacity - self.offset
    }

    pub fn used(&self) -> (n: usize)
        ensures
            n == self.offset_of(),
    {
        self.offset
    }

    pub fn capacity(&self) -> (n: usize)
        ensures
            n == self.cap(),
    {
        self.capacity
    }
}

/// A pool of `capacity` reusable slots.  A slot is acquired with a value
/// and handed back with `release`; the free slots form a stack.
pub struct Pool<T> {
    storage: Vec<Option<T>>,
    available: Vec<usize>,
    capacity: usize,
}

/// A slot taken from a pool.
pub struct PoolGuard {
    index: usize,
}

impl PoolGuard {
    pub closed spec fn slot(&self) -> nat {
        self.index as nat
    }
}

impl<T> Pool<T> {
    /// The free slots, the next to be taken last.
    pub closed spec fn free(&self) -> Seq<usize> {
        self.available@
    }

    pub closed spec fn slots(&self) -> Seq<Option<T>> {
        self.storage@
    }

    pub closed spec fn cap(&self) -> nat {
        self.capacity as nat
    }

    /// Every slot is either free (and empty) or taken (and holds a value),
    /// and no free slot is listed twice.
    pub closed spec fn wf(&self) -> bool {
        &&& self.storage@.len() == self.capacity
        &&& self.available@.len() <= self.capacity
        &&& forall|i: int| 0 <= i < self.available@.len() ==> (#[trigger] self.available@[i]) < self.capacity
        &&& forall|i: int, j: int| 0 <= i < j < self.available@.len() ==> #[trigger] self.available@[i]
            != #[trigger] self.available@[j]
        &&& forall|k: int| 0 <= k < self.capacity ==> (#[trigger] self.storage@[k] is None
            <==> self.available@.contains(k as usize))
    }

    /// A pool with every slot free.
    pub fn new(capacity: usize) -> (p: Pool<T>)
        ensures
            p.wf(),
            p.cap() == capacity,
            p.free().len() == capacity,
    {
        let mut storage: Vec<Option<T>> = Vec::new();
        let mut available: Vec<usize> = Vec::new();
        let mut i: usize = 0;
        while i < capacity
            invariant
                i <= capacity,
                storage@.len() == i,
                available@.len() == i,
                forall|k: int| 0 <= k < i ==> storage@[k] is None,
                forall|k: int| 0 <= k < i ==> (#[trigger] available@[k]) == k,
            decreases capacity - i,
        {
            storage.push(None);
            available.push(i);
            i = i + 1;
        }
        proof {
            assert forall|k: int| 0 <= k < capacity implies (#[trigger] storage@[k] is None <==> available@.contains(
                k as usize,
            )) by {
                assert(available@[k] == k);
            }
        }
        Pool { storage, available, capacity }
    }

    /// Takes a free slot and fills it with `init()`; `PoolExhausted` when
    /// none is free.
    pub fn acquire<F: FnOnce() -> T>(&mut self, init: F) -> (r: AllocResult<PoolGuard>)
        requires
            old(self).wf(),
            call_requires(init, ()),
        ensures
            final(self).wf(),
            final(self).cap() == old(self).cap(),
            old(self).free().len() == 0 ==> r == Err::<PoolGuard, AllocError>(AllocError::PoolExhausted)
                && final(self).free() == old(self).free(),
            old(self).free().len() > 0 ==> (r matches Ok(g) && g.slot() == old(self).free().last())
                && final(self).free() == old(self).free().drop_last(),
    {
        match self.available.pop() {
            Some(index) => {
                let value = init();
                self.storage.set(index, Some(value));
                proof {
                    let av = self.available@;
                    let old_av = old(self).available@;
                    assert(av =~= old_av.drop_last());
                    assert forall|k: int| 0 <= k < self.capacity implies (#[trigger] self.storage@[k] is None
                        <==> av.contains(k as usize)) by {
                        if k == index {
                            if av.contains(k as usize) {
                                let j = choose|j: int| 0 <= j < av.len() && av[j] == k as usize;
                                assert(old_av[j] != old_av[old_av.len() - 1]);
                            }
                        } else {
                            if old_av.contains(k as usize) {
                                let j = choose|j: int| 0 <= j < old_av.len() && old_av[j] == k as usize;
                                if j == old_av.len() - 1 {
                                    assert(false);
                                }
                                assert(av[j] == k as usize);
                            }
                            if av.contains(k as usize) {
                                let j = choose|j: int| 0 <= j < av.len() && av[j] == k as usize;
                                assert(old_av[j] == k as usize);
                            }
                        }
                    }
                }
                Ok(PoolGuard { index })
            },
            None => Err(AllocError::PoolExhausted),
        }
    }

    /// Takes a free slot filled with the default value.
    pub fn try_acquire(&mut self) -> (r: AllocResult<PoolGuard>)
        where T: Default
        requires
            old(self).wf(),
        ensures
            final(self).wf(),
            old(self).free().len() == 0 ==> r == Err::<PoolGuard, AllocError>(AllocError::PoolExhausted),
            old(self).free().len() > 0 ==> (r matches Ok(g) && g.slot() == old(self).free().last())
                && final(self).free() == old(self).free().drop_last(),
    {
        self.acquire(default_value::<T>)
    }

    /// The value in a taken slot.
    pub fn get(&self, guard: &PoolGuard) -> (r: &T)
        requires
            self.wf(),
            guard.slot() < self.cap(),
            !self.free().contains(guard.slot() as usize),
        ensures
            self.slots()[guard.slot() as int] == Some(*r),
    {
        proof {
            assert(self.storage@[guard.slot() as int] is Some);
        }
        self.storage[guard.index].as_ref().unwrap()
    }

    /// Hands a taken slot back; its value is dropped.
    pub fn release(&mut self, guard: PoolGuard)
        requires
            old(self).wf(),
            guard.slot() < old(self).cap(),
            !old(self).free().contains(guard.slot() as usize),
        ensures
            final(self).wf(),
            final(self).free() == old(self).free().push(guard.slot() as usize),
    {
        self.storage.set(guard.index, None);
        self.available.push(guard.index);
        proof {
            let av = self.available@;
            let old_av = old(self).available@;
            assert(av == old_av.push(guard.index));
            assert forall|i: int, j: int| 0 <= i < j < av.len() implies #[trigger] av[i] != #[trigger] av[j] by {
                if j == av.len() - 1 {
                    assert(old_av[i] != guard.index) by {
                        if old_av[i] == guard.index {
                            assert(old_av.contains(guard.index));
                        }
                    }
                } else {
                    assert(old_av[i] != old_av[j]);
                }
            }
            let ints = av.map_values(|x: usize| x as int);
            assert(ints.no_duplicates()) by {
                assert forall|i: int, j: int| 0 <= i < ints.len() && 0 <= j < ints.len() && i != j
                    implies ints[i] != ints[j] by {
                    if i < j {
                        assert(av[i] != av[j]);
                    } else {
                        assert(av[j] != av[i]);
                    }
                }
            }
            assert forall|k: int| 0 <= k < ints.len() implies 0 <= #[trigger] ints[k] < self.capacity by {
                if k < old_av.len() {
                    assert(old_av[k] < self.capacity);
                }
            }
            crate::module::graph::lemma_distinct_in_range_len(ints, self.capacity as int);
            assert forall|k: int| 0 <= k < self.capacity implies (#[trigger] self.storage@[k] is None
                <==> av.contains(k as usize)) by {
                if k == guard.index {
                    assert(av[av.len() - 1] == k as usize);
                } else {
                    if old_av.contains(k as usize) {
                        let j = choose|j: int| 0 <= j < old_av.len() && old_av[j] == k as usize;
                        assert(av[j] == k as usize);
                    }
                    if av.contains(k as usize) {
                        let j = choose|j: int| 0 <= j < av.len() && av[j] == k as usize;
                        if j < old_av.len() {
                            assert(old_av[j] == k as usize);
                        }
                    }
                }
            }
        }
    }

    pub fn available(&self) -> (n: usize)
        ensures
            n == self.free().len(),
    {
        self.available.len()
    }

    pub fn in_use(&self) -> (n: usize)
        requires
            self.wf(),
        ensures
            n == self.cap() - self.free().len(),
    {
        self.capacity - self.available.len()
    }

    pub fn capacity(&self) -> (n: usize)
        ensures
            n == self.cap(),
    {
        self.capacity
    }

    pub fn is_exhausted(&self) -> (b: bool)
        ensures
            b == (self.free().len() == 0),
    {
        self.available.len() == 0
    }
}

/// The sizes of a stack of allocations, summed.
pub open spec fn sum_sizes(s: Seq<usize>) -> nat
    decreases s.len(),
{
    if s.len() == 0 {
        0
    } else {
        sum_sizes(s.drop_last()) + s.last() as nat
    }
}

/// A stack of values of one type over `capacity` bytes: values are pushed
/// at the next aligned offset and popped in reverse order.
pub struct StackAlloc<T> {
    offset: usize,
    capacity: usize,
    sizes: Vec<usize>,
    values: Vec<T>,
}

impl<T> StackAlloc<T> {
    /// The values on the stack, bottom first.
    pub closed spec fn stack(&self) -> Seq<T> {
        self.values@
    }

    pub closed spec fn offset_of(&self) -> nat {
        self.offset as nat
    }

    pub closed spec fn cap(&self) -> nat {
        self.capacity as nat
    }

    pub closed spec fn wf(&self) -> bool {
        &&& self.offset <= self.capacity
        &&& self.sizes@.len() == self.values@.len()
        &&& sum_sizes(self.sizes@) <= self.offset
    }

    /// An empty stack over `capacity` bytes aligned to 8.
    pub fn new(capacity: usize) -> (r: AllocResult<Self>)
        ensures
            !layout_ok(capacity as nat, 8) ==> r is Err && r->Err_0 == AllocError::InvalidLayout,
            layout_ok(capacity as nat, 8) ==> (r matches Ok(s) && s.wf() && s.cap() == capacity
                && s.offset_of() == 0 && s.stack().len() == 0),
    {
        if !check_layout(capacity, 8) {
            return Err(AllocError::InvalidLayout);
        }
        Ok(StackAlloc { offset: 0, capacity, sizes: Vec::new(), values: Vec::new() })
    }

    /// Pushes `value`; `OutOfMemory` when it does not fit.
    pub fn push(&mut self, value: T) -> (r: AllocResult<()>)
        requires
            old(self).wf(),
        ensures
            final(self).wf(),
            final(self).cap() == old(self).cap(),
            match placement(
                old(self).offset_of(),
                vstd::layout::size_of::<T>(),
                vstd::layout::align_of::<T>(),
                old(self).cap(),
            ) {
                Some(start) => r is Ok && final(self).stack() == old(self).stack().push(value)
                    && final(self).offset_of() == start + vstd::layout::size_of::<T>(),
                None => r is Err && r->Err_0 == AllocError::OutOfMemory && final(self).stack() == old(self).stack()
                    && final(self).offset_of() == old(self).offset_of(),
            },
    {
        vstd::layout::layout_for_type_is_valid::<T>();
        let size = std::mem::size_of::<T>();
        let align = std::mem::align_of::<T>();
        match place(self.offset, size, align, self.capacity) {
            Some(start) => {
                proof {
                    assert(self.sizes@.push(size).drop_last() =~= self.sizes@);
                    crate::util::layout::law_align_up(self.offset as nat, align as nat);
                }
                self.offset = start + size;
                self.sizes.push(size);
                self.values.push(value);
                Ok(())
            },
            None => Err(AllocError::OutOfMemory),
        }
    }

    /// Pops the most recent value, giving back its bytes.
    pub fn pop(&mut self) -> (r: Option<T>)
        requires
            old(self).wf(),
        ensures
            final(self).wf(),
            final(self).cap() == old(self).cap(),
            old(self).stack().len() == 0 ==> r is None && final(self).stack() == old(self).stack(),
            old(self).stack().len() > 0 ==> r == Some(old(self).stack().last()) && final(self).stack()
                == old(self).stack().drop_last(),
    {
        match self.sizes.pop() {
            Some(size) => {
                proof {
                    assert(old(self).sizes@.drop_last() =~= self.sizes@);
                }
                self.offset = self.offset - size;
                self.values.pop()
            },
            None => None,
        }
    }

    /// Pops every value.
    pub fn reset(&mut self)
        requires
            old(self).wf(),
        ensures
            final(self).wf(),
            final(self).stack().len() == 0,
            final(self).cap() == old(self).cap(),
    {
        while self.sizes.len() > 0
            invariant
                self.wf(),
                self.capacity == old(self).capacity,
            decreases self.sizes@.len(),
        {
            let size = self.sizes.pop().unwrap();
            proof {
                assert(old(self).sizes@.len() >= 0);
            }
            self.offset = self.offset - size;
            self.values.pop();
        }
    }

    pub fn remaining(&self) -> (n: usize)
        requires
            self.wf(),
        ensures
            n == self.cap() - self.offset_of(),
    {
        self.capacity - self.offset
    }

    pub fn used(&self) -> (n: usize)
        ensures
            n == self.offset_of(),
    {
        self.offset
    }

    pub fn num_allocs(&self) -> (n: usize)
        requires
            self.wf(),
        ensures
            n == self.stack().len(),
    {
        self.sizes.len()
    }
}

/// A bump allocator over `capacity` bytes: allocation only, freed all at
/// once by `reset`.
pub struct BumpAlloc {
    offset: usize,
    capacity: usize,
}

impl BumpAlloc {
    pub closed spec fn offset_of(&self) -> nat {
        self.offset as nat
    }

    pub closed spec fn cap(&self) -> nat {
        self.capacity as nat
    }

    pub closed spec fn wf(&self) -> bool {
        self.offset <= self.capacity
    }

    /// A bump allocator over `capacity` bytes aligned to 8.
    pub fn new(capacity: usize) -> (r: AllocResult<Self>)
        ensures
            !layout_ok(capacity as nat, 8) ==> r is Err && r->Err_0 == AllocError::InvalidLayout,
            layout_ok(capacity as nat, 8) ==> (r matches Ok(b) && b.wf() && b.cap() == capacity && b.offset_of() == 0),
    {
        if !check_layout(capacity, 8) {
            return Err(AllocError::InvalidLayout);
        }
        Ok(BumpAlloc { offset: 0, capacity })
    }

    /// Space for one `T`; `OutOfMemory` when it does not fit.
    pub fn alloc_slot<T: 'static>(&mut self) -> (r: AllocResult<&'static mut MaybeUninit<T>>)
        requires
            old(self).wf(),
        ensures
            final(self).wf(),
            final(self).cap() == old(self).cap(),
            match placement(
                old(self).offset_of(),
                vstd::layout::size_of::<T>(),
                vstd::layout::align_of::<T>(),
                old(self).cap(),
            ) {
                Some(start) => r is Ok && final(self).offset_of() == start + vstd::layout::size_of::<T>(),
                None => r is Err && r->Err_0 == AllocError::OutOfMemory && final(self).offset_of()
                    == old(self).offset_of(),
            },
    {
        vstd::layout::layout_for_type_is_valid::<T>();
        let size = std::mem::size_of::<T>();
        match place(self.offset, size, std::mem::align_of::<T>(), self.capacity) {
            Some(start) => {
                self.offset = start + size;
                Ok(leak(MaybeUninit::uninit()))
            },
            None => Err(AllocError::OutOfMemory),
        }
    }

    /// Space for `len` values of `T`; `OutOfMemory` when it does not fit.
    pub fn alloc_slice<T: 'static>(&mut self, len: usize) -> (r: AllocResult<&'static mut [MaybeUninit<T>]>)
        requires
            old(self).wf(),
            vstd::layout::size_of::<T>() * len <= usize::MAX,
        ensures
            final(self).wf(),
            final(self).cap() == old(self).cap(),
            match placement(
                old(self).offset_of(),
                (vstd::layout::size_of::<T>() * len) as nat,
                vstd::layout::align_of::<T>(),
                old(self).cap(),
            ) {
                Some(start) => (r matches Ok(sl) && sl@.len() == len) && final(self).offset_of() == start
                    + vstd::layout::size_of::<T>() * len,
                None => r is Err && r->Err_0 == AllocError::OutOfMemory && final(self).offset_of()
                    == old(self).offset_of(),
            },
    {
        vstd::layout::layout_for_type_is_valid::<T>();
        let size = std::mem::size_of::<T>() * len;
        match place(self.offset, size, std::mem::align_of::<T>(), self.capacity) {
            Some(start) => {
                self.offset = start + size;
                Ok(leak_slice(uninit_vec(len)))
            },
            None => Err(AllocError::OutOfMemory),
        }
    }

    pub fn reset(&mut self)
        requires
            old(self).wf(),
        ensures
            final(self).wf(),
            final(self).offset_of() == 0,
            final(self).cap() == old(self).cap(),
    {
        self.offset = 0;
    }

    pub fn remaining(&self) -> (n: usize)
        requires
            self.wf(),
        ensures
            n == self.cap() - self.offset_of(),
    {
        self.capacity - self.offset
    }

    pub fn used(&self) -> (n: usize)
        ensures
            n == self.offset_of(),
    {
        self.offset
    }
}

fn default_value<T: Default>() -> T {
    T::default()
}

} // verus!
