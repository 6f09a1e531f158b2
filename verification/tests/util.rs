use boxlang_compiler::util::arena::{Arena, ArenaError, BumpAlloc, GrowableArena, TypedArena};
use boxlang_compiler::util::layout::{check_layout, is_power_of_two};
use std::mem::MaybeUninit;

#[test]
fn test_arena_creation() {
    let arena = Arena::new();
    assert!(arena.is_ok());
    let arena = arena.unwrap();
    assert_eq!(arena.capacity(), Arena::DEFAULT_CAPACITY);
}

#[test]
fn test_arena_alloc_init() {
    let mut arena = Arena::new().unwrap();
    let value: &mut i32 = arena.alloc_init(42).unwrap();
    assert_eq!(*value, 42);
}

#[test]
fn test_arena_slice_allocation() {
    let mut arena = Arena::new().unwrap();
    let slice: &mut [MaybeUninit<i32>] = arena.alloc_slice::<i32>(10).unwrap();
    assert_eq!(slice.len(), 10);
    for (i, slot) in slice.iter_mut().enumerate() {
        slot.write(i as i32);
    }
}

#[test]
fn test_typed_arena() {
    let mut arena = TypedArena::<i32>::with_capacity(100).unwrap();
    let v1 = arena.alloc_init(1).unwrap();
    let v2 = arena.alloc_init(2).unwrap();
    assert_eq!(*v1, 1);
    assert_eq!(*v2, 2);
    assert_eq!(arena.used(), 2);
}

#[test]
fn arena_test_bump_alloc() {
    let mut bump = BumpAlloc::new(1024).unwrap();
    let v1 = bump.alloc_slot::<i32>().unwrap();
    v1.write(10);
    let v2 = bump.alloc_slot::<i64>().unwrap();
    v2.write(20);
    assert!(bump.used() > 0);
    bump.reset();
    assert_eq!(bump.used(), 0);
}

#[test]
fn test_arena_full() {
    let mut arena = Arena::with_capacity(16).unwrap();
    let result = arena.alloc_slot::<[u8; 32]>();
    assert!(result.is_err());
}

#[test]
fn arena_pads_to_alignment_and_counts() {
    let mut arena = Arena::with_capacity(64).unwrap();
    arena.alloc_init(1u8).unwrap();
    arena.alloc_init(2u64).unwrap();
    assert_eq!(arena.used(), 16);
    assert_eq!(arena.total_allocated(), 9);
    assert_eq!(arena.num_allocations(), 2);
    assert_eq!(arena.remaining(), 48);
    let s = arena.alloc_slice_from_iter(vec![1, 2, 3]).unwrap();
    assert_eq!(s, &[1, 2, 3]);
    arena.reset();
    assert_eq!((arena.used(), arena.num_allocations()), (0, 0));
    assert_eq!(Arena::with_capacity(0).err(), Some(ArenaError::InvalidLayout));
    assert_eq!(Arena::with_alignment(64, 3).err(), Some(ArenaError::InvalidLayout));
}

#[test]
fn typed_and_growable_arenas_refuse_when_full() {
    let mut t = TypedArena::<u16>::with_capacity(2).unwrap();
    assert!(t.alloc_many(2).is_ok());
    assert_eq!(t.alloc_init(1).err(), Some(ArenaError::ArenaFull));
    t.reset();
    assert_eq!(t.remaining(), 2);
    let mut g = GrowableArena::with_chunk_size(8).unwrap();
    assert!(g.alloc_slot::<u64>().is_ok());
    assert!(g.alloc_slot::<u64>().is_err());
    g.grow().unwrap();
    assert!(g.alloc_slot::<u64>().is_ok());
    assert_eq!(g.total_used(), 16);
    assert_eq!(g.total_capacity(), 16);
    g.reset();
    assert_eq!(g.total_used(), 0);
}

#[test]
fn layouts() {
    assert!(is_power_of_two(1));
    assert!(is_power_of_two(64));
    assert!(!is_power_of_two(0));
    assert!(!is_power_of_two(12));
    assert!(check_layout(100, 8));
    assert!(!check_layout(usize::MAX, 8));
    assert_eq!(ArenaError::ArenaFull.message(), "arena full");
}
