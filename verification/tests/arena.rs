use mstu::runtime::arena::{Arena, ArenaNumbers, Chunk, Place, Pool, CHUNK_SIZE, KEEP_CHUNK_LIMIT, POOL_LIMIT};

/// A pooled arena keeps its ordinary chunks and gives up the big ones.
#[test]
fn trims_oversized_chunks() {
    let mut numbers = ArenaNumbers::new();
    let mut arena = Arena::new(CHUNK_SIZE, &mut numbers);

    arena.allocate::<u8>(1024);
    arena.allocate::<u8>(KEEP_CHUNK_LIMIT + 1);

    assert_eq!(arena.chunk_count(), 2);

    arena.trim();

    assert_eq!(arena.chunk_count(), 1);
}

/// Reuse is the point: the second message gets the first one's memory.
#[test]
fn hands_the_same_arena_back_out() {
    let mut numbers = ArenaNumbers::new();
    let mut pool = Pool::new();
    let mut arena = pool.acquire(&mut numbers);
    let first = arena.allocate::<u8>(64);

    pool.release(arena);

    let mut again = pool.acquire(&mut numbers);
    assert_eq!(again.allocate::<u8>(64), first);

    pool.release(again);
}

/// A burst must not park memory for the rest of the run.
#[test]
fn keeps_the_pool_bounded() {
    let mut numbers = ArenaNumbers::new();
    let mut pool = Pool::new();
    let held: Vec<Arena> = (0..POOL_LIMIT + 8).map(|_| pool.acquire(&mut numbers)).collect();

    for arena in held {
        pool.release(arena);
    }

    assert_eq!(pool.cached(), POOL_LIMIT);
}

#[test]
fn allocations_follow_one_another_aligned() {
    let mut numbers = ArenaNumbers::new();
    let mut arena = Arena::new(CHUNK_SIZE, &mut numbers);
    assert_eq!(arena.alloc_raw(3, 1), Place::At { arena: 0, chunk: 0, offset: 0 });
    assert_eq!(arena.alloc_raw(8, 8), Place::At { arena: 0, chunk: 0, offset: 8 });
    assert_eq!(arena.alloc_raw(1, 64), Place::At { arena: 0, chunk: 0, offset: 64 });
    assert_eq!(arena.allocate::<u32>(2), Place::At { arena: 0, chunk: 0, offset: 68 });
}

#[test]
fn a_zero_sized_allocation_takes_nothing() {
    let mut numbers = ArenaNumbers::new();
    let mut arena = Arena::new(CHUNK_SIZE, &mut numbers);
    assert_eq!(arena.alloc_raw(0, 16), Place::Dangling(16));
    assert_eq!(arena.chunk_count(), 0);
}

#[test]
fn a_full_chunk_makes_way_for_a_new_one() {
    let mut numbers = ArenaNumbers::new();
    let mut arena = Arena::new(64, &mut numbers);
    assert_eq!(arena.alloc_raw(60, 1), Place::At { arena: 0, chunk: 0, offset: 0 });
    assert_eq!(arena.alloc_raw(8, 1), Place::At { arena: 0, chunk: 1, offset: 0 });
    assert_eq!(arena.alloc_raw(100, 1), Place::At { arena: 0, chunk: 2, offset: 0 });
    assert_eq!(arena.chunk_count(), 3);
}

#[test]
fn reset_winds_back_without_freeing() {
    let mut numbers = ArenaNumbers::new();
    let mut arena = Arena::new(CHUNK_SIZE, &mut numbers);
    let first = arena.alloc_raw(100, 4);
    arena.alloc_raw(100, 4);
    arena.reset();
    assert_eq!(arena.chunk_count(), 1);
    assert_eq!(arena.alloc_raw(100, 4), first);
}

#[test]
fn knows_what_lies_in_it() {
    let mut numbers = ArenaNumbers::new();
    let mut arena = Arena::new(CHUNK_SIZE, &mut numbers);
    let place = arena.alloc_raw(10, 1);
    assert!(arena.owns(place));
    assert!(arena.owns(Place::At { arena: 0, chunk: 0, offset: CHUNK_SIZE - 1 }));
    assert!(!arena.owns(Place::At { arena: 0, chunk: 0, offset: CHUNK_SIZE }));
    assert!(!arena.owns(Place::At { arena: 0, chunk: 1, offset: 0 }));
    assert!(!arena.owns(Place::Dangling(8)));
}

#[test]
fn an_empty_pool_hands_out_a_new_arena() {
    let mut numbers = ArenaNumbers::new();
    let mut pool = Pool::new();
    assert_eq!(pool.cached(), 0);
    let arena = pool.acquire(&mut numbers);
    assert_eq!(arena.chunk_count(), 0);
    pool.release(arena);
    assert_eq!(pool.cached(), 1);
}

#[test]
fn an_arena_owns_none_of_another_ones_places() {
    let mut numbers = ArenaNumbers::new();
    let mut a = Arena::new(CHUNK_SIZE, &mut numbers);
    let mut b = Arena::new(CHUNK_SIZE, &mut numbers);
    let in_a = a.alloc_raw(8, 8);
    let in_b = b.alloc_raw(8, 8);
    assert_eq!(in_a, Place::At { arena: 0, chunk: 0, offset: 0 });
    assert_eq!(in_b, Place::At { arena: 1, chunk: 0, offset: 0 });
    assert!(a.owns(in_a));
    assert!(a.owns(Place::At { arena: 0, chunk: 0, offset: 7 }));
    assert!(!a.owns(in_b));
    assert!(!b.owns(in_a));
    assert!(!a.owns(Place::At { arena: 1, chunk: 0, offset: 7 }));
}

#[test]
fn pools_sharing_a_numbering_hand_out_distinct_arenas() {
    let mut numbers = ArenaNumbers::new();
    let mut first_pool = Pool::new();
    let mut second_pool = Pool::new();
    let mut first = first_pool.acquire(&mut numbers);
    let mut second = second_pool.acquire(&mut numbers);
    let in_first = first.alloc_raw(1, 1);
    let in_second = second.alloc_raw(1, 1);
    assert_eq!(in_first, Place::At { arena: 0, chunk: 0, offset: 0 });
    assert_eq!(in_second, Place::At { arena: 1, chunk: 0, offset: 0 });
    assert!(!first.owns(in_second));
    second_pool.release(first);
    let mut again = second_pool.acquire(&mut numbers);
    assert_eq!(again.alloc_raw(1, 1), in_first);
    assert!(numbers.has_next());
}

#[test]
fn a_cache_line_alignment_is_met() {
    let mut numbers = ArenaNumbers::new();
    let mut arena = Arena::new(CHUNK_SIZE, &mut numbers);
    assert_eq!(arena.alloc_raw(1, 1), Place::At { arena: 0, chunk: 0, offset: 0 });
    assert_eq!(arena.alloc_raw(16, 64), Place::At { arena: 0, chunk: 0, offset: 64 });
    assert_eq!(arena.alloc_raw(1, 32), Place::At { arena: 0, chunk: 0, offset: 96 });
}

#[test]
fn a_chunk_rounds_up_and_refuses_what_does_not_fit() {
    let mut chunk = Chunk::new(100);
    assert_eq!(chunk.alloc_raw(3, 1), Some(0));
    assert_eq!(chunk.alloc_raw(8, 8), Some(8));
    assert_eq!(chunk.alloc_raw(40, 64), None);
    assert_eq!(chunk.alloc_raw(36, 64), Some(64));
    assert_eq!(chunk.alloc_raw(1, 1), None);
    chunk.reset();
    assert_eq!(chunk.alloc_raw(1, 64), Some(0));
    assert_eq!(chunk.capacity(), 100);
}
