//! A bump allocator for the fields and small values of messages. An arena
//! cuts allocations from chunks one after another and winds back all at
//! once; a pool keeps arenas for reuse. Chunks start on a 64-byte boundary,
//! so the allocator works with places in them: which arena, which of its
//! chunks, and how far in. Arenas are numbered by a numbering that never
//! hands out a number twice, so a place names the one arena it was cut from.
use vstd::prelude::*;

verus! {

/// Chunk a message's fields and small values are cut from.
pub const CHUNK_SIZE: usize = 65536;

/// Arenas a pool keeps. Enough for the messages one node has in flight, not
/// so many that a burst parks memory for good.
pub const POOL_LIMIT: usize = 32;

/// Chunks above this are given up instead of being kept: one oversized frame
/// must not hold its memory for the rest of the run.
pub const KEEP_CHUNK_LIMIT: usize = 262144;

/// The boundary every chunk starts on.
pub const CHUNK_ALIGN: usize = 64;

/// The largest chunk: a layout of 64-byte alignment must fit `isize` once
/// rounded up.
pub open spec fn max_chunk() -> int {
    isize::MAX - 63
}

/// An alignment an allocation can ask for: a power of two no larger than
/// the boundary chunks start on, so that rounding an offset rounds the
/// address too.
pub open spec fn chunk_align(a: usize) -> bool {
    vstd::arithmetic::power2::is_pow2(a as int) && a <= CHUNK_ALIGN
}

/// A power of two is positive.
proof fn lemma_align_positive(a: usize)
    requires
        chunk_align(a),
    ensures
        a > 0,
{
    reveal(vstd::arithmetic::power2::is_pow2);
}

/// `o` rounded up to a multiple of `a`.
pub open spec fn round_up(o: int, a: int) -> int {
    o + (a - o % a) % a
}

/// `o` rounded up is a multiple of `a`, at least `o` and less than `o + a`.
proof fn lemma_round_up(o: int, a: int)
    requires
        a > 0,
        o >= 0,
    ensures
        round_up(o, a) % a == 0,
        o <= round_up(o, a) < o + a,
{
    let r = o % a;
    let q = o / a;
    vstd::arithmetic::div_mod::lemma_fundamental_div_mod(o, a);
    assert(0 <= r < a);
    if r == 0 {
        vstd::arithmetic::div_mod::lemma_mod_self_0(a);
        assert(round_up(o, a) == o);
    } else {
        vstd::arithmetic::div_mod::lemma_small_mod((a - r) as nat, a as nat);
        assert(round_up(o, a) == a * q + a);
        assert(a * q + a == (q + 1) * a) by (nonlinear_arith);
        vstd::arithmetic::div_mod::lemma_mod_multiples_basic(q + 1, a);
    }
}

/// A chunk: its capacity, and how much of it is taken.
pub struct Chunk {
    capacity: usize,
    offset: usize,
}

impl View for Chunk {
    /// Capacity, and the offset the next allocation starts from.
    type V = (usize, usize);

    closed spec fn view(&self) -> (usize, usize) {
        (self.capacity, self.offset)
    }
}

/// Whether a chunk is sound: no more taken than it holds, no bigger than a
/// chunk can be.
pub open spec fn chunk_wf(c: (usize, usize)) -> bool {
    c.1 <= c.0 <= max_chunk()
}

/// Where an allocation of `size` bytes aligned to `align` goes in a chunk:
/// at the taken part rounded up, where that still leaves room.
pub open spec fn chunk_fit(c: (usize, usize), size: usize, align: usize) -> Option<usize> {
    let aligned = round_up(c.1 as int, align as int);
    if aligned + size > c.0 {
        None
    } else {
        Some(aligned as usize)
    }
}

impl Chunk {
    pub fn new(capacity: usize) -> (r: Self)
        requires
            capacity <= max_chunk(),
        ensures
            r@ == (capacity, 0usize),
    {
        Chunk { capacity, offset: 0 }
    }

    /// Takes `size` bytes aligned to `align` from the free part of the chunk,
    /// and gives their offset; none where they do not fit.
    pub fn alloc_raw(&mut self, size: usize, align: usize) -> (r: Option<usize>)
        requires
            chunk_wf(old(self)@),
            chunk_align(align),
        ensures
            r == chunk_fit(old(self)@, size, align),
            r matches Some(o) ==> final(self)@ == (old(self)@.0, (o + size) as usize),
            r is None ==> final(self)@ == old(self)@,
            chunk_wf(final(self)@),
    {
        proof {
            lemma_align_positive(align);
            lemma_round_up(self.offset as int, align as int);
        }
        let taken = self.offset;
        let rem = taken % align;
        let gap: usize = if rem == 0 { 0 } else { align - rem };
        proof {
            if rem == 0 {
                vstd::arithmetic::div_mod::lemma_mod_self_0(align as int);
            } else {
                vstd::arithmetic::div_mod::lemma_small_mod(gap as nat, align as nat);
            }
            assert(round_up(taken as int, align as int) == taken + gap);
        }
        if gap > self.capacity - taken {
            return None;
        }
        let aligned = taken + gap;
        if size > self.capacity - aligned {
            return None;
        }
        self.offset = aligned + size;
        Some(aligned)
    }

    /// Winds the chunk back to empty.
    pub fn reset(&mut self)
        ensures
            final(self)@ == (old(self)@.0, 0usize),
    {
        self.offset = 0;
    }

    pub fn capacity(&self) -> (r: usize)
        ensures
            r == self@.0,
    {
        self.capacity
    }
}

/// Where an allocation lies.
#[derive(Debug, Clone, Copy, PartialEq, Eq, Structural)]
pub enum Place {
    /// A zero-sized allocation: no memory, only a place aligned as asked.
    Dangling(usize),
    /// `offset` bytes into chunk `chunk` of the arena numbered `arena`.
    At { arena: u64, chunk: usize, offset: usize },
}

/// Chunks, as capacity and taken part, the size of a new chunk, and the
/// arena's number.
pub type ArenaView = (Seq<(usize, usize)>, usize, u64);

/// Whether `place` lies inside one of the chunks of the arena `v`.
pub open spec fn place_in(v: ArenaView, place: Place) -> bool {
    place matches Place::At { arena, chunk, offset } && arena == v.2 && chunk < v.0.len() && offset
        < v.0[chunk as int].0
}

/// Hands out the numbers arenas are told apart by, each one once: one
/// numbering serves every pool of the process.
pub struct ArenaNumbers {
    next: u64,
}

/// The numbers a numbering that has reached `next` has handed out.
pub open spec fn numbers_below(next: u64) -> Set<u64> {
    Set::new(|n: u64| n < next)
}

impl ArenaNumbers {
    /// The number handed out next.
    pub closed spec fn spec_next(&self) -> u64 {
        self.next
    }

    /// The numbers handed out so far.
    pub open spec fn issued(&self) -> Set<u64> {
        numbers_below(self.spec_next())
    }

    /// A numbering that has handed out nothing.
    pub fn new() -> (r: Self)
        ensures
            r.spec_next() == 0,
            r.issued() == Set::<u64>::empty(),
    {
        let r = ArenaNumbers { next: 0 };
        proof {
            assert(r.issued() =~= Set::<u64>::empty());
        }
        r
    }

    /// Whether a number is left to hand out.
    pub fn has_next(&self) -> (r: bool)
        ensures
            r == (self.spec_next() < u64::MAX),
    {
        self.next < u64::MAX
    }

    /// Hands out the next number.
    fn take(&mut self) -> (r: u64)
        requires
            old(self).spec_next() < u64::MAX,
        ensures
            r == old(self).spec_next(),
            !old(self).issued().contains(r),
            final(self).issued() == old(self).issued().insert(r),
            final(self).spec_next() == old(self).spec_next() + 1,
    {
        let r = self.next;
        self.next = self.next + 1;
        proof {
            assert(self.issued() =~= old(self).issued().insert(r));
        }
        r
    }
}

/// An arena: chunks allocations are cut from in turn, from the last one on,
/// and a new chunk whenever the last one is too full. Its number, given by
/// whoever makes it, tells its places from those of other arenas.
pub struct Arena {
    chunks: Vec<Chunk>,
    chunk_size: usize,
    id: u64,
}

impl View for Arena {
    type V = ArenaView;

    closed spec fn view(&self) -> ArenaView {
        (self.chunks@.map_values(|c: Chunk| c@), self.chunk_size, self.id)
    }
}

impl Arena {
    #[verifier::type_invariant]
    closed spec fn chunks_wf(self) -> bool {
        forall|i: int| 0 <= i < self.chunks@.len() ==> chunk_wf(#[trigger] self.chunks@[i]@)
    }
}

/// Every chunk of an arena is sound.
pub open spec fn arena_wf(v: ArenaView) -> bool {
    forall|i: int| 0 <= i < v.0.len() ==> chunk_wf(#[trigger] v.0[i])
}

/// Whether an allocation of `size` bytes aligned to `align` needs a new
/// chunk: there is none yet, or the last one has no room left for it.
pub open spec fn needs_chunk(v: ArenaView, size: usize, align: usize) -> bool {
    v.0.len() == 0 || chunk_fit(v.0.last(), size, align) is None
}

/// The capacity of the chunk an allocation of `size` bytes gets: the usual
/// one, or a chunk of its own where it is larger.
pub open spec fn new_capacity(v: ArenaView, size: usize) -> usize {
    if v.1 > size {
        v.1
    } else {
        size
    }
}

/// An allocation of `size` bytes aligned to `align`: the arena after it,
/// and where it lies.
pub open spec fn arena_alloc(v: ArenaView, size: usize, align: usize) -> (ArenaView, Place) {
    if size == 0 {
        (v, Place::Dangling(align))
    } else if !needs_chunk(v, size, align) {
        let last = v.0.len() - 1;
        let o = chunk_fit(v.0.last(), size, align)->Some_0;
        (
            (v.0.update(last, (v.0.last().0, (o + size) as usize)), v.1, v.2),
            Place::At { arena: v.2, chunk: last as usize, offset: o },
        )
    } else {
        (
            (v.0.push((new_capacity(v, size), size)), v.1, v.2),
            Place::At { arena: v.2, chunk: v.0.len() as usize, offset: 0 },
        )
    }
}

/// The chunks wound back to empty.
pub open spec fn wound_back(chunks: Seq<(usize, usize)>) -> Seq<(usize, usize)> {
    chunks.map_values(|c: (usize, usize)| (c.0, 0usize))
}

/// The chunks an arena keeps when it goes back to its pool: those no bigger
/// than the limit, in order, wound back.
pub open spec fn kept(chunks: Seq<(usize, usize)>) -> Seq<(usize, usize)>
    decreases chunks.len(),
{
    if chunks.len() == 0 {
        Seq::empty()
    } else if chunks.last().0 <= KEEP_CHUNK_LIMIT {
        kept(chunks.drop_last()).push((chunks.last().0, 0usize))
    } else {
        kept(chunks.drop_last())
    }
}

impl Arena {
    /// Chunks are made on first use: an unused arena costs nothing.
    /// The arena takes the next number of `numbers`, one no arena made
    /// from it before has.
    pub fn new(chunk_size: usize, numbers: &mut ArenaNumbers) -> (r: Self)
        requires
            old(numbers).spec_next() < u64::MAX,
        ensures
            r@ == (Seq::<(usize, usize)>::empty(), chunk_size, old(numbers).spec_next()),
            !old(numbers).issued().contains(r@.2),
            final(numbers).issued() == old(numbers).issued().insert(r@.2),
            final(numbers).spec_next() == old(numbers).spec_next() + 1,
    {
        let id = numbers.take();
        let r = Arena { chunks: Vec::new(), chunk_size, id };
        proof {
            assert(r@.0 =~= Seq::<(usize, usize)>::empty());
        }
        r
    }

    /// Takes `size` bytes aligned to `align`, from the last chunk where they
    /// fit there, else from a new one. A zero-sized allocation takes nothing.
    pub fn alloc_raw(&mut self, size: usize, align: usize) -> (r: Place)
        requires
            chunk_align(align),
            size > 0 && needs_chunk(old(self)@, size, align) ==> new_capacity(old(self)@, size) <= max_chunk(),
        ensures
            (final(self)@, r) == arena_alloc(old(self)@, size, align),
    {
        proof {
            use_type_invariant(&*self);
        }
        if size == 0 {
            return Place::Dangling(align);
        }
        let mut chunks: Vec<Chunk> = Vec::new();
        std::mem::swap(&mut chunks, &mut self.chunks);
        let ghost all = chunks@;
        assert(old(self)@.0 =~= all.map_values(|c: Chunk| c@));
        let n = chunks.len();
        if n > 0 {
            let mut last = chunks.pop().unwrap();
            assert(last == all[n - 1]);
            assert(chunk_wf(last@));
            let fit = last.alloc_raw(size, align);
            chunks.push(last);
            proof {
                assert(chunks@ =~= all.update(n - 1, last));
                assert(chunks@.map_values(|c: Chunk| c@) =~= old(self)@.0.update(n - 1, last@));
                assert forall|i: int| 0 <= i < chunks@.len() implies chunk_wf(#[trigger] chunks@[i]@) by {
                    if i != n - 1 {
                        assert(chunks@[i] == all[i]);
                    }
                }
            }
            if let Some(o) = fit {
                self.chunks = chunks;
                return Place::At { arena: self.id, chunk: n - 1, offset: o };
            }
        }
        let capacity = if self.chunk_size > size { self.chunk_size } else { size };
        let mut chunk = Chunk::new(capacity);
        proof {
            lemma_align_positive(align);
            vstd::arithmetic::div_mod::lemma_small_mod(0, align as nat);
            vstd::arithmetic::div_mod::lemma_mod_self_0(align as int);
        }
        let fit = chunk.alloc_raw(size, align);
        assert(fit == Some(0usize));
        let ghost before = chunks@;
        chunks.push(chunk);
        proof {
            assert(chunks@.map_values(|c: Chunk| c@) =~= old(self)@.0.push((capacity, size)));
            assert forall|i: int| 0 <= i < chunks@.len() implies chunk_wf(#[trigger] chunks@[i]@) by {
                if i < before.len() {
                    assert(chunks@[i] == before[i]);
                }
            }
        }
        self.chunks = chunks;
        Place::At { arena: self.id, chunk: n, offset: 0 }
    }

    /// Takes room for `len` values of `T`, aligned for `T`.
    pub fn allocate<T>(&mut self, len: usize) -> (r: Place)
        requires
            vstd::layout::size_of::<T>() * len <= usize::MAX,
            vstd::layout::align_of::<T>() <= CHUNK_ALIGN,
            vstd::layout::size_of::<T>() * len > 0 && needs_chunk(
                old(self)@,
                (vstd::layout::size_of::<T>() * len) as usize,
                vstd::layout::align_of::<T>() as usize,
            ) ==> new_capacity(old(self)@, (vstd::layout::size_of::<T>() * len) as usize) <= max_chunk(),
        ensures
            (final(self)@, r) == arena_alloc(
                old(self)@,
                (vstd::layout::size_of::<T>() * len) as usize,
                vstd::layout::align_of::<T>() as usize,
            ),
    {
        let size = core::mem::size_of::<T>() * len;
        let align = core::mem::align_of::<T>();
        proof {
            broadcast use vstd::layout::align_properties;

            assert(chunk_align(align));
        }
        self.alloc_raw(size, align)
    }

    /// Frees nothing, only winds the chunks back to the start.
    pub fn reset(&mut self)
        ensures
            final(self)@ == (wound_back(old(self)@.0), old(self)@.1, old(self)@.2),
    {
        proof {
            use_type_invariant(&*self);
        }
        let mut chunks: Vec<Chunk> = Vec::new();
        std::mem::swap(&mut chunks, &mut self.chunks);
        let ghost all = chunks@;
        let mut fresh: Vec<Chunk> = Vec::new();
        let mut i: usize = 0;
        while i < chunks.len()
            invariant
                chunks@ == all,
                i <= all.len(),
                forall|j: int| 0 <= j < all.len() ==> chunk_wf(#[trigger] all[j]@),
                fresh@.len() == i,
                forall|j: int| 0 <= j < i ==> #[trigger] fresh@[j]@ == (all[j]@.0, 0usize),
            decreases all.len() - i,
        {
            let capacity = chunks[i].capacity();
            fresh.push(Chunk::new(capacity));
            i = i + 1;
        }
        self.chunks = fresh;
        proof {
            assert(self@.0 =~= wound_back(old(self)@.0));
        }
    }

    /// Winds back and gives up whatever was oversized, so one big message does
    /// not park its memory in the pool for the rest of the run.
    pub fn trim(&mut self)
        ensures
            final(self)@ == (kept(old(self)@.0), old(self)@.1, old(self)@.2),
    {
        proof {
            use_type_invariant(&*self);
        }
        let mut chunks: Vec<Chunk> = Vec::new();
        std::mem::swap(&mut chunks, &mut self.chunks);
        let ghost all = chunks@;
        let ghost view = old(self)@.0;
        assert(view =~= all.map_values(|c: Chunk| c@));
        let mut fresh: Vec<Chunk> = Vec::new();
        let mut i: usize = 0;
        while i < chunks.len()
            invariant
                chunks@ == all,
                view == all.map_values(|c: Chunk| c@),
                i <= all.len(),
                forall|j: int| 0 <= j < all.len() ==> chunk_wf(#[trigger] all[j]@),
                forall|j: int| 0 <= j < fresh@.len() ==> chunk_wf(#[trigger] fresh@[j]@),
                fresh@.map_values(|c: Chunk| c@) == kept(view.take(i as int)),
            decreases all.len() - i,
        {
            let capacity = chunks[i].capacity();
            proof {
                assert(view.take(i + 1).drop_last() =~= view.take(i as int));
            }
            if capacity <= KEEP_CHUNK_LIMIT {
                let ghost before = fresh@;
                fresh.push(Chunk::new(capacity));
                proof {
                    assert(fresh@.map_values(|c: Chunk| c@) =~= before.map_values(|c: Chunk| c@).push((capacity, 0usize)));
                }
            }
            i = i + 1;
        }
        proof {
            assert(view.take(i as int) =~= view);
        }
        self.chunks = fresh;
    }

    pub fn chunk_count(&self) -> (r: usize)
        ensures
            r == self@.0.len(),
    {
        self.chunks.len()
    }

    /// Whether `place` lies in one of this arena's chunks, so a value there
    /// already lives here and needs no copy.
    pub fn owns(&self, place: Place) -> (r: bool)
        ensures
            r == place_in(self@, place),
    {
        match place {
            Place::Dangling(_) => false,
            Place::At { arena, chunk, offset } => arena == self.id && chunk < self.chunks.len() && offset
                < self.chunks[chunk].capacity(),
        }
    }

}

/// Arenas kept for reuse, so that the router and the nodes get memory
/// without waiting on each other: the engine keeps one pool per thread. An
/// arena taken from one pool may go back to another.
pub struct Pool {
    free: Vec<Arena>,
}

impl View for Pool {
    /// The arenas held, the one to be handed out next last.
    type V = Seq<ArenaView>;

    closed spec fn view(&self) -> Seq<ArenaView> {
        self.free@.map_values(|a: Arena| a@)
    }
}

/// The pool after an arena goes back to it: trimmed and kept, where there is
/// still room.
pub open spec fn pool_release(p: Seq<ArenaView>, a: ArenaView) -> Seq<ArenaView> {
    if p.len() < POOL_LIMIT {
        p.push((kept(a.0), a.1, a.2))
    } else {
        p
    }
}

impl Pool {
    pub fn new() -> (r: Self)
        ensures
            r@ == Seq::<ArenaView>::empty(),
    {
        let r = Pool { free: Vec::new() };
        proof {
            assert(r@ =~= Seq::<ArenaView>::empty());
        }
        r
    }

    /// Takes the arena released last, or, where the pool is empty, a new one
    /// numbered by `numbers`.
    pub fn acquire(&mut self, numbers: &mut ArenaNumbers) -> (r: Arena)
        requires
            old(self)@.len() == 0 ==> old(numbers).spec_next() < u64::MAX,
        ensures
            if old(self)@.len() > 0 {
                &&& r@ == old(self)@.last()
                &&& final(self)@ == old(self)@.drop_last()
                &&& *final(numbers) == *old(numbers)
            } else {
                &&& r@ == (Seq::<(usize, usize)>::empty(), CHUNK_SIZE, old(numbers).spec_next())
                &&& !old(numbers).issued().contains(r@.2)
                &&& final(numbers).issued() == old(numbers).issued().insert(r@.2)
                &&& final(numbers).spec_next() == old(numbers).spec_next() + 1
                &&& final(self)@ == old(self)@
            },
    {
        let ghost before = self.free@;
        match self.free.pop() {
            Some(arena) => {
                proof {
                    assert(self.free@ =~= before.drop_last());
                    assert(self@ =~= old(self)@.drop_last());
                }
                arena
            },
            None => Arena::new(CHUNK_SIZE, numbers),
        }
    }

    /// Gives an arena back, keeping its ordinary chunks for the next message.
    /// A pool that is already full drops it instead.
    pub fn release(&mut self, arena: Arena)
        ensures
            final(self)@ == pool_release(old(self)@, arena@),
    {
        let mut arena = arena;
        arena.trim();
        if self.free.len() < POOL_LIMIT {
            let ghost before = self.free@;
            self.free.push(arena);
            proof {
                assert(self.free@.map_values(|a: Arena| a@) =~= before.map_values(|a: Arena| a@).push(arena@));
            }
        }
    }

    /// Arenas the pool is holding for reuse.
    pub fn cached(&self) -> (r: usize)
        ensures
            r == self@.len(),
    {
        self.free.len()
    }
}

/// An allocation adds at most one chunk, and one of no bytes changes
/// nothing. Any other lies at an offset aligned as asked, inside the chunk
/// it names, and the chunk's taken part ends where the allocation does; the
/// arena owns both its first and its last byte.
pub proof fn law_allocation_in_chunk(v: ArenaView, size: usize, align: usize)
    requires
        chunk_align(align),
        v.0.len() < usize::MAX,
    ensures
        arena_alloc(v, size, align).0.0.len() <= v.0.len() + 1,
        size == 0 ==> arena_alloc(v, size, align) == (v, Place::Dangling(align)),
        ({
            let (w, p) = arena_alloc(v, size, align);
            p matches Place::At { arena, chunk, offset } ==> {
                &&& arena == v.2
                &&& chunk < w.0.len()
                &&& offset % align == 0
                &&& offset + size <= w.0[chunk as int].0
                &&& w.0[chunk as int].1 == offset + size
                &&& place_in(w, p)
                &&& place_in(w, Place::At { arena, chunk, offset: (offset + size - 1) as usize })
            }
        }),
{
    lemma_align_positive(align);
    if size > 0 && !needs_chunk(v, size, align) {
        lemma_round_up(v.0.last().1 as int, align as int);
    }
}

/// Allocations one after another, from the arena `v`: the arena after them,
/// and where each lies. Requests are sizes and alignments.
pub open spec fn allocations(v: ArenaView, requests: Seq<(usize, usize)>) -> (ArenaView, Seq<Place>)
    decreases requests.len(),
{
    if requests.len() == 0 {
        (v, Seq::empty())
    } else {
        let (w, places) = allocations(v, requests.drop_last());
        let (x, p) = arena_alloc(w, requests.last().0, requests.last().1);
        (x, places.push(p))
    }
}

/// What holds after a run of allocations from `v`: the arena only grows, no
/// chunk's taken part shrinks, and each allocation lies at or after what was
/// taken of its chunk before the run and ends inside the taken part now.
spec fn run_invariant(v: ArenaView, requests: Seq<(usize, usize)>) -> bool {
    let (w, places) = allocations(v, requests);
    &&& w.2 == v.2
    &&& places.len() == requests.len()
    &&& v.0.len() <= w.0.len() <= v.0.len() + requests.len()
    &&& forall|c: int| 0 <= c < v.0.len() ==> #[trigger] w.0[c].1 >= v.0[c].1
    &&& forall|i: int|
        0 <= i < places.len() ==> (#[trigger] places[i] matches Place::At { arena, chunk, offset } ==> {
            &&& arena == v.2
            &&& chunk < w.0.len()
            &&& offset + requests[i].0 <= w.0[chunk as int].1
            &&& chunk < v.0.len() ==> v.0[chunk as int].1 <= offset
        })
    &&& forall|i: int, j: int|
        0 <= i < j < places.len() ==> (#[trigger] places[i] matches Place::At { chunk: c1, offset: o1, .. }
            ==> (#[trigger] places[j] matches Place::At { chunk: c2, offset: o2, .. } ==> (c1 == c2 ==> o1
            + requests[i].0 <= o2)))
}

proof fn lemma_run(v: ArenaView, requests: Seq<(usize, usize)>)
    requires
        forall|i: int| 0 <= i < requests.len() ==> chunk_align(#[trigger] requests[i].1),
        v.0.len() + requests.len() <= usize::MAX,
    ensures
        run_invariant(v, requests),
    decreases requests.len(),
{
    if requests.len() > 0 {
        let before = requests.drop_last();
        assert forall|i: int| 0 <= i < before.len() implies chunk_align(#[trigger] before[i].1) by {
            assert(before[i] == requests[i]);
        }
        lemma_run(v, before);
        let (w, places) = allocations(v, before);
        let (size, align) = requests.last();
        let (x, p) = arena_alloc(w, size, align);
        assert(chunk_align(requests[requests.len() - 1].1));
        lemma_align_positive(align);
        if size > 0 && !needs_chunk(w, size, align) {
            lemma_round_up(w.0.last().1 as int, align as int);
        }
        let all = places.push(p);
        assert(allocations(v, requests) == (x, all));
        assert forall|i: int| 0 <= i < all.len() implies (#[trigger] all[i] matches Place::At {
            arena,
            chunk,
            offset,
        } ==> {
            &&& arena == v.2
            &&& chunk < x.0.len()
            &&& offset + requests[i].0 <= x.0[chunk as int].1
            &&& chunk < v.0.len() ==> v.0[chunk as int].1 <= offset
        }) by {
            if i < places.len() {
                assert(all[i] == places[i]);
                assert(requests[i] == before[i]);
            }
        }
        assert forall|i: int, j: int| 0 <= i < j < all.len() implies (#[trigger] all[i] matches Place::At {
            chunk: c1,
            offset: o1,
            ..
        } ==> (#[trigger] all[j] matches Place::At { chunk: c2, offset: o2, .. } ==> (c1 == c2 ==> o1
            + requests[i].0 <= o2))) by {
            assert(all[i] == places[i]);
            assert(requests[i] == before[i]);
            if j < places.len() {
                assert(all[j] == places[j]);
                assert(requests[j] == before[j]);
            }
        }
    }
}

/// An allocation overlaps none made before it since the last reset or trim:
/// in a run of allocations from the arena `v`, two that lie in the same
/// chunk are apart, the earlier one ending at or before the later one
/// starts; none reaches into what was taken of a chunk before the run; and
/// each lies in this arena.
pub proof fn law_allocations_never_overlap(v: ArenaView, requests: Seq<(usize, usize)>)
    requires
        forall|i: int| 0 <= i < requests.len() ==> chunk_align(#[trigger] requests[i].1),
        v.0.len() + requests.len() <= usize::MAX,
    ensures
        ({
            let (w, places) = allocations(v, requests);
            &&& places.len() == requests.len()
            &&& forall|i: int, j: int|
                0 <= i < j < places.len() ==> (#[trigger] places[i] matches Place::At {
                    chunk: c1,
                    offset: o1,
                    ..
                } ==> (#[trigger] places[j] matches Place::At { chunk: c2, offset: o2, .. } ==> (c1
                    == c2 ==> o1 + requests[i].0 <= o2)))
            &&& forall|i: int|
                0 <= i < places.len() ==> (#[trigger] places[i] matches Place::At { arena, chunk, offset }
                    ==> arena == v.2 && (chunk < v.0.len() ==> v.0[chunk as int].1 <= offset))
        }),
{
    lemma_run(v, requests);
}

/// Trimming keeps only chunks no bigger than the limit, all wound back.
pub proof fn law_trim_keeps_small_chunks(chunks: Seq<(usize, usize)>)
    ensures
        forall|i: int| 0 <= i < kept(chunks).len() ==> #[trigger] kept(chunks)[i].0 <= KEEP_CHUNK_LIMIT && kept(chunks)[i].1 == 0,
        kept(chunks).len() <= chunks.len(),
    decreases chunks.len(),
{
    if chunks.len() > 0 {
        law_trim_keeps_small_chunks(chunks.drop_last());
    }
}

/// Reuse is the point: the arena released last is the one handed out next,
/// trimmed, where the pool had room for it.
pub proof fn law_release_then_acquire(p: Seq<ArenaView>, a: ArenaView)
    requires
        p.len() < POOL_LIMIT,
    ensures
        pool_release(p, a).len() > 0,
        pool_release(p, a).last() == (kept(a.0), a.1, a.2),
        pool_release(p, a).drop_last() == p,
{
    assert(p.push((kept(a.0), a.1, a.2)).drop_last() =~= p);
}

/// A burst does not park memory: a pool never holds more than its limit.
pub proof fn law_pool_bounded(p: Seq<ArenaView>, a: ArenaView)
    requires
        p.len() <= POOL_LIMIT,
    ensures
        pool_release(p, a).len() <= POOL_LIMIT,
{
}

/// A place cut from one arena is owned by no other: where arena `a` was
/// numbered before arena `b` by the same numbering (its number among those
/// handed out before `b`'s, `b`'s not), a place of `b` is none of `a`'s.
pub proof fn law_place_owned_by_one_arena(a: ArenaView, b: ArenaView, issued_before_b: Set<u64>, p: Place)
    requires
        issued_before_b.contains(a.2),
        !issued_before_b.contains(b.2),
        place_in(b, p),
    ensures
        a.2 != b.2,
        !place_in(a, p),
{
}

/// The bytes the chunks hold between them.
pub open spec fn held_bytes(chunks: Seq<(usize, usize)>) -> nat
    decreases chunks.len(),
{
    if chunks.len() == 0 {
        0
    } else {
        held_bytes(chunks.drop_last()) + chunks.last().0 as nat
    }
}

/// What an arena's chunks cost: how many there are, and the bytes they hold.
pub open spec fn footprint(v: ArenaView) -> (nat, nat) {
    (v.0.len(), held_bytes(v.0))
}

/// Winding back frees nothing: the chunks and the bytes they hold stay.
pub proof fn law_reset_keeps_footprint(v: ArenaView)
    ensures
        footprint((wound_back(v.0), v.1, v.2)) == footprint(v),
    decreases v.0.len(),
{
    if v.0.len() > 0 {
        let init = (v.0.drop_last(), v.1, v.2);
        law_reset_keeps_footprint(init);
        assert(wound_back(v.0).drop_last() =~= wound_back(v.0.drop_last()));
    }
}

/// Trimming holds no more chunks, nor more bytes, than before.
pub proof fn law_trim_shrinks_footprint(v: ArenaView)
    ensures
        footprint((kept(v.0), v.1, v.2)).0 <= footprint(v).0,
        footprint((kept(v.0), v.1, v.2)).1 <= footprint(v).1,
    decreases v.0.len(),
{
    if v.0.len() > 0 {
        let init = (v.0.drop_last(), v.1, v.2);
        law_trim_shrinks_footprint(init);
        if v.0.last().0 <= KEEP_CHUNK_LIMIT {
            assert(kept(v.0).drop_last() =~= kept(v.0.drop_last()));
        }
    }
}

} // verus!
