//! A bump allocator handing out zeroed page frames from a free range of physical memory.
use vstd::prelude::*;
use crate::mem::PAGE_SIZE;
use crate::mem::addr::PAddr;
use crate::mem::phys::{PhysMem, fill_range};
use crate::addr::align_up_spec;
use vstd::arithmetic::power2::is_pow2;

verus! {

/// The smallest multiple of the page size that is at least `v`.
pub open spec fn page_align_up(v: int) -> int {
    ((v + PAGE_SIZE - 1) / PAGE_SIZE as int) * PAGE_SIZE
}

/// The 32-bit word made of four copies of `byte`.
pub open spec fn repeat_byte(byte: u8) -> u32 {
    ((byte as u32) * 0x0101_0101u32) as u32
}

/// Every byte of `w` equals `byte`.
pub open spec fn all_bytes(w: u32, byte: u8) -> bool {
    &&& w & 0xff == byte
    &&& (w >> 8u32) & 0xff == byte
    &&& (w >> 16u32) & 0xff == byte
    &&& (w >> 24u32) & 0xff == byte
}

/// Each byte of `repeat_byte(b)` is `b`.
pub proof fn lemma_repeat_byte(b: u8)
    ensures
        all_bytes(repeat_byte(b), b),
        repeat_byte(0) == 0,
{
    let w: u32 = ((b as u32) * 0x0101_0101u32) as u32;
    assert(w & 0xff == b && (w >> 8u32) & 0xff == b && (w >> 16u32) & 0xff == b && (w >> 24u32) & 0xff == b)
        by (bit_vector)
        requires
            w == ((b as u32) * 0x0101_0101u32) as u32,
    ;
}

/// 4096 is a power of two.
pub proof fn lemma_page_size_pow2()
    ensures
        is_pow2(PAGE_SIZE as int),
{
    vstd::arithmetic::power2::is_pow2_equiv(4096);
    assert(vstd::arithmetic::power::pow(2, 12) == 4096) by {
        vstd::arithmetic::power2::lemma_pow2(12);
        vstd::arithmetic::power2::lemma2_to64();
    }
}

/// Rounds `v` up to the next multiple of `a`, a power of two.
fn align_up(v: usize, a: usize) -> (r: usize)
    requires
        is_pow2(a as int),
        v + (a - 1) <= usize::MAX,
    ensures
        r == align_up_spec(v as int, a as int),
        r % a == 0,
        v <= r < v + a,
{
    proof {
        crate::addr::lemma_align_up_mask(v, a);
    }
    (v + (a - 1)) & !(a - 1)
}

/// The allocator ran out of free memory.
#[derive(Debug, Clone, Copy, PartialEq, Eq, Structural)]
pub struct Oom;

/// A run of one or more page frames, identified by the physical address of its first byte.
#[derive(Debug, Clone, Copy)]
pub struct PageFrame {
    paddr: PAddr,
}

impl PageFrame {
    /// The physical address of the first byte of the frame.
    pub closed spec fn start(self) -> usize {
        self.paddr.0
    }

    /// Returns the physical address of the frame.
    pub fn paddr(self) -> (r: PAddr)
        ensures
            r.0 == self.start(),
    {
        self.paddr
    }

    /// Sets every byte of the first `n_pages` pages of the frame to `byte`.
    pub fn fill(self, mem: &mut PhysMem, n_pages: usize, byte: u8)
        requires
            old(mem).wf(),
            n_pages * PAGE_SIZE <= usize::MAX,
            old(mem).covers(self.start() as int, n_pages * PAGE_SIZE),
        ensures
            final(mem).wf(),
            final(mem).base() == old(mem).base(),
            final(mem).end() == old(mem).end(),
            final(mem)@ == fill_range(old(mem)@, self.start() as int, n_pages * PAGE_SIZE, repeat_byte(byte)),
            all_bytes(repeat_byte(byte), byte),
    {
        let len = n_pages * PAGE_SIZE;
        proof { lemma_repeat_byte(byte); }
        let w: u32 = (byte as u32) * 0x0101_0101u32;
        mem.fill_u32(self.paddr.0, len, w);
    }
}

/// The allocator's state: frames are handed out from `[next, limit)`, lowest address first.
pub struct FrameAllocator {
    next: usize,
    limit: usize,
}

impl FrameAllocator {
    /// The first address not yet handed out.
    pub closed spec fn next(self) -> usize {
        self.next
    }

    /// One past the last address the allocator may hand out.
    pub closed spec fn limit(self) -> usize {
        self.limit
    }

    /// The next frame to be handed out is page aligned.
    pub open spec fn wf(self) -> bool {
        self.next() % PAGE_SIZE == 0
    }

    /// The free range `[next, limit)` lies inside `mem`.
    pub open spec fn backed_by(self, mem: PhysMem) -> bool {
        &&& mem.wf()
        &&& mem.base() <= self.next()
        &&& self.limit() <= mem.end()
    }

    /// An allocation of `n` pages fits: its size and end do not overflow and stay below `limit`.
    pub open spec fn can_alloc(self, n: int) -> bool {
        &&& n * PAGE_SIZE <= usize::MAX
        &&& self.next() + n * PAGE_SIZE <= self.limit()
    }

    /// The allocator was set up by `init` over the free RAM `[lo, hi)` and has only allocated
    /// since: its next frame is page aligned, at or above `lo` rounded up to a page, and its
    /// limit is `hi`.
    pub open spec fn serves(self, lo: int, hi: int) -> bool {
        &&& self.wf()
        &&& page_align_up(lo) <= self.next()
        &&& self.limit() == hi
    }

    /// Whether `[start, start + len)` lies outside the free range.
    pub open spec fn outside_free(self, start: int, len: int) -> bool {
        start + len <= self.next() || self.limit() <= start
    }
}

/// What an allocation of `n` pages does: on success the frame starts at the old `next` and
/// `next` advances past it; on failure nothing changes.
pub open spec fn alloc_outcome(
    old: FrameAllocator,
    n: usize,
    new: FrameAllocator,
    r: Result<PageFrame, Oom>,
) -> bool {
    &&& new.limit() == old.limit()
    &&& r is Ok <==> old.can_alloc(n as int)
    &&& match r {
        Ok(f) => f.start() == old.next() && new.next() == old.next() + n * PAGE_SIZE,
        Err(_) => new == old,
    }
}

/// Sets up the allocator over the free RAM `[free_ram_start, free_ram_end)`, starting at the
/// first page boundary at or above `free_ram_start`.
pub fn init(free_ram_start: usize, free_ram_end: usize) -> (r: FrameAllocator)
    requires
        free_ram_start + (PAGE_SIZE - 1) <= usize::MAX,
    ensures
        r.wf(),
        r.next() == page_align_up(free_ram_start as int),
        r.limit() == free_ram_end,
        r.serves(free_ram_start as int, free_ram_end as int),
{
    proof { lemma_page_size_pow2(); }
    let start = align_up(free_ram_start, PAGE_SIZE);
    FrameAllocator { next: start, limit: free_ram_end }
}

/// Hands out `n` contiguous zeroed pages, or `Oom` when they do not fit.
pub fn alloc_pages(alloc: &mut FrameAllocator, mem: &mut PhysMem, n: usize) -> (r: Result<PageFrame, Oom>)
    requires
        old(alloc).wf(),
        old(alloc).backed_by(*old(mem)),
    ensures
        final(alloc).wf(),
        final(alloc).backed_by(*final(mem)),
        final(mem).base() == old(mem).base(),
        final(mem).end() == old(mem).end(),
        alloc_outcome(*old(alloc), n, *final(alloc), r),
        match r {
            Ok(f) => final(mem)@ == fill_range(old(mem)@, f.start() as int, n * PAGE_SIZE, 0),
            Err(_) => final(mem)@ == old(mem)@,
        },
{
    let bytes = match n.checked_mul(PAGE_SIZE) {
        Some(b) => b,
        None => return Err(Oom),
    };
    let cur = alloc.next;
    let end = alloc.limit;
    let new_ = match cur.checked_add(bytes) {
        Some(x) => x,
        None => return Err(Oom),
    };
    if new_ > end {
        return Err(Oom);
    }
    alloc.next = new_;
    proof {
        vstd::arithmetic::div_mod::lemma_mod_multiples_basic(n as int, PAGE_SIZE as int);
        vstd::arithmetic::div_mod::lemma_add_mod_noop(cur as int, bytes as int, PAGE_SIZE as int);
    }
    mem.fill_u32(cur, bytes, 0);
    Ok(PageFrame { paddr: PAddr(cur) })
}

/// Successive successful allocations hand out disjoint frames, each page aligned and inside
/// the allocator's range, and the free range only shrinks from below.
pub proof fn lemma_successive_allocations_disjoint(
    a0: FrameAllocator,
    n1: usize,
    a1: FrameAllocator,
    f1: PageFrame,
    n2: usize,
    a2: FrameAllocator,
    f2: PageFrame,
)
    requires
        a0.wf(),
        alloc_outcome(a0, n1, a1, Ok(f1)),
        alloc_outcome(a1, n2, a2, Ok(f2)),
    ensures
        f1.start() + n1 * PAGE_SIZE <= f2.start(),
        f1.start() % PAGE_SIZE == 0,
        f2.start() % PAGE_SIZE == 0,
        f2.start() + n2 * PAGE_SIZE <= a2.limit() == a0.limit(),
        a0.next() <= a1.next() <= a2.next(),
{
    vstd::arithmetic::div_mod::lemma_mod_multiples_basic(n1 as int, PAGE_SIZE as int);
    vstd::arithmetic::div_mod::lemma_add_mod_noop(a0.next() as int, n1 * PAGE_SIZE, PAGE_SIZE as int);
}


/// Every frame handed out by an allocator set up by `init` over `[lo, hi)`, after any sequence
/// of allocations, is page aligned and lies in `[page_align_up(lo), hi)`: an allocation keeps
/// `serves(lo, hi)`, and the frame it returns lies in that range. With `init`'s `ensures`, which
/// establishes `serves(lo, hi)`, this covers every allocation by induction on the sequence.
pub proof fn lemma_allocations_stay_in_range(
    old: FrameAllocator,
    n: usize,
    new: FrameAllocator,
    r: Result<PageFrame, Oom>,
    lo: int,
    hi: int,
)
    requires
        old.serves(lo, hi),
        alloc_outcome(old, n, new, r),
    ensures
        new.serves(lo, hi),
        r matches Ok(f) ==> {
            &&& f.start() % PAGE_SIZE == 0
            &&& page_align_up(lo) <= f.start()
            &&& f.start() + n * PAGE_SIZE <= hi
        },
{
    vstd::arithmetic::div_mod::lemma_mod_multiples_basic(n as int, PAGE_SIZE as int);
    vstd::arithmetic::div_mod::lemma_add_mod_noop(old.next() as int, n * PAGE_SIZE, PAGE_SIZE as int);
}

/// The law of `lemma_allocations_stay_in_range` over a whole sequence: `states[0]` serves
/// `[lo, hi)`, each `states[k + 1]` is what allocating `sizes[k]` pages from `states[k]` left,
/// with result `results[k]`; then every frame handed out is page aligned and in range.
pub proof fn lemma_allocation_sequence_in_range(
    states: Seq<FrameAllocator>,
    sizes: Seq<usize>,
    results: Seq<Result<PageFrame, Oom>>,
    lo: int,
    hi: int,
)
    requires
        states.len() == sizes.len() + 1,
        results.len() == sizes.len(),
        states[0].serves(lo, hi),
        forall|k: int| 0 <= k < sizes.len() ==> #[trigger] alloc_outcome(states[k], sizes[k], states[k + 1], results[k]),
    ensures
        forall|k: int| 0 <= k < states.len() ==> #[trigger] states[k].serves(lo, hi),
        forall|k: int| 0 <= k < results.len() ==> (#[trigger] results[k] matches Ok(f) ==> {
            &&& f.start() % PAGE_SIZE == 0
            &&& page_align_up(lo) <= f.start()
            &&& f.start() + sizes[k] * PAGE_SIZE <= hi
        }),
    decreases sizes.len(),
{
    if sizes.len() > 0 {
        let m = (sizes.len() - 1) as int;
        lemma_allocation_sequence_in_range(states.drop_last(), sizes.drop_last(), results.drop_last(), lo, hi);
        assert(alloc_outcome(states[m], sizes[m], states[m + 1], results[m]));
        assert(states.drop_last()[m] == states[m]);
        lemma_allocations_stay_in_range(states[m], sizes[m], states[m + 1], results[m], lo, hi);
        assert forall|k: int| 0 <= k < states.len() implies #[trigger] states[k].serves(lo, hi) by {
            if k < states.len() - 1 {
                assert(states.drop_last()[k] == states[k]);
            }
        }
        assert forall|k: int| 0 <= k < results.len() implies (#[trigger] results[k] matches Ok(f) ==> {
            &&& f.start() % PAGE_SIZE == 0
            &&& page_align_up(lo) <= f.start()
            &&& f.start() + sizes[k] * PAGE_SIZE <= hi
        }) by {
            if k < m {
                assert(results.drop_last()[k] == results[k]);
                assert(sizes.drop_last()[k] == sizes[k]);
            }
        }
    }
}

} // verus!
