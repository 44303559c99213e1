//! Sv32 two-level page tables: address splitting, entry encoding, and mapping a page.
use vstd::prelude::*;
use crate::mem::PAGE_SIZE;
use crate::mem::phys::{PhysMem, fill_range, ADDR_LIMIT};
use crate::mem::frame_alloc::{FrameAllocator, alloc_pages, alloc_outcome};
use crate::addr::aligned;
use vstd::arithmetic::power2::is_pow2;

verus! {

/// The MODE field of `satp` selecting Sv32 translation.
pub const SATP_SV32: usize = 0x8000_0000;

/// Entry is valid.
pub const PTE_V: u32 = 0x01;
/// Page is readable.
pub const PTE_R: u32 = 0x02;
/// Page is writable.
pub const PTE_W: u32 = 0x04;
/// Page is executable.
pub const PTE_X: u32 = 0x08;
/// Page is accessible from user mode.
pub const PTE_U: u32 = 0x10;

/// Number of entries in a page table.
pub const ENTRIES: usize = 1024;

/// Index into the root table: bits 31..22 of the virtual address.
pub open spec fn vpn1(va: usize) -> usize {
    (va >> 22usize) & 0x3ff
}

/// Index into the leaf table: bits 21..12 of the virtual address.
pub open spec fn vpn0(va: usize) -> usize {
    (va >> 12usize) & 0x3ff
}

/// Physical page number of a physical address, truncated to 32 bits.
pub open spec fn ppn(pa: usize) -> u32 {
    (pa >> 12usize) as u32
}

/// The entry has its valid bit set.
pub open spec fn pte_valid(e: u32) -> bool {
    e & PTE_V != 0
}

/// The entry grants none of read, write, execute: it points to a next-level table.
pub open spec fn pte_is_pointer(e: u32) -> bool {
    e & 0x0e == 0
}

/// The physical address of the page an entry refers to.
pub open spec fn pte_page(e: u32) -> int {
    (e >> 10u32) as int * PAGE_SIZE as int
}

/// The permission bits of an entry (its low ten bits).
pub open spec fn pte_flags(e: u32) -> u32 {
    e & 0x3ff
}

/// A leaf entry mapping the page at `pa` with `flags`, marked valid.
pub open spec fn leaf_pte(pa: usize, flags: u32) -> u32 {
    (((ppn(pa) << 10u32) | flags) | PTE_V) as u32
}

/// A valid entry pointing to the next-level table at `pa`.
pub open spec fn table_pte(pa: usize) -> u32 {
    ((ppn(pa) << 10u32) | PTE_V) as u32
}

/// Whether `x` has no bits set below `align` (a multiple of `align` when it is a power of two).
pub fn is_aligned(x: usize, align: usize) -> (r: bool)
    requires
        align > 0,
    ensures
        r == (x & ((align - 1) as usize) == 0),
        is_pow2(align as int) ==> r == aligned(x as int, align as int),
{
    proof {
        if is_pow2(align as int) {
            crate::addr::lemma_mask_is_mod(x, align);
        }
    }
    (x & (align - 1)) == 0
}

/// Root-table index of a virtual address.
pub fn vpn1_of(va: usize) -> (r: usize)
    ensures
        r == vpn1(va),
        r == (va as int / 0x40_0000) % 1024,
        r < ENTRIES,
{
    assert(((va >> 22usize) & 0x3ff) == (va / 0x40_0000) % 1024) by (bit_vector);
    assert(((va >> 22usize) & 0x3ff) < 1024) by (bit_vector);
    (va >> 22) & 0x3ff
}

/// Leaf-table index of a virtual address.
pub fn vpn0_of(va: usize) -> (r: usize)
    ensures
        r == vpn0(va),
        r == (va as int / 0x1000) % 1024,
        r < ENTRIES,
{
    assert(((va >> 12usize) & 0x3ff) == (va / 0x1000) % 1024) by (bit_vector);
    assert(((va >> 12usize) & 0x3ff) < 1024) by (bit_vector);
    (va >> 12) & 0x3ff
}

/// Physical page number of a physical address.
pub fn ppn_of(pa: usize) -> (r: u32)
    ensures
        r == ppn(pa),
        pa < ADDR_LIMIT ==> r == pa as int / 0x1000,
{
    assert(pa < 0x1_0000_0000 ==> ((pa >> 12usize) as u32) == pa / 0x1000) by (bit_vector);
    (pa >> 12) as u32
}


/// Physical address of entry `idx` of the table at `table`.
pub open spec fn entry_addr(table: int, idx: int) -> int {
    table + 4 * idx
}

/// The leaf-table page `map_page` uses for `va`: the one the root entry points to, or the next
/// free frame when the root entry is not valid.
pub open spec fn leaf_table_for(m: Map<int, u32>, root: int, va: usize, fresh: int) -> int {
    let e1 = m[entry_addr(root, vpn1(va) as int)];
    if pte_valid(e1) { pte_page(e1) } else { fresh }
}

/// Memory after mapping `va` to `pa` with `flags` in the table rooted at `root`: a missing
/// leaf table is taken from `fresh`, zeroed and linked from the root, then the leaf entry is
/// written.
pub open spec fn mapped_memory(
    m: Map<int, u32>,
    fresh: int,
    root: int,
    va: usize,
    pa: usize,
    flags: u32,
) -> Map<int, u32> {
    let e1 = m[entry_addr(root, vpn1(va) as int)];
    let l0 = leaf_table_for(m, root, va, fresh);
    let linked = if pte_valid(e1) {
        m
    } else {
        fill_range(m, fresh, PAGE_SIZE as int, 0).insert(
            entry_addr(root, vpn1(va) as int),
            table_pte(fresh as usize),
        )
    };
    linked.insert(entry_addr(l0, vpn0(va) as int), leaf_pte(pa, flags))
}

/// What `map_page` requires beyond alignment: the allocator serves `mem`, the root table is in
/// `mem`, and either the root entry for `va` points into `mem` or one frame can be allocated.
pub open spec fn map_page_ready(mem: PhysMem, alloc: FrameAllocator, root: int, va: usize, pa: usize) -> bool {
    &&& alloc.wf()
    &&& alloc.backed_by(mem)
    &&& va % PAGE_SIZE == 0
    &&& pa % PAGE_SIZE == 0
    &&& root % 4 == 0
    &&& mem.covers(root, PAGE_SIZE as int)
    &&& ({
        let e1 = mem@[entry_addr(root, vpn1(va) as int)];
        if pte_valid(e1) {
            mem.covers(pte_page(e1), PAGE_SIZE as int)
        } else {
            alloc.can_alloc(1)
        }
    })
}

/// The effect of `map_page`: memory becomes `mapped_memory`, and the allocator hands out one
/// frame exactly when the root entry for `va` was not valid.
pub open spec fn map_page_outcome(
    old_mem: PhysMem,
    old_alloc: FrameAllocator,
    new_mem: PhysMem,
    new_alloc: FrameAllocator,
    root: int,
    va: usize,
    pa: usize,
    flags: u32,
) -> bool {
    &&& new_mem.wf()
    &&& new_mem.base() == old_mem.base()
    &&& new_mem.end() == old_mem.end()
    &&& new_alloc.wf()
    &&& new_alloc.backed_by(new_mem)
    &&& new_mem@ == mapped_memory(old_mem@, old_alloc.next() as int, root, va, pa, flags)
    &&& if pte_valid(old_mem@[entry_addr(root, vpn1(va) as int)]) {
        new_alloc == old_alloc
    } else {
        new_alloc.limit() == old_alloc.limit() && new_alloc.next() == old_alloc.next() + PAGE_SIZE
    }
}

/// The leaf entry that translation of `va` reaches through the table rooted at `root`, if both
/// levels are valid.
pub open spec fn lookup(m: Map<int, u32>, root: int, va: usize) -> Option<u32> {
    let e1 = m[entry_addr(root, vpn1(va) as int)];
    if !pte_valid(e1) {
        None
    } else {
        let e0 = m[entry_addr(pte_page(e1), vpn0(va) as int)];
        if pte_valid(e0) { Some(e0) } else { None }
    }
}

/// The table rooted at `root` is well formed with respect to `mem` and `alloc`: the root table
/// and every leaf table lie inside `mem`, outside the allocator's free range, on page
/// boundaries; valid root entries are pointers; and no two root entries share a leaf table, nor
/// does any share the root's page.
pub open spec fn table_wf(mem: PhysMem, alloc: FrameAllocator, root: int) -> bool {
    &&& alloc.wf()
    &&& alloc.backed_by(mem)
    &&& root % PAGE_SIZE as int == 0
    &&& mem.covers(root, PAGE_SIZE as int)
    &&& alloc.outside_free(root, PAGE_SIZE as int)
    &&& forall|i: int|
        #![trigger mem@[entry_addr(root, i)]]
        0 <= i < ENTRIES && pte_valid(mem@[entry_addr(root, i)]) ==> {
            let e = mem@[entry_addr(root, i)];
            &&& pte_is_pointer(e)
            &&& mem.covers(pte_page(e), PAGE_SIZE as int)
            &&& alloc.outside_free(pte_page(e), PAGE_SIZE as int)
            &&& pte_page(e) != root
        }
    &&& forall|i: int, j: int|
        #![trigger mem@[entry_addr(root, i)], mem@[entry_addr(root, j)]]
        0 <= i < ENTRIES && 0 <= j < ENTRIES && i != j && pte_valid(mem@[entry_addr(root, i)])
            && pte_valid(mem@[entry_addr(root, j)]) ==> pte_page(mem@[entry_addr(root, i)])
            != pte_page(mem@[entry_addr(root, j)])
}

/// Pointer entries built from a page-aligned 32-bit address decode back to that address.
pub proof fn lemma_table_pte(pa: usize)
    requires
        pa < ADDR_LIMIT,
        pa % PAGE_SIZE == 0,
    ensures
        pte_valid(table_pte(pa)),
        pte_is_pointer(table_pte(pa)),
        pte_page(table_pte(pa)) == pa,
        ppn(pa) == pa / PAGE_SIZE,
{
    assert(((pa >> 12usize) as u32) == pa / 4096 && pa / 4096 < 0x10_0000) by (bit_vector)
        requires
            pa < 0x1_0000_0000,
    ;
    let x: u32 = ppn(pa);
    assert(((x << 10u32) | 1u32) & 1u32 != 0 && ((x << 10u32) | 1u32) & 0x0eu32 == 0
        && (((x << 10u32) | 1u32) >> 10u32) == x) by (bit_vector)
        requires
            x < 0x10_0000,
    ;
    vstd::arithmetic::div_mod::lemma_fundamental_div_mod(pa as int, PAGE_SIZE as int);
}

/// Leaf entries are valid, and when the flags fit in the low ten bits they decode back to the
/// page address and to the flags with the valid bit set.
pub proof fn lemma_leaf_pte(pa: usize, flags: u32)
    ensures
        pte_valid(leaf_pte(pa, flags)),
        pa < ADDR_LIMIT && pa % PAGE_SIZE == 0 && flags < 0x400 ==> {
            &&& pte_page(leaf_pte(pa, flags)) == pa
            &&& pte_flags(leaf_pte(pa, flags)) == flags | PTE_V
        },
{
    let x: u32 = ppn(pa);
    assert((((x << 10u32) | flags) | 1u32) & 1u32 != 0) by (bit_vector);
    if pa < ADDR_LIMIT && pa % PAGE_SIZE == 0 && flags < 0x400 {
        lemma_table_pte(pa);
        assert(((((x << 10u32) | flags) | 1u32) >> 10u32) == x
            && ((((x << 10u32) | flags) | 1u32) & 0x3ffu32) == flags | 1u32) by (bit_vector)
            requires
                x < 0x10_0000,
                flags < 0x400,
        ;
    }
}

/// Maps the page at `vaddr` to the frame at `paddr` with `flags` in the Sv32 table rooted at
/// `l1_phys`, taking a zeroed frame from `alloc` for the leaf table when the root entry is not
/// valid yet.
#[verifier::rlimit(30)]
pub fn map_page(
    mem: &mut PhysMem,
    alloc: &mut FrameAllocator,
    l1_phys: usize,
    vaddr: usize,
    paddr: usize,
    flags: u32,
)
    requires
        old(alloc).wf(),
        old(alloc).backed_by(*old(mem)),
        vaddr % PAGE_SIZE == 0,
        paddr % PAGE_SIZE == 0,
        l1_phys % 4 == 0,
        old(mem).covers(l1_phys as int, PAGE_SIZE as int),
        ({
            let e1 = old(mem)@[entry_addr(l1_phys as int, vpn1(vaddr) as int)];
            if pte_valid(e1) {
                old(mem).covers(pte_page(e1), PAGE_SIZE as int)
            } else {
                old(alloc).can_alloc(1)
            }
        }),
    ensures
        map_page_outcome(*old(mem), *old(alloc), *final(mem), *final(alloc), l1_phys as int, vaddr, paddr, flags),
{
    proof { old(mem).lemma_view_dom(); }
    let i1 = vpn1_of(vaddr);
    let l1e_addr = l1_phys + i1 * 4;
    let ghost m0 = mem@;
    let ghost fresh = alloc.next();
    let l0_phys = leaf_table(mem, alloc, l1e_addr);
    proof { mem.lemma_view_dom(); }
    let i0 = vpn0_of(vaddr);
    let pte = ((ppn_of(paddr) << 10) | flags) | PTE_V;
    mem.write_u32(l0_phys + i0 * 4, pte);
    proof {
        assert(mem@ =~= mapped_memory(m0, fresh as int, l1_phys as int, vaddr, paddr, flags));
    }
}

/// Returns the leaf table the root entry at `l1e_addr` points to; when that entry is not valid,
/// first takes a zeroed frame from `alloc`, zeroes it again, and links it from the entry.
#[verifier::spinoff_prover]
fn leaf_table(mem: &mut PhysMem, alloc: &mut FrameAllocator, l1e_addr: usize) -> (l0: usize)
    requires
        old(alloc).wf(),
        old(alloc).backed_by(*old(mem)),
        old(mem).covers(l1e_addr as int, 4),
        pte_valid(old(mem)@[l1e_addr as int]) ==> old(mem).covers(pte_page(old(mem)@[l1e_addr as int]), PAGE_SIZE as int),
        !pte_valid(old(mem)@[l1e_addr as int]) ==> old(alloc).can_alloc(1),
    ensures
        final(mem).wf(),
        final(mem).base() == old(mem).base(),
        final(mem).end() == old(mem).end(),
        final(alloc).wf(),
        final(alloc).backed_by(*final(mem)),
        final(mem).covers(l0 as int, PAGE_SIZE as int),
        if pte_valid(old(mem)@[l1e_addr as int]) {
            &&& l0 == pte_page(old(mem)@[l1e_addr as int])
            &&& final(mem)@ == old(mem)@
            &&& *final(alloc) == *old(alloc)
        } else {
            &&& l0 == old(alloc).next()
            &&& final(mem)@ == fill_range(old(mem)@, l0 as int, PAGE_SIZE as int, 0).insert(
                l1e_addr as int,
                table_pte(l0),
            )
            &&& final(alloc).limit() == old(alloc).limit()
            &&& final(alloc).next() == old(alloc).next() + PAGE_SIZE
        },
{
    proof { old(mem).lemma_view_dom(); }
    let mut l1e = mem.read_u32(l1e_addr);
    let ghost m0 = mem@;
    assert(l1e & PTE_V == 0 <==> !pte_valid(l1e));
    if (l1e & PTE_V) == 0 {
        let frame = alloc_pages(alloc, mem, 1);
        let l0_new = match frame {
            Ok(f) => f.paddr().0,
            Err(_) => {
                proof { assert(false); }
                0
            },
        };
        mem.fill_u32(l0_new, PAGE_SIZE, 0);
        proof {
            mem.lemma_view_dom();
            lemma_table_pte(l0_new);
            assert(fill_range(fill_range(m0, l0_new as int, PAGE_SIZE as int, 0), l0_new as int, PAGE_SIZE as int, 0)
                =~= fill_range(m0, l0_new as int, PAGE_SIZE as int, 0));
        }
        l1e = (ppn_of(l0_new) << 10) | PTE_V;
        mem.write_u32(l1e_addr, l1e);
    }
    proof { mem.lemma_view_dom(); }
    ((l1e >> 10) as usize) * PAGE_SIZE
}

/// Both table indices of a virtual address are below the number of entries.
pub proof fn lemma_vpn_bounds(va: usize)
    ensures
        vpn1(va) < ENTRIES,
        vpn0(va) < ENTRIES,
{
    assert(((va >> 22usize) & 0x3ff) < 1024 && ((va >> 12usize) & 0x3ff) < 1024) by (bit_vector);
}

/// The page an entry refers to starts on a page boundary.
pub proof fn lemma_pte_page_aligned(e: u32)
    ensures
        pte_page(e) % PAGE_SIZE as int == 0,
        pte_page(e) >= 0,
{
    vstd::arithmetic::div_mod::lemma_mod_multiples_basic((e >> 10u32) as int, PAGE_SIZE as int);
}

/// Entries of two different page-aligned tables live at different addresses.
pub proof fn lemma_entries_of_distinct_tables(p: int, q: int, i: int, j: int)
    requires
        p % PAGE_SIZE as int == 0,
        q % PAGE_SIZE as int == 0,
        p != q,
        0 <= i < ENTRIES,
        0 <= j < ENTRIES,
    ensures
        entry_addr(p, i) != entry_addr(q, j),
{
    let a = p / PAGE_SIZE as int;
    let b = q / PAGE_SIZE as int;
    vstd::arithmetic::div_mod::lemma_fundamental_div_mod(p, PAGE_SIZE as int);
    vstd::arithmetic::div_mod::lemma_fundamental_div_mod(q, PAGE_SIZE as int);
    assert(a != b);
    if a < b {
        assert(a * 4096 + 4096 <= b * 4096) by (nonlinear_arith)
            requires
                a < b,
        ;
    } else {
        assert(b * 4096 + 4096 <= a * 4096) by (nonlinear_arith)
            requires
                b < a,
        ;
    }
}

/// Entry `i` of a table at `p` lies inside that table's page, on a word boundary.
pub proof fn lemma_entry_in_table(p: int, i: int)
    requires
        p % PAGE_SIZE as int == 0,
        0 <= i < ENTRIES,
    ensures
        p <= entry_addr(p, i) < p + PAGE_SIZE,
        entry_addr(p, i) % 4 == 0,
{
    let q = p / PAGE_SIZE as int;
    vstd::arithmetic::div_mod::lemma_fundamental_div_mod(p, PAGE_SIZE as int);
    assert(p == 4 * (1024 * q));
    vstd::arithmetic::div_mod::lemma_mod_multiples_basic(1024 * q + i, 4);
}

/// After `map_page` on a well-formed table, translating the mapped page reaches exactly the
/// leaf entry that was written.
#[verifier::rlimit(30)]
pub proof fn lemma_map_page_lookup(
    old_mem: PhysMem,
    old_alloc: FrameAllocator,
    new_mem: PhysMem,
    new_alloc: FrameAllocator,
    root: int,
    va: usize,
    pa: usize,
    flags: u32,
)
    requires
        table_wf(old_mem, old_alloc, root),
        map_page_ready(old_mem, old_alloc, root, va, pa),
        map_page_outcome(old_mem, old_alloc, new_mem, new_alloc, root, va, pa, flags),
    ensures
        lookup(new_mem@, root, va) == Some(leaf_pte(pa, flags)),
{
    let m = old_mem@;
    old_mem.lemma_view_dom();
    let i1 = vpn1(va) as int;
    let i0 = vpn0(va) as int;
    lemma_vpn_bounds(va);
    lemma_leaf_pte(pa, flags);
    let e1 = m[entry_addr(root, i1)];
    let fresh = old_alloc.next() as int;
    if pte_valid(e1) {
        let l0 = pte_page(e1);
        lemma_pte_page_aligned(e1);
        lemma_entries_of_distinct_tables(root, l0, i1, i0);
    } else {
        lemma_table_pte(fresh as usize);
        lemma_entries_of_distinct_tables(root, fresh, i1, i0);
    }
}


/// After `map_page`, each root entry is unchanged except the one for `va` when it was not valid,
/// which now points to the fresh leaf table.
#[verifier::rlimit(30)]
proof fn lemma_root_entries_after_map(
    old_mem: PhysMem,
    old_alloc: FrameAllocator,
    new_mem: PhysMem,
    new_alloc: FrameAllocator,
    root: int,
    va: usize,
    pa: usize,
    flags: u32,
    i: int,
)
    requires
        table_wf(old_mem, old_alloc, root),
        map_page_ready(old_mem, old_alloc, root, va, pa),
        map_page_outcome(old_mem, old_alloc, new_mem, new_alloc, root, va, pa, flags),
        0 <= i < ENTRIES,
    ensures
        new_mem@[entry_addr(root, i)] == if !pte_valid(old_mem@[entry_addr(root, vpn1(va) as int)])
            && i == vpn1(va) {
            table_pte(old_alloc.next())
        } else {
            old_mem@[entry_addr(root, i)]
        },
{
    let m = old_mem@;
    old_mem.lemma_view_dom();
    lemma_vpn_bounds(va);
    let i1 = vpn1(va) as int;
    let i0 = vpn0(va) as int;
    let e1 = m[entry_addr(root, i1)];
    let fresh = old_alloc.next() as int;
    lemma_entry_in_table(root, i);
    if pte_valid(e1) {
        lemma_pte_page_aligned(e1);
        lemma_entries_of_distinct_tables(root, pte_page(e1), i, i0);
    } else {
        lemma_entries_of_distinct_tables(root, fresh, i, i0);
    }
}

/// Mapping a page leaves the translation of every other page unchanged.
#[verifier::rlimit(30)]
pub proof fn lemma_map_page_preserves_other_lookups(
    old_mem: PhysMem,
    old_alloc: FrameAllocator,
    new_mem: PhysMem,
    new_alloc: FrameAllocator,
    root: int,
    va: usize,
    pa: usize,
    flags: u32,
    va2: usize,
)
    requires
        table_wf(old_mem, old_alloc, root),
        map_page_ready(old_mem, old_alloc, root, va, pa),
        map_page_outcome(old_mem, old_alloc, new_mem, new_alloc, root, va, pa, flags),
        vpn1(va2) != vpn1(va) || vpn0(va2) != vpn0(va),
    ensures
        lookup(new_mem@, root, va2) == lookup(old_mem@, root, va2),
{
    let m = old_mem@;
    let n = new_mem@;
    old_mem.lemma_view_dom();
    lemma_vpn_bounds(va);
    lemma_vpn_bounds(va2);
    let i1 = vpn1(va) as int;
    let i0 = vpn0(va) as int;
    let j1 = vpn1(va2) as int;
    let j0 = vpn0(va2) as int;
    let e1 = m[entry_addr(root, i1)];
    let fresh = old_alloc.next() as int;
    lemma_root_entries_after_map(old_mem, old_alloc, new_mem, new_alloc, root, va, pa, flags, j1);
    let f1 = m[entry_addr(root, j1)];
    if pte_valid(e1) {
        let l0 = pte_page(e1);
        lemma_pte_page_aligned(e1);
        if pte_valid(f1) {
            let q = pte_page(f1);
            lemma_pte_page_aligned(f1);
            if j1 != i1 {
                lemma_entries_of_distinct_tables(q, l0, j0, i0);
            }
        }
    } else {
        lemma_table_pte(fresh as usize);
        if j1 == i1 {
            lemma_entry_in_table(fresh, j0);
            assert(n[entry_addr(fresh, j0)] == 0u32);
            assert(0u32 & 1u32 == 0) by (bit_vector);
        } else if pte_valid(f1) {
            let q = pte_page(f1);
            lemma_pte_page_aligned(f1);
            lemma_entry_in_table(q, j0);
            lemma_entries_of_distinct_tables(q, fresh, j0, i0);
            lemma_entries_of_distinct_tables(q, root, j0, i1);
        }
    }
}

/// Mapping a page keeps the table well formed with respect to the memory and the allocator.
#[verifier::rlimit(30)]
pub proof fn lemma_map_page_preserves_wf(
    old_mem: PhysMem,
    old_alloc: FrameAllocator,
    new_mem: PhysMem,
    new_alloc: FrameAllocator,
    root: int,
    va: usize,
    pa: usize,
    flags: u32,
)
    requires
        table_wf(old_mem, old_alloc, root),
        map_page_ready(old_mem, old_alloc, root, va, pa),
        map_page_outcome(old_mem, old_alloc, new_mem, new_alloc, root, va, pa, flags),
    ensures
        table_wf(new_mem, new_alloc, root),
{
    let m = old_mem@;
    let n = new_mem@;
    old_mem.lemma_view_dom();
    lemma_vpn_bounds(va);
    let i1 = vpn1(va) as int;
    let e1 = m[entry_addr(root, i1)];
    let fresh = old_alloc.next() as int;
    if !pte_valid(e1) {
        lemma_table_pte(fresh as usize);
    }
    assert forall|i: int|
        #![trigger n[entry_addr(root, i)]]
        0 <= i < ENTRIES && pte_valid(n[entry_addr(root, i)]) implies {
            let e = n[entry_addr(root, i)];
            &&& pte_is_pointer(e)
            &&& new_mem.covers(pte_page(e), PAGE_SIZE as int)
            &&& new_alloc.outside_free(pte_page(e), PAGE_SIZE as int)
            &&& pte_page(e) != root
        } by {
        lemma_root_entries_after_map(old_mem, old_alloc, new_mem, new_alloc, root, va, pa, flags, i);
        assert(pte_valid(m[entry_addr(root, i)]) || (!pte_valid(e1) && i == i1));
    }
    assert forall|i: int, j: int|
        #![trigger n[entry_addr(root, i)], n[entry_addr(root, j)]]
        0 <= i < ENTRIES && 0 <= j < ENTRIES && i != j && pte_valid(n[entry_addr(root, i)])
            && pte_valid(n[entry_addr(root, j)]) implies pte_page(n[entry_addr(root, i)])
            != pte_page(n[entry_addr(root, j)]) by {
        lemma_root_entries_after_map(old_mem, old_alloc, new_mem, new_alloc, root, va, pa, flags, i);
        lemma_root_entries_after_map(old_mem, old_alloc, new_mem, new_alloc, root, va, pa, flags, j);
        assert(pte_valid(m[entry_addr(root, i)]) || (!pte_valid(e1) && i == i1));
        assert(pte_valid(m[entry_addr(root, j)]) || (!pte_valid(e1) && j == i1));
    }
}

} // verus!
