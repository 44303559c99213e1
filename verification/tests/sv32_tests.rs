use lib::mem::frame_alloc::init;
use lib::mem::paging::sv32::{
    is_aligned, map_page, ppn_of, vpn0_of, vpn1_of, PTE_R, PTE_V, PTE_W, PTE_X, SATP_SV32,
};
use lib::mem::phys::PhysMem;
use lib::mem::PAGE_SIZE;

const RAM_BASE: usize = 0x8000_0000;
const RAM_SIZE: usize = 32 * PAGE_SIZE;

fn lookup(mem: &PhysMem, root: usize, va: usize) -> Option<u32> {
    let e1 = mem.read_u32(root + 4 * vpn1_of(va));
    if e1 & PTE_V == 0 {
        return None;
    }
    let l0 = ((e1 >> 10) as usize) * PAGE_SIZE;
    let e0 = mem.read_u32(l0 + 4 * vpn0_of(va));
    if e0 & PTE_V == 0 {
        None
    } else {
        Some(e0)
    }
}

#[test]
fn vpn_split() {
    assert_eq!(vpn1_of(0x8040_3000), 0x201);
    assert_eq!(vpn0_of(0x8040_3000), 0x003);
    assert_eq!(vpn1_of(0xFFFF_FFFF), 0x3ff);
    assert_eq!(vpn0_of(0xFFFF_FFFF), 0x3ff);
    assert_eq!(vpn1_of(0), 0);
    assert_eq!(vpn0_of(0x0000_0FFF), 0);
}

#[test]
fn ppn_is_page_number() {
    assert_eq!(ppn_of(0x8020_1000), 0x80201);
    assert_eq!(ppn_of(0xFFF), 0);
}

#[test]
fn sv32_is_aligned() {
    assert!(is_aligned(0x8000_0000, PAGE_SIZE));
    assert!(!is_aligned(0x8000_0010, PAGE_SIZE));
    assert!(is_aligned(0x8000_0010, 16));
    assert!(is_aligned(5, 1));
    // With a non power of two the low bits below it are tested.
    assert!(is_aligned(4, 3));
    assert!(!is_aligned(6, 3));
}

#[test]
fn constants() {
    assert_eq!(SATP_SV32, 1usize << 31);
    assert_eq!(PTE_V | PTE_R | PTE_W | PTE_X, 0xf);
}

#[test]
fn map_page_then_lookup_finds_frame() {
    let mut mem = PhysMem::new(RAM_BASE, RAM_SIZE);
    let root = RAM_BASE;
    let mut alloc = init(RAM_BASE + PAGE_SIZE, RAM_BASE + RAM_SIZE);
    map_page(&mut mem, &mut alloc, root, 0x0040_3000, 0x8001_0000, PTE_R | PTE_W);
    let pte = lookup(&mem, root, 0x0040_3000).unwrap();
    assert_eq!(pte, (0x80010 << 10) | PTE_R | PTE_W | PTE_V);
    assert_eq!(((pte >> 10) as usize) * PAGE_SIZE, 0x8001_0000);
    // The leaf table came from the allocator: the root entry points at the first free frame.
    let e1 = mem.read_u32(root + 4 * vpn1_of(0x0040_3000));
    assert_eq!(e1, (((RAM_BASE + PAGE_SIZE) >> 12) as u32) << 10 | PTE_V);
}

#[test]
fn map_page_reuses_existing_leaf_table() {
    let mut mem = PhysMem::new(RAM_BASE, RAM_SIZE);
    let root = RAM_BASE;
    let mut alloc = init(RAM_BASE + PAGE_SIZE, RAM_BASE + RAM_SIZE);
    map_page(&mut mem, &mut alloc, root, 0x0040_0000, 0x8001_0000, PTE_R);
    map_page(&mut mem, &mut alloc, root, 0x0040_1000, 0x8001_1000, PTE_X);
    assert_eq!(lookup(&mem, root, 0x0040_0000), Some((0x80010 << 10) | PTE_R | PTE_V));
    assert_eq!(lookup(&mem, root, 0x0040_1000), Some((0x80011 << 10) | PTE_X | PTE_V));
    // Only one leaf table was taken: the next free frame is the second one.
    map_page(&mut mem, &mut alloc, root, 0x0080_0000, 0x8001_2000, PTE_R);
    let e1 = mem.read_u32(root + 4 * vpn1_of(0x0080_0000));
    assert_eq!(((e1 >> 10) as usize) * PAGE_SIZE, RAM_BASE + 2 * PAGE_SIZE);
}

#[test]
fn map_page_leaves_other_pages_unmapped() {
    let mut mem = PhysMem::new(RAM_BASE, RAM_SIZE);
    let root = RAM_BASE;
    let mut alloc = init(RAM_BASE + PAGE_SIZE, RAM_BASE + RAM_SIZE);
    assert_eq!(lookup(&mem, root, 0x0040_3000), None);
    map_page(&mut mem, &mut alloc, root, 0x0040_3000, 0x8001_0000, PTE_R);
    assert_eq!(lookup(&mem, root, 0x0040_4000), None);
    assert_eq!(lookup(&mem, root, 0x0080_3000), None);
    let before = lookup(&mem, root, 0x0040_3000);
    map_page(&mut mem, &mut alloc, root, 0x0040_4000, 0x8001_1000, PTE_W | PTE_R);
    assert_eq!(lookup(&mem, root, 0x0040_3000), before);
}

#[test]
fn map_page_remap_overwrites_entry() {
    let mut mem = PhysMem::new(RAM_BASE, RAM_SIZE);
    let root = RAM_BASE;
    let mut alloc = init(RAM_BASE + PAGE_SIZE, RAM_BASE + RAM_SIZE);
    map_page(&mut mem, &mut alloc, root, 0x1000, 0x8001_0000, PTE_R);
    map_page(&mut mem, &mut alloc, root, 0x1000, 0x8002_0000, PTE_W);
    assert_eq!(lookup(&mem, root, 0x1000), Some((0x80020 << 10) | PTE_W | PTE_V));
}
