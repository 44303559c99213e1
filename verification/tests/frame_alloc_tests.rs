use lib::mem::frame_alloc::{alloc_pages, init, Oom};
use lib::mem::phys::PhysMem;
use lib::mem::PAGE_SIZE;

const RAM_BASE: usize = 0x8000_0000;
const RAM_SIZE: usize = 16 * PAGE_SIZE;

#[test]
fn init_rounds_start_up_to_a_page() {
    let mut mem = PhysMem::new(RAM_BASE, RAM_SIZE);
    let mut alloc = init(RAM_BASE + 1, RAM_BASE + RAM_SIZE);
    let f = alloc_pages(&mut alloc, &mut mem, 1).unwrap();
    assert_eq!(f.paddr().0, RAM_BASE + PAGE_SIZE);
}

#[test]
fn successive_allocations_are_disjoint_and_ascending() {
    let mut mem = PhysMem::new(RAM_BASE, RAM_SIZE);
    let mut alloc = init(RAM_BASE, RAM_BASE + RAM_SIZE);
    let a = alloc_pages(&mut alloc, &mut mem, 2).unwrap();
    let b = alloc_pages(&mut alloc, &mut mem, 3).unwrap();
    let c = alloc_pages(&mut alloc, &mut mem, 1).unwrap();
    assert_eq!(a.paddr().0, RAM_BASE);
    assert_eq!(b.paddr().0, RAM_BASE + 2 * PAGE_SIZE);
    assert_eq!(c.paddr().0, RAM_BASE + 5 * PAGE_SIZE);
}

#[test]
fn allocation_beyond_limit_is_oom_and_changes_nothing() {
    let mut mem = PhysMem::new(RAM_BASE, RAM_SIZE);
    let mut alloc = init(RAM_BASE, RAM_BASE + 4 * PAGE_SIZE);
    assert_eq!(alloc_pages(&mut alloc, &mut mem, 5).unwrap_err(), Oom);
    let f = alloc_pages(&mut alloc, &mut mem, 4).unwrap();
    assert_eq!(f.paddr().0, RAM_BASE);
    assert_eq!(alloc_pages(&mut alloc, &mut mem, 1).unwrap_err(), Oom);
}

#[test]
fn allocation_with_overflowing_size_is_oom() {
    let mut mem = PhysMem::new(RAM_BASE, RAM_SIZE);
    let mut alloc = init(RAM_BASE, RAM_BASE + RAM_SIZE);
    assert_eq!(alloc_pages(&mut alloc, &mut mem, usize::MAX).unwrap_err(), Oom);
    assert_eq!(alloc_pages(&mut alloc, &mut mem, usize::MAX / PAGE_SIZE).unwrap_err(), Oom);
    let f = alloc_pages(&mut alloc, &mut mem, 1).unwrap();
    assert_eq!(f.paddr().0, RAM_BASE);
}

#[test]
fn zero_page_allocation_returns_next_frame() {
    let mut mem = PhysMem::new(RAM_BASE, RAM_SIZE);
    let mut alloc = init(RAM_BASE, RAM_BASE + RAM_SIZE);
    let z = alloc_pages(&mut alloc, &mut mem, 0).unwrap();
    let f = alloc_pages(&mut alloc, &mut mem, 1).unwrap();
    assert_eq!(z.paddr().0, RAM_BASE);
    assert_eq!(f.paddr().0, RAM_BASE);
}

#[test]
fn allocated_frames_are_zeroed() {
    let mut mem = PhysMem::new(RAM_BASE, RAM_SIZE);
    for k in 0..(2 * PAGE_SIZE / 4) {
        mem.write_u32(RAM_BASE + 4 * k, 0xDEAD_BEEF);
    }
    let mut alloc = init(RAM_BASE, RAM_BASE + RAM_SIZE);
    let f = alloc_pages(&mut alloc, &mut mem, 1).unwrap();
    for k in 0..(PAGE_SIZE / 4) {
        assert_eq!(mem.read_u32(f.paddr().0 + 4 * k), 0);
    }
    assert_eq!(mem.read_u32(RAM_BASE + PAGE_SIZE), 0xDEAD_BEEF);
}

#[test]
fn failed_allocation_leaves_memory_alone() {
    let mut mem = PhysMem::new(RAM_BASE, RAM_SIZE);
    mem.write_u32(RAM_BASE, 0x1234_5678);
    let mut alloc = init(RAM_BASE, RAM_BASE + PAGE_SIZE);
    assert!(alloc_pages(&mut alloc, &mut mem, 2).is_err());
    assert_eq!(mem.read_u32(RAM_BASE), 0x1234_5678);
}

#[test]
fn page_frame_fill_repeats_byte() {
    let mut mem = PhysMem::new(RAM_BASE, RAM_SIZE);
    let mut alloc = init(RAM_BASE, RAM_BASE + RAM_SIZE);
    let f = alloc_pages(&mut alloc, &mut mem, 2).unwrap();
    f.fill(&mut mem, 2, 0xAB);
    assert_eq!(mem.read_u32(f.paddr().0), 0xABAB_ABAB);
    assert_eq!(mem.read_u32(f.paddr().0 + 2 * PAGE_SIZE - 4), 0xABAB_ABAB);
    assert_eq!(mem.read_u32(f.paddr().0 + 2 * PAGE_SIZE), 0);
}

#[test]
fn phys_mem_write_then_read() {
    let mut mem = PhysMem::new(RAM_BASE, RAM_SIZE);
    assert_eq!(mem.read_u32(RAM_BASE + 8), 0);
    mem.write_u32(RAM_BASE + 8, 77);
    assert_eq!(mem.read_u32(RAM_BASE + 8), 77);
    assert_eq!(mem.read_u32(RAM_BASE + 4), 0);
    mem.fill_u32(RAM_BASE, 16, 5);
    assert_eq!(mem.read_u32(RAM_BASE + 12), 5);
    assert_eq!(mem.read_u32(RAM_BASE + 16), 0);
}

#[test]
fn every_frame_lies_in_the_initial_range() {
    let lo = RAM_BASE + 100;
    let hi = RAM_BASE + 10 * PAGE_SIZE;
    let mut mem = PhysMem::new(RAM_BASE, RAM_SIZE);
    let mut alloc = init(lo, hi);
    let mut next_free = RAM_BASE + PAGE_SIZE;
    for n in [1usize, 3, 0, 7, 2, 4, 1, 1] {
        match alloc_pages(&mut alloc, &mut mem, n) {
            Ok(f) => {
                let start = f.paddr().0;
                assert_eq!(start % PAGE_SIZE, 0);
                assert_eq!(start, next_free);
                assert!(start + n * PAGE_SIZE <= hi);
                next_free = start + n * PAGE_SIZE;
            }
            Err(e) => {
                assert_eq!(e, Oom);
                assert!(next_free + n * PAGE_SIZE > hi);
            }
        }
    }
}
