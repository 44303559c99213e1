use lib::addr::{PAddr, VAddr};
use lib::mem::addr::{Addr, PAddr as MemPAddr, VAddr as MemVAddr};

#[test]
fn paddr_align_up_rounds_to_next_multiple() {
    assert_eq!(PAddr(5).align_up(4), PAddr(8));
    assert_eq!(PAddr(0x8000_0001).align_up(4096), PAddr(0x8000_1000));
}

#[test]
fn paddr_align_up_keeps_aligned_address() {
    assert_eq!(PAddr(8).align_up(4), PAddr(8));
    assert_eq!(PAddr(0).align_up(4096), PAddr(0));
    assert_eq!(PAddr(7).align_up(1), PAddr(7));
}

#[test]
fn paddr_align_up_at_top_of_range() {
    let top = usize::MAX - 4095;
    assert_eq!(PAddr(top - 10).align_up(4096), PAddr(top));
}

#[test]
fn paddr_is_aligned_checks_low_bits() {
    assert!(PAddr(0x1000).is_aligned(4096));
    assert!(!PAddr(0x1004).is_aligned(4096));
    assert!(PAddr(0x1004).is_aligned(4));
    assert!(PAddr(3).is_aligned(1));
}

#[test]
fn vaddr_align_up_and_is_aligned() {
    assert_eq!(VAddr(0x40_0001).align_up(0x40_0000), VAddr(0x80_0000));
    assert!(VAddr(0x80_0000).is_aligned(0x40_0000));
    assert!(!VAddr(0x80_0001).is_aligned(2));
}

#[test]
fn addr_trait_align_up() {
    let p = MemPAddr::from_raw(0x1234);
    assert_eq!(p.align_up(0x100).raw(), 0x1300);
    let v = MemVAddr::from_raw(0x2000);
    assert_eq!(v.align_up(0x1000).raw(), 0x2000);
}

#[test]
fn addr_trait_is_aligned() {
    assert!(MemPAddr::from_raw(0x3000).is_aligned(0x1000));
    assert!(!MemVAddr::from_raw(0x3008).is_aligned(0x10));
    assert!(MemVAddr::from_raw(0x3008).is_aligned(8));
}

#[test]
fn addr_trait_raw_round_trip() {
    assert_eq!(MemPAddr::from_raw(42).raw(), 42);
    assert_eq!(MemVAddr::from_raw(usize::MAX).raw(), usize::MAX);
    assert_eq!(MemPAddr::from_raw(7), MemPAddr(7));
}
