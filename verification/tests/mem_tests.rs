use lib::mem::{copy_from, fill, move_overlap, zero};

#[test]
fn fill_sets_every_byte() {
    let mut buf = [1u8, 2, 3, 4, 5];
    fill(&mut buf, 0xAA);
    assert_eq!(buf, [0xAA; 5]);
}

#[test]
fn fill_empty_buffer() {
    let mut buf: [u8; 0] = [];
    fill(&mut buf, 7);
    assert_eq!(buf.len(), 0);
}

#[test]
fn zero_clears_buffer() {
    let mut buf = vec![9u8; 16];
    zero(&mut buf);
    assert_eq!(buf, vec![0u8; 16]);
}

#[test]
fn copy_from_fills_prefix_only() {
    let mut dst = [0u8; 6];
    copy_from(&mut dst, &[1, 2, 3]);
    assert_eq!(dst, [1, 2, 3, 0, 0, 0]);
}

#[test]
fn copy_from_whole_buffer() {
    let mut dst = [5u8; 3];
    copy_from(&mut dst, &[7, 8, 9]);
    assert_eq!(dst, [7, 8, 9]);
}

#[test]
fn move_overlap_forward_overlapping() {
    let mut buf = [1u8, 2, 3, 4, 5, 6, 7, 8];
    move_overlap(&mut buf, 0..4, 2);
    assert_eq!(buf, [1, 2, 1, 2, 3, 4, 7, 8]);
}

#[test]
fn move_overlap_backward_overlapping() {
    let mut buf = [1u8, 2, 3, 4, 5, 6, 7, 8];
    move_overlap(&mut buf, 2..6, 0);
    assert_eq!(buf, [3, 4, 5, 6, 5, 6, 7, 8]);
}

#[test]
fn move_overlap_disjoint_regions() {
    let mut buf = [1u8, 2, 3, 4, 5, 6, 7, 8];
    move_overlap(&mut buf, 0..3, 5);
    assert_eq!(buf, [1, 2, 3, 4, 5, 1, 2, 3]);
}

#[test]
fn move_overlap_empty_and_same_place() {
    let mut buf = [1u8, 2, 3, 4];
    move_overlap(&mut buf, 2..2, 0);
    assert_eq!(buf, [1, 2, 3, 4]);
    move_overlap(&mut buf, 1..3, 1);
    assert_eq!(buf, [1, 2, 3, 4]);
}
