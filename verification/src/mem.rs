//! Byte-buffer helpers and the memory subsystem.
use vstd::prelude::*;
use core::ops::Range;

pub mod addr;
pub mod phys;
pub mod frame_alloc;
pub mod paging;

verus! {

/// Size of a page frame in bytes.
pub const PAGE_SIZE: usize = 4096;

/// `new` is `old` with the `len` bytes starting at `src` copied to `dst`, as if through a
/// temporary buffer; every other byte is unchanged.
pub open spec fn moved(old: Seq<u8>, new: Seq<u8>, src: int, dst: int, len: int) -> bool {
    &&& new.len() == old.len()
    &&& forall|i: int| 0 <= i < new.len() ==> #[trigger] new[i] == if dst <= i < dst + len {
        old[src + (i - dst)]
    } else {
        old[i]
    }
}

/// Sets every byte of `buf` to `byte`.
pub fn fill(buf: &mut [u8], byte: u8)
    ensures
        final(buf)@ == Seq::new(old(buf)@.len(), |_i: int| byte),
{
    let n = buf.len();
    let mut i: usize = 0;
    while i < n
        invariant
            n == old(buf)@.len(),
            buf@.len() == n,
            i <= n,
            forall|j: int| 0 <= j < i ==> buf@[j] == byte,
        decreases n - i,
    {
        buf[i] = byte;
        i = i + 1;
    }
    assert(buf@ =~= Seq::new(old(buf)@.len(), |_i: int| byte));
}

/// Sets every byte of `buf` to zero.
pub fn zero(buf: &mut [u8])
    ensures
        final(buf)@ == Seq::new(old(buf)@.len(), |_i: int| 0u8),
{
    fill(buf, 0);
}

/// Copies `src` into the front of `dst`; the rest of `dst` is unchanged.
pub fn copy_from(dst: &mut [u8], src: &[u8])
    requires
        old(dst)@.len() >= src@.len(),
    ensures
        final(dst)@ == src@ + old(dst)@.subrange(src@.len() as int, old(dst)@.len() as int),
{
    let n = src.len();
    let mut i: usize = 0;
    while i < n
        invariant
            n == src@.len(),
            dst@.len() == old(dst)@.len(),
            n <= dst@.len(),
            i <= n,
            forall|j: int| 0 <= j < i ==> dst@[j] == src@[j],
            forall|j: int| n <= j < dst@.len() ==> dst@[j] == old(dst)@[j],
        decreases n - i,
    {
        dst[i] = src[i];
        i = i + 1;
    }
    assert(dst@ =~= src@ + old(dst)@.subrange(src@.len() as int, old(dst)@.len() as int));
}

/// Copies the bytes of `buf` in the range `src` to the position `dst_start`, correctly even
/// when the two regions overlap.
pub fn move_overlap(buf: &mut [u8], src: Range<usize>, dst_start: usize)
    requires
        src.start <= src.end <= old(buf)@.len(),
        dst_start + (src.end - src.start) <= old(buf)@.len(),
    ensures
        moved(old(buf)@, final(buf)@, src.start as int, dst_start as int, src.end - src.start),
{
    let len = src.end - src.start;
    if dst_start > src.start {
        let mut k: usize = len;
        while k > 0
            invariant
                len == src.end - src.start,
                src.start < dst_start,
                dst_start + len <= buf@.len(),
                buf@.len() == old(buf)@.len(),
                k <= len,
                forall|i: int| 0 <= i < buf@.len() ==> #[trigger] buf@[i] == if dst_start + k <= i < dst_start + len {
                    old(buf)@[src.start + (i - dst_start)]
                } else {
                    old(buf)@[i]
                },
            decreases k,
        {
            k = k - 1;
            let b = buf[src.start + k];
            buf[dst_start + k] = b;
        }
    } else {
        let mut k: usize = 0;
        while k < len
            invariant
                len == src.end - src.start,
                dst_start <= src.start,
                src.end <= buf@.len(),
                buf@.len() == old(buf)@.len(),
                k <= len,
                forall|i: int| 0 <= i < buf@.len() ==> #[trigger] buf@[i] == if dst_start <= i < dst_start + k {
                    old(buf)@[src.start + (i - dst_start)]
                } else {
                    old(buf)@[i]
                },
            decreases len - k,
        {
            let b = buf[src.start + k];
            buf[dst_start + k] = b;
            k = k + 1;
        }
    }
}

} // verus!
