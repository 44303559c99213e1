//! Address types of the memory subsystem, sharing their alignment helpers through `Addr`.
use vstd::prelude::*;
use vstd::arithmetic::power2::is_pow2;
use crate::addr::{align_up_spec, aligned, lemma_align_up_mask, lemma_mask_is_mod};

verus! {

/// A physical address.
#[derive(Copy, Clone, PartialEq, Eq, Structural, PartialOrd, Ord, Debug)]
pub struct PAddr(pub usize);

/// A virtual address.
#[derive(Copy, Clone, PartialEq, Eq, Structural, PartialOrd, Ord, Debug)]
pub struct VAddr(pub usize);

/// An address: a thin wrapper around a raw `usize`.
pub trait Addr: Copy + Eq + Ord + Sized {
    /// The raw value of the address.
    spec fn raw_spec(self) -> usize;

    /// Returns the raw value.
    fn raw(self) -> (r: usize)
        ensures
            r == self.raw_spec(),
    ;

    /// Builds an address from a raw value.
    fn from_raw(x: usize) -> (r: Self)
        ensures
            r.raw_spec() == x,
    ;

    /// Rounds the address up to the next multiple of `align`, a power of two.
    fn align_up(self, align: usize) -> (r: Self)
        requires
            is_pow2(align as int),
            self.raw_spec() + align - 1 <= usize::MAX,
        ensures
            r.raw_spec() == align_up_spec(self.raw_spec() as int, align as int),
    {
        let x = self.raw();
        proof { lemma_align_up_mask(x, align); }
        let y = (x + (align - 1)) & !(align - 1);
        Self::from_raw(y)
    }

    /// Whether the address is a multiple of `align`, a power of two.
    fn is_aligned(self, align: usize) -> (r: bool)
        requires
            is_pow2(align as int),
        ensures
            r == aligned(self.raw_spec() as int, align as int),
    {
        let x = self.raw();
        proof { lemma_mask_is_mod(x, align); }
        (x & (align - 1)) == 0
    }
}

impl Addr for PAddr {
    open spec fn raw_spec(self) -> usize {
        self.0
    }

    fn raw(self) -> (r: usize) {
        self.0
    }

    fn from_raw(x: usize) -> (r: Self) {
        PAddr(x)
    }
}

impl Addr for VAddr {
    open spec fn raw_spec(self) -> usize {
        self.0
    }

    fn raw(self) -> (r: usize) {
        self.0
    }

    fn from_raw(x: usize) -> (r: Self) {
        VAddr(x)
    }
}

} // verus!
