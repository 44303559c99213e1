//! Physical and virtual addresses with power-of-two alignment helpers.
use vstd::prelude::*;
use vstd::arithmetic::power2::{pow2, is_pow2};

verus! {

/// The smallest multiple of `align` that is at least `x`.
pub open spec fn align_up_spec(x: int, align: int) -> int {
    ((x + align - 1) / align) * align
}

/// `x` is a multiple of `align`.
pub open spec fn aligned(x: int, align: int) -> bool {
    x % align == 0
}

/// A power of two that fits in a `usize` is `2^k` for some `k` below the word width.
pub proof fn lemma_pow2_exponent(align: usize) -> (k: nat)
    requires
        is_pow2(align as int),
    ensures
        k < usize::BITS,
        pow2(k) == align,
{
    vstd::arithmetic::power2::is_pow2_equiv(align as int);
    let k = choose|i: nat| vstd::arithmetic::power::pow(2, i) == align as int;
    if k >= usize::BITS {
        vstd::arithmetic::power2::lemma2_to64();
        vstd::arithmetic::power2::lemma2_to64_rest();
        if k > usize::BITS {
            vstd::arithmetic::power2::lemma_pow2_strictly_increases(usize::BITS as nat, k);
        }
        assert(false);
    }
    k
}

/// Masking with `align - 1` keeps the remainder modulo a power of two, and masking with its
/// complement rounds down to a multiple of it.
pub proof fn lemma_mask_is_mod(x: usize, align: usize)
    requires
        is_pow2(align as int),
    ensures
        align > 0,
        x & ((align - 1) as usize) == x % align,
        x & !((align - 1) as usize) == x - x % align,
{
    let k = lemma_pow2_exponent(align);
    vstd::arithmetic::power2::lemma_pow2_pos(k);
    vstd::bits::lemma_usize_low_bits_mask_is_mod(x, k);
    assert(vstd::bits::low_bits_mask(k) == align - 1);
    let m: usize = (align - 1) as usize;
    assert(x & !m == ((x - (x & m)) as usize)) by (bit_vector);
    assert(x & m <= x) by (bit_vector);
}

/// Rounding `x` up by the mask trick gives the smallest multiple of `align` at or above `x`.
pub proof fn lemma_align_up_mask(x: usize, align: usize)
    requires
        is_pow2(align as int),
        x + align - 1 <= usize::MAX,
    ensures
        ((x + align - 1) as usize) & !((align - 1) as usize) == align_up_spec(x as int, align as int),
        aligned(align_up_spec(x as int, align as int), align as int),
        x <= align_up_spec(x as int, align as int) < x + align,
{
    lemma_mask_is_mod(((x + align - 1) as usize), align);
    let y = x + align - 1;
    vstd::arithmetic::div_mod::lemma_fundamental_div_mod(y, align as int);
    vstd::arithmetic::div_mod::lemma_mod_multiples_basic(y / align as int, align as int);
    vstd::arithmetic::mul::lemma_mul_is_commutative(y / align as int, align as int);
}

/// A physical address.
#[derive(Copy, Clone, PartialEq, Eq, Structural, PartialOrd, Ord, Debug)]
pub struct PAddr(pub usize);

/// A virtual address.
#[derive(Copy, Clone, PartialEq, Eq, Structural, PartialOrd, Ord, Debug)]
pub struct VAddr(pub usize);

impl PAddr {
    /// Rounds the address up to the next multiple of `align`, a power of two.
    pub fn align_up(self, align: usize) -> (r: Self)
        requires
            is_pow2(align as int),
            self.0 + align - 1 <= usize::MAX,
        ensures
            r.0 == align_up_spec(self.0 as int, align as int),
    {
        proof { lemma_align_up_mask(self.0, align); }
        PAddr((self.0 + (align - 1)) & !(align - 1))
    }

    /// Whether the address is a multiple of `align`, a power of two.
    pub fn is_aligned(self, align: usize) -> (r: bool)
        requires
            is_pow2(align as int),
        ensures
            r == aligned(self.0 as int, align as int),
    {
        proof { lemma_mask_is_mod(self.0, align); }
        (self.0 & (align - 1)) == 0
    }
}

impl VAddr {
    /// Rounds the address up to the next multiple of `align`, a power of two.
    pub fn align_up(self, align: usize) -> (r: Self)
        requires
            is_pow2(align as int),
            self.0 + align - 1 <= usize::MAX,
        ensures
            r.0 == align_up_spec(self.0 as int, align as int),
    {
        proof { lemma_align_up_mask(self.0, align); }
        VAddr((self.0 + (align - 1)) & !(align - 1))
    }

    /// Whether the address is a multiple of `align`, a power of two.
    pub fn is_aligned(self, align: usize) -> (r: bool)
        requires
            is_pow2(align as int),
        ensures
            r == aligned(self.0 as int, align as int),
    {
        proof { lemma_mask_is_mod(self.0, align); }
        (self.0 & (align - 1)) == 0
    }
}

} // verus!
