//! A region of physical memory, addressed in 32-bit words.
use vstd::prelude::*;

verus! {

/// Addresses on the machine are 32 bits wide.
pub const ADDR_LIMIT: u64 = 0x1_0000_0000;

/// The word stored at each word-aligned address of `[base, base + 4 * words.len())`.
pub open spec fn words_view(base: int, words: Seq<u32>) -> Map<int, u32> {
    Map::new(
        |a: int| base <= a < base + 4 * words.len() && (a - base) % 4 == 0,
        |a: int| words[(a - base) / 4],
    )
}

/// `m` with every word in `[start, start + len)` set to `v`.
pub open spec fn fill_range(m: Map<int, u32>, start: int, len: int, v: u32) -> Map<int, u32> {
    Map::new(|a: int| m.dom().contains(a), |a: int| if start <= a < start + len { v } else { m[a] })
}

/// A contiguous region of physical memory starting at `base`, viewed as 32-bit words.
pub struct PhysMem {
    base: usize,
    words: Vec<u32>,
}

impl PhysMem {
    /// First address of the region.
    pub closed spec fn base(&self) -> int {
        self.base as int
    }

    /// One past the last address of the region.
    pub closed spec fn end(&self) -> int {
        self.base + 4 * self.words@.len()
    }

    /// The words of the region, keyed by their (word-aligned) address.
    pub closed spec fn view(&self) -> Map<int, u32> {
        words_view(self.base as int, self.words@)
    }

    /// The region starts on a word boundary and lies below the 32-bit address limit.
    pub closed spec fn wf(&self) -> bool {
        &&& self.base % 4 == 0
        &&& self.base + 4 * self.words@.len() <= ADDR_LIMIT
    }

    /// `[a, a + len)` lies inside the region and starts on a word boundary.
    pub open spec fn covers(&self, a: int, len: int) -> bool {
        &&& self.base() <= a
        &&& a + len <= self.end()
        &&& a % 4 == 0
    }

    /// The words of a well-formed region are exactly its word-aligned addresses, and the region
    /// lies below the address limit.
    pub proof fn lemma_view_dom(&self)
        requires
            self.wf(),
        ensures
            forall|a: int| #[trigger] self@.dom().contains(a) <==> (self.covers(a, 4)),
            self.base() % 4 == 0,
            0 <= self.base() <= self.end() <= ADDR_LIMIT,
    {
        assert forall|a: int| #[trigger] self@.dom().contains(a) <==> (self.covers(a, 4)) by {
            if self.covers(a, 4) {
                assert((a - self.base) % 4 == 0);
            }
            if self@.dom().contains(a) {
                assert(a % 4 == 0);
            }
        }
    }

    /// A zeroed region of `size` bytes at `base`.
    pub fn new(base: usize, size: usize) -> (r: Self)
        requires
            base % 4 == 0,
            size % 4 == 0,
            base + size <= ADDR_LIMIT,
        ensures
            r.wf(),
            r.base() == base,
            r.end() == base + size,
            forall|a: int| #[trigger] r@.dom().contains(a) ==> r@[a] == 0,
    {
        let n = size / 4;
        let mut words: Vec<u32> = Vec::new();
        let mut i: usize = 0;
        while i < n
            invariant
                n == size / 4,
                i <= n,
                words@.len() == i,
                forall|j: int| 0 <= j < i ==> words@[j] == 0,
            decreases n - i,
        {
            words.push(0);
            i = i + 1;
        }
        let r = PhysMem { base, words };
        assert forall|a: int| #[trigger] r@.dom().contains(a) implies r@[a] == 0 by {
            assert(0 <= (a - base) / 4 < n);
        }
        r
    }

    /// The word at address `a`.
    pub fn read_u32(&self, a: usize) -> (r: u32)
        requires
            self.wf(),
            self.covers(a as int, 4),
        ensures
            self@.dom().contains(a as int),
            r == self@[a as int],
    {
        let i = (a - self.base) / 4;
        self.words[i]
    }

    /// Stores `v` at address `a`.
    pub fn write_u32(&mut self, a: usize, v: u32)
        requires
            old(self).wf(),
            old(self).covers(a as int, 4),
        ensures
            final(self).wf(),
            final(self).base() == old(self).base(),
            final(self).end() == old(self).end(),
            final(self)@ == old(self)@.insert(a as int, v),
    {
        let i = (a - self.base) / 4;
        self.words[i] = v;
        proof {
            let b = self.base as int;
            assert forall|x: int| #[trigger] self@.dom().contains(x) implies self@[x] == old(self)@.insert(a as int, v)[x] by {
                if x != a {
                    assert((x - b) / 4 != (a - b) / 4);
                }
            }
            assert(self@ =~= old(self)@.insert(a as int, v));
        }
    }

    /// Stores `v` in every word of `[start, start + len)`.
    pub fn fill_u32(&mut self, start: usize, len: usize, v: u32)
        requires
            old(self).wf(),
            old(self).covers(start as int, len as int),
            len % 4 == 0,
        ensures
            final(self).wf(),
            final(self).base() == old(self).base(),
            final(self).end() == old(self).end(),
            final(self)@ == fill_range(old(self)@, start as int, len as int, v),
    {
        let first = (start - self.base) / 4;
        let n = len / 4;
        let mut k: usize = 0;
        while k < n
            invariant
                self.wf(),
                self.base == old(self).base,
                self.words@.len() == old(self).words@.len(),
                first == (start - self.base) / 4,
                n == len / 4,
                first + n <= self.words@.len(),
                k <= n,
                forall|j: int| 0 <= j < self.words@.len() ==> #[trigger] self.words@[j] == if first <= j < first + k {
                    v
                } else {
                    old(self).words@[j]
                },
            decreases n - k,
        {
            self.words[first + k] = v;
            k = k + 1;
        }
        proof {
            let b = self.base as int;
            assert forall|x: int| #[trigger] self@.dom().contains(x) implies self@[x] == fill_range(old(self)@, start as int, len as int, v)[x] by {
                let j = (x - b) / 4;
                assert(start <= x < start + len <==> first <= j < first + n);
            }
            assert(self@ =~= fill_range(old(self)@, start as int, len as int, v));
        }
    }
}

} // verus!
