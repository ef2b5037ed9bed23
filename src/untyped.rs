//! Untyped memory: a bump-allocation arena over a range of physical memory.
use vstd::prelude::*;

verus! {

/// Physical address.
pub type PAddr = usize;

/// A region of raw physical memory `[start_paddr, start_paddr + length)`.
/// Allocation carves ranges off the front, at `watermark`, which only grows.
#[derive(Clone, Copy, Debug)]
pub struct UntypedHalf {
    pub start_paddr: PAddr,
    pub length: usize,
    pub watermark: PAddr,
}

/// The first address at or past `watermark` that is a multiple of `align`.
pub open spec fn aligned_start(watermark: int, align: int) -> int {
    if watermark % align == 0 {
        watermark
    } else {
        watermark + (align - watermark % align)
    }
}

impl UntypedHalf {
    /// The address one past the region's last byte.
    pub open spec fn end(self) -> int {
        self.start_paddr + self.length
    }

    pub open spec fn wf(self) -> bool {
        &&& self.start_paddr + self.length <= usize::MAX
        &&& self.start_paddr <= self.watermark <= self.end()
    }

    /// Whether `allocate(size, align)` succeeds on this region.
    pub open spec fn fits(self, size: int, align: int) -> bool {
        aligned_start(self.watermark as int, align) + size <= self.end()
    }

    /// The region `[start_paddr, start_paddr + length)` with nothing
    /// allocated yet.
    pub open spec fn bootstrap_spec(start_paddr: PAddr, length: usize) -> UntypedHalf {
        UntypedHalf { start_paddr, length, watermark: start_paddr }
    }

    /// What `allocate(size, align)` does to region `u`, returning `r` and
    /// leaving `v`: on success the start of the range, aligned, at or past
    /// the old watermark, with the watermark moved to the range's end;
    /// otherwise nothing changes.
    pub open spec fn allocated(u: UntypedHalf, size: int, align: int, r: Option<PAddr>, v: UntypedHalf) -> bool {
        &&& v.wf()
        &&& v.start_paddr == u.start_paddr
        &&& v.length == u.length
        &&& match r {
            Some(a) => {
                &&& u.fits(size, align)
                &&& a == aligned_start(u.watermark as int, align)
                &&& (a as int) % align == 0
                &&& u.watermark <= a
                &&& v.watermark == a + size
            },
            None => {
                &&& !u.fits(size, align)
                &&& v == u
            },
        }
    }

    /// A fresh region with nothing allocated yet.
    pub fn bootstrap(start_paddr: PAddr, length: usize) -> (r: UntypedHalf)
        requires
            start_paddr + length <= usize::MAX,
        ensures
            r.wf(),
            r == UntypedHalf::bootstrap_spec(start_paddr, length),
    {
        UntypedHalf { start_paddr, length, watermark: start_paddr }
    }

    pub fn length(&self) -> (r: usize)
        ensures
            r == self.length,
    {
        self.length
    }

    /// Carve `size` bytes aligned to `align` off the region. Returns the start
    /// of the range, or `None`, leaving the region unchanged, when the rest of
    /// the region is too short.
    pub fn allocate(&mut self, size: usize, align: usize) -> (r: Option<PAddr>)
        requires
            old(self).wf(),
            align > 0,
        ensures
            UntypedHalf::allocated(*old(self), size as int, align as int, r, *final(self)),
    {
        let rem = self.watermark % align;
        let pad: usize = if rem == 0 { 0 } else { align - rem };
        let end = self.start_paddr + self.length;
        if pad > end - self.watermark {
            return None;
        }
        let start = self.watermark + pad;
        if size > end - start {
            return None;
        }
        proof {
            assert(start % align == 0) by (nonlinear_arith)
                requires start == self.watermark + pad, rem == self.watermark % align,
                    pad == (if rem == 0 { 0 } else { align - rem }), align > 0;
        }
        self.watermark = start + size;
        Some(start)
    }
}

/// A run of allocations on one region: `states[k + 1]` is what
/// `allocate(sizes[k], aligns[k])` on `states[k]` leaves, returning
/// `results[k]`.
pub open spec fn allocation_run(states: Seq<UntypedHalf>, sizes: Seq<usize>, aligns: Seq<usize>, results: Seq<Option<PAddr>>) -> bool {
    &&& states.len() == sizes.len() + 1
    &&& aligns.len() == sizes.len()
    &&& results.len() == sizes.len()
    &&& states[0].wf()
    &&& forall|k: int| 0 <= k < sizes.len() ==> aligns[k] > 0 && #[trigger] UntypedHalf::allocated(
        states[k], sizes[k] as int, aligns[k] as int, results[k], states[k + 1])
}

/// Along a run of allocations the region keeps its bounds and its
/// watermark never moves back.
pub proof fn lemma_watermark_grows(states: Seq<UntypedHalf>, sizes: Seq<usize>, aligns: Seq<usize>, results: Seq<Option<PAddr>>, i: int, j: int)
    requires
        allocation_run(states, sizes, aligns, results),
        0 <= i <= j < states.len(),
    ensures
        states[i].watermark <= states[j].watermark,
        states[j].start_paddr == states[0].start_paddr,
        states[j].length == states[0].length,
    decreases j,
{
    if j > 0 {
        let k = j - 1;
        assert(UntypedHalf::allocated(states[k], sizes[k] as int, aligns[k] as int, results[k], states[k + 1]));
        if i < j {
            lemma_watermark_grows(states, sizes, aligns, results, i, j - 1);
        } else {
            lemma_watermark_grows(states, sizes, aligns, results, 0, j - 1);
        }
    }
}

/// For any run of allocations on one region, every returned range lies in
/// the region and is aligned as asked, and the ranges of two calls are
/// disjoint: the earlier one ends where the later one may start at the
/// soonest.
pub proof fn lemma_allocations_disjoint(states: Seq<UntypedHalf>, sizes: Seq<usize>, aligns: Seq<usize>,
    results: Seq<Option<PAddr>>, i: int, j: int)
    requires
        allocation_run(states, sizes, aligns, results),
        0 <= i < j < sizes.len(),
        results[i] is Some,
        results[j] is Some,
    ensures
        results[i]->0 + sizes[i] <= results[j]->0,
        (results[i]->0 as int) % (aligns[i] as int) == 0,
        states[0].start_paddr <= results[i]->0,
        results[j]->0 + sizes[j] <= states[0].end(),
{
    assert(UntypedHalf::allocated(states[i], sizes[i] as int, aligns[i] as int, results[i], states[i + 1]));
    assert(UntypedHalf::allocated(states[j], sizes[j] as int, aligns[j] as int, results[j], states[j + 1]));
    lemma_watermark_grows(states, sizes, aligns, results, i + 1, j);
    lemma_watermark_grows(states, sizes, aligns, results, 0, i);
    lemma_watermark_grows(states, sizes, aligns, results, 0, j + 1);
}

} // verus!
