//! Page-like kernel objects: raw pages, task buffer pages and top-level page
//! tables. Each is carved out of untyped memory and starts zeroed.
use vstd::prelude::*;
use crate::cap::CapabilityUnion;
use crate::task::SystemCall;
use crate::untyped::{aligned_start, PAddr, UntypedHalf};

verus! {

/// Basic page length in x86_64 (4 KiB).
pub const BASE_PAGE_LENGTH: usize = 4096;

/// `n` zero bytes.
pub open spec fn zeros(n: nat) -> Seq<u8> {
    Seq::new(n, |_i: int| 0u8)
}

/// What carving a page out of `untyped` does: on success the page starts at
/// the page-aligned allocation, otherwise the region is unchanged.
pub open spec fn page_carved(old_u: UntypedHalf, new_u: UntypedHalf, r: Option<PAddr>) -> bool {
    &&& new_u.wf()
    &&& new_u.start_paddr == old_u.start_paddr
    &&& new_u.length == old_u.length
    &&& (r is Some <==> old_u.fits(BASE_PAGE_LENGTH as int, BASE_PAGE_LENGTH as int))
    &&& r is None ==> new_u == old_u
    &&& r matches Some(a) ==> {
        &&& a == aligned_start(old_u.watermark as int, BASE_PAGE_LENGTH as int)
        &&& a % BASE_PAGE_LENGTH == 0
        &&& old_u.watermark <= a
        &&& new_u.watermark == a + BASE_PAGE_LENGTH
    }
}

/// Carving a page is an allocation of one page-aligned page, so the laws of
/// runs of allocations hold of page carvings mixed with other allocations.
pub proof fn lemma_page_carved_is_allocation(u: UntypedHalf, v: UntypedHalf, r: Option<PAddr>)
    requires
        page_carved(u, v, r),
    ensures
        UntypedHalf::allocated(u, BASE_PAGE_LENGTH as int, BASE_PAGE_LENGTH as int, r, v),
{
}

/// Allocate one page-aligned page of `untyped`.
fn allocate_page(untyped: &mut UntypedHalf) -> (r: Option<PAddr>)
    requires
        old(untyped).wf(),
    ensures
        page_carved(*old(untyped), *final(untyped), r),
{
    untyped.allocate(BASE_PAGE_LENGTH, BASE_PAGE_LENGTH)
}

/// A raw page of physical memory; `data` holds its bytes.
#[derive(Debug)]
pub struct PageHalf {
    pub start_paddr: PAddr,
    pub data: Vec<u8>,
}

impl PageHalf {
    pub open spec fn wf(self) -> bool {
        self.data@.len() == BASE_PAGE_LENGTH
    }

    pub fn start_paddr(&self) -> (r: PAddr)
        ensures
            r == self.start_paddr,
    {
        self.start_paddr
    }

    /// Retype a page out of `untyped`, with every byte zero. `None`, with
    /// `untyped` unchanged, when the region has no room.
    pub fn new(untyped: &mut UntypedHalf) -> (r: Option<PageHalf>)
        requires
            old(untyped).wf(),
        ensures
            page_carved(*old(untyped), *final(untyped), match r {
                Some(p) => Some(p.start_paddr),
                None => None,
            }),
            r matches Some(p) ==> p.wf() && p.data@ == zeros(BASE_PAGE_LENGTH as nat),
    {
        let paddr = match allocate_page(untyped) {
            Some(a) => a,
            None => return None,
        };
        let mut data: Vec<u8> = Vec::new();
        let mut i: usize = 0;
        while i < BASE_PAGE_LENGTH
            invariant
                i <= BASE_PAGE_LENGTH,
                data@ == zeros(i as nat),
            decreases BASE_PAGE_LENGTH - i,
        {
            data.push(0u8);
            i += 1;
            assert(data@ =~= zeros(i as nat));
        }
        Some(PageHalf { start_paddr: paddr, data })
    }

    pub fn length() -> (r: usize)
        ensures
            r == BASE_PAGE_LENGTH,
    {
        BASE_PAGE_LENGTH
    }
}

/// A page shared between the kernel and a task, holding at most one pending
/// system call with its response.
#[derive(Clone, Copy, Debug)]
pub struct TaskBufferHalf {
    pub start_paddr: PAddr,
    pub call: Option<SystemCall>,
}

impl TaskBufferHalf {
    /// Retype a task buffer page out of `untyped`; it holds no call. `None`,
    /// with `untyped` unchanged, when the region has no room.
    pub fn new(untyped: &mut UntypedHalf) -> (r: Option<TaskBufferHalf>)
        requires
            old(untyped).wf(),
        ensures
            page_carved(*old(untyped), *final(untyped), match r {
                Some(p) => Some(p.start_paddr),
                None => None,
            }),
            r matches Some(b) ==> b.call is None,
    {
        match allocate_page(untyped) {
            Some(a) => Some(TaskBufferHalf { start_paddr: a, call: None }),
            None => None,
        }
    }
}

/// A top-level page table: the mappings installed in it, each a virtual
/// address and the page capability mapped there, in order of installation.
#[derive(Debug)]
pub struct TopPageTableHalf {
    pub start_paddr: PAddr,
    pub mappings: Vec<(usize, CapabilityUnion)>,
}

impl TopPageTableHalf {
    /// Retype a top-level page table out of `untyped`, with no mapping.
    /// `None`, with `untyped` unchanged, when the region has no room.
    pub fn new(untyped: &mut UntypedHalf) -> (r: Option<TopPageTableHalf>)
        requires
            old(untyped).wf(),
        ensures
            page_carved(*old(untyped), *final(untyped), match r {
                Some(p) => Some(p.start_paddr),
                None => None,
            }),
            r matches Some(t) ==> t.mappings@.len() == 0,
    {
        match allocate_page(untyped) {
            Some(a) => Some(TopPageTableHalf { start_paddr: a, mappings: Vec::new() }),
            None => None,
        }
    }

    /// Map `page` at `vaddr`.
    pub fn map(&mut self, vaddr: usize, page: CapabilityUnion)
        ensures
            final(self).start_paddr == old(self).start_paddr,
            final(self).mappings@ == old(self).mappings@.push((vaddr, page)),
    {
        self.mappings.push((vaddr, page));
    }
}

} // verus!
