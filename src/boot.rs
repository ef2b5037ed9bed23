//! Booting: the root pool and untyped regions, and the first user program's
//! address space.
use vstd::prelude::*;
use crate::cap::{install_all, install_free, lemma_install_all_append, lemma_install_all_prefix, CAPABILITY_POOL_ALIGN, CAPABILITY_POOL_SIZE, CapKind, CapabilityPoolCapability, CapabilityUnion, POOL_SLOTS};
use crate::kernel::{carved, Kernel};
use crate::task::{next_status, TaskEvent, TaskHalf, TaskStatus, TASK_ALIGN, TASK_SIZE};
use crate::channel::{CHANNEL_ALIGN, CHANNEL_SIZE};
use crate::page::{zeros, BASE_PAGE_LENGTH};
use crate::untyped::{aligned_start, UntypedHalf};

verus! {

/// The root pool's slots after booting with `n` free regions: itself at
/// slot 0, then the regions' untyped capabilities in order while slots last.
pub open spec fn boot_slots(n: int) -> Seq<CapabilityUnion> {
    Seq::new(POOL_SLOTS as nat, |j: int|
        if j == 0 {
            CapabilityUnion::CapabilityPool(0)
        } else if j - 1 < n {
            CapabilityUnion::UntypedMemory((j - 1) as usize)
        } else {
            CapabilityUnion::Empty
        })
}

/// Whether `t` indexes a region of greatest length, the first such.
pub open spec fn is_largest(regions: Seq<(usize, usize)>, t: int) -> bool {
    &&& 0 <= t < regions.len()
    &&& forall|i: int| 0 <= i < regions.len() ==> (#[trigger] regions[i]).1 <= regions[t].1
    &&& forall|i: int| 0 <= i < t ==> (#[trigger] regions[i]).1 < regions[t].1
}

/// Program header type of a loadable segment.
pub const PT_LOAD: u32 = 1;

/// A program header of the first user program's ELF image.
#[derive(Clone, Copy, Debug, PartialEq, Eq, Structural)]
pub struct Segment {
    pub progtype: u32,
    pub vaddr: usize,
    pub offset: usize,
    pub filesz: usize,
    pub memsz: usize,
}

/// Number of pages that loading `seg` maps: one at each page step from its
/// address up to and including its end address.
pub open spec fn segment_pages(seg: Segment) -> int {
    seg.memsz as int / BASE_PAGE_LENGTH as int + 1
}

/// The bytes of the `j`th page of `seg`: the image's bytes, then zeros.
pub open spec fn segment_page(image: Seq<u8>, seg: Segment, j: int) -> Seq<u8> {
    Seq::new(BASE_PAGE_LENGTH as nat, |y: int|
        if j * BASE_PAGE_LENGTH + y < seg.memsz {
            image[seg.offset + j * BASE_PAGE_LENGTH + y]
        } else {
            0u8
        })
}

/// Where the first user program's stack starts.
pub const RINIT_STACK_VADDR: usize = 0x80000000;

/// Where the stack for a child of the first user program starts.
pub const RINIT_CHILD_STACK_VADDR: usize = 0x70000000;

/// Pages in each of those stacks.
pub const RINIT_STACK_SIZE: usize = 4;

/// Where the first user program's buffer page is mapped.
pub const RINIT_BUFFER_VADDR: usize = 0x90001000;

/// Where the buffer page for a child of the first user program is mapped.
pub const RINIT_CHILD_BUFFER_VADDR: usize = 0x90003000;

/// Root pool slot of the child's buffer page.
pub const CHILD_BUFFER_SLOT: usize = 250;

/// Root pool slot of the keyboard channel.
pub const KEYBOARD_CHANNEL_SLOT: usize = 254;

/// Root pool slot of the general-purpose channel.
pub const UTILITY_CHANNEL_SLOT: usize = 255;

/// Whether every loadable segment of `segs` is mapped as it is stored, lies
/// inside an image of `image_len` bytes, and ends a page short of the top of
/// the address space.
pub open spec fn segments_ok(image_len: int, segs: Seq<Segment>) -> bool {
    forall|k: int| 0 <= k < segs.len() && (#[trigger] segs[k]).progtype == PT_LOAD ==> {
        &&& segs[k].filesz == segs[k].memsz
        &&& segs[k].offset + segs[k].memsz <= image_len
        &&& segs[k].vaddr + segs[k].memsz + BASE_PAGE_LENGTH <= usize::MAX
    }
}

/// The first user program's address space, as booting sets it up: handles
/// of its top-level table and buffer page, its entry point and the top of
/// its stack.
#[derive(Clone, Copy, Debug, PartialEq, Eq, Structural)]
pub struct RinitPaging {
    pub table: usize,
    pub buffer: usize,
    pub entry: usize,
    pub stack: usize,
}

/// Capabilities to the `n` pages from handle `n0` on, in order.
pub open spec fn page_caps(n0: int, n: int) -> Seq<CapabilityUnion> {
    Seq::new(n as nat, |i: int| CapabilityUnion::RawPage((n0 + i) as usize))
}

/// `new` is `old` with `n` pages carved one after another out of region
/// `untyped`, from its first page boundary on, appended to the pages, and
/// each installed in turn in the first free slot of pool `pool`.
pub open spec fn pages_carved(old: Kernel, new: Kernel, untyped: usize, pool: usize, n: int) -> bool {
    let n0 = old.pages@.len() as int;
    let a = aligned_start(old.untypeds@[untyped as int].watermark as int, BASE_PAGE_LENGTH as int);
    &&& new.pages@.len() == n0 + n
    &&& forall|i: int| 0 <= i < n ==> (#[trigger] new.pages@[n0 + i]).start_paddr == a + i * BASE_PAGE_LENGTH
    &&& (n > 0 ==> new.untypeds@[untyped as int].watermark == a + n * BASE_PAGE_LENGTH)
    &&& new.cpools@[pool as int].object.slots@ == install_all(old.cpools@[pool as int].object.slots@, page_caps(n0, n))
}

/// Pages that loading the loadable segments of `segs` maps.
pub open spec fn load_pages(segs: Seq<Segment>) -> int
    decreases segs.len(),
{
    if segs.len() == 0 {
        0
    } else {
        load_pages(segs.drop_last()) + if segs.last().progtype == PT_LOAD { segment_pages(segs.last()) } else { 0 }
    }
}

/// Pages that building the first user program's address space carves: the
/// top-level table, the segments' pages, two stacks and two buffer pages.
pub open spec fn rinit_pages(segs: Seq<Segment>) -> int {
    1 + load_pages(segs) + 2 * RINIT_STACK_SIZE + 2
}

/// The capabilities that building the first user program's address space
/// installs in free pool slots, in order: table `t`, the `n` pages from
/// handle `n0` on, and buffer pages `b` and `b + 1`.
pub open spec fn rinit_caps(t: int, n0: int, n: int, b: int) -> Seq<CapabilityUnion> {
    seq![CapabilityUnion::TopPageTable(t as usize)] + page_caps(n0, n) + seq![
        CapabilityUnion::TaskBufferPage(b as usize),
        CapabilityUnion::TaskBufferPage((b + 1) as usize),
    ]
}

/// In `k`, loadable segment `i` of `segs` is in the pages from handle
/// `n0 + load_pages(segs.take(i))` on, filled from `image`, and mapped from
/// position `m0 + load_pages(segs.take(i))` on of table `t`'s mappings.
pub open spec fn segment_loaded(k: Kernel, t: int, image: Seq<u8>, segs: Seq<Segment>, n0: int, m0: int, i: int) -> bool {
    segs[i].progtype == PT_LOAD ==> forall|j: int| 0 <= j < segment_pages(segs[i]) ==> {
        &&& (#[trigger] k.pages@[n0 + load_pages(segs.take(i)) + j]).data@ == segment_page(image, segs[i], j)
        &&& k.tables@[t].mappings@[m0 + load_pages(segs.take(i)) + j] == (
            (segs[i].vaddr + j * BASE_PAGE_LENGTH) as usize,
            CapabilityUnion::RawPage((n0 + load_pages(segs.take(i)) + j) as usize),
        )
    }
}

/// A page-aligned address stays where it is when aligned to a page.
pub proof fn lemma_page_aligned(a: int, c: int)
    requires
        a % BASE_PAGE_LENGTH as int == 0,
        c >= 0,
    ensures
        (a + c * BASE_PAGE_LENGTH) % BASE_PAGE_LENGTH as int == 0,
        aligned_start(a + c * BASE_PAGE_LENGTH, BASE_PAGE_LENGTH as int) == a + c * BASE_PAGE_LENGTH,
{
    assert((a + c * BASE_PAGE_LENGTH) % BASE_PAGE_LENGTH as int == 0) by (nonlinear_arith)
        requires a % BASE_PAGE_LENGTH as int == 0;
}

/// Adding one segment adds its pages, if it is loadable.
pub proof fn lemma_load_pages_step(segs: Seq<Segment>, i: int)
    requires
        0 <= i < segs.len(),
    ensures
        load_pages(segs.take(i + 1)) == load_pages(segs.take(i))
            + if segs[i].progtype == PT_LOAD { segment_pages(segs[i]) } else { 0 },
{
    assert(segs.take(i + 1).drop_last() =~= segs.take(i));
    assert(segs.take(i + 1).last() == segs[i]);
}

/// The pages of a prefix of the segments are at most those of all.
pub proof fn lemma_load_pages_prefix(segs: Seq<Segment>, i: int)
    requires
        0 <= i <= segs.len(),
    ensures
        0 <= load_pages(segs.take(i)) <= load_pages(segs),
    decreases segs.len() - i,
{
    if i == segs.len() {
        assert(segs.take(i) =~= segs);
        lemma_load_pages_nonneg(segs);
    } else {
        lemma_load_pages_step(segs, i);
        lemma_load_pages_prefix(segs, i + 1);
        lemma_load_pages_nonneg(segs.take(i));
    }
}

pub proof fn lemma_load_pages_nonneg(segs: Seq<Segment>)
    ensures
        load_pages(segs) >= 0,
    decreases segs.len(),
{
    if segs.len() > 0 {
        lemma_load_pages_nonneg(segs.drop_last());
    }
}

/// Region `t` of `regions` as `bootstrap` leaves it: the first one with the
/// root pool carved out of it.
pub open spec fn booted_region(regions: Seq<(usize, usize)>, t: int) -> UntypedHalf {
    if t == 0 {
        carved(UntypedHalf::bootstrap_spec(regions[0].0, regions[0].1), CapKind::CPool)
    } else {
        UntypedHalf::bootstrap_spec(regions[t].0, regions[t].1)
    }
}

/// Whether booting on `regions` with an image of `image_len` bytes and
/// program headers `segs` has all it needs: a region, good segments, room
/// for the root pool in the first region, and room in the largest region
/// for the first user program's pages and one page more for its task and
/// the two channels.
pub open spec fn boot_fits(regions: Seq<(usize, usize)>, image_len: int, segs: Seq<Segment>) -> bool {
    &&& regions.len() > 0
    &&& segments_ok(image_len, segs)
    &&& UntypedHalf::bootstrap_spec(regions[0].0, regions[0].1).fits(CAPABILITY_POOL_SIZE as int, CAPABILITY_POOL_ALIGN as int)
    &&& forall|t: int| #[trigger] is_largest(regions, t)
        ==> Kernel::fits_pages(booted_region(regions, t), rinit_pages(segs) + 1)
}

impl Kernel {
    /// Start the kernel on the free physical memory `regions`, each a start
    /// and a length. The root pool, handle 0, is carved out of the first
    /// region; it holds itself at slot 0 and an untyped capability for each
    /// region. Also returns the handle of the first region of greatest
    /// length. `None` when there is no region or the first has no room for
    /// the pool.
    pub fn bootstrap(regions: &Vec<(usize, usize)>) -> (r: Option<(Kernel, usize)>)
        requires
            forall|i: int| 0 <= i < regions@.len() ==> (#[trigger] regions@[i]).0 + regions@[i].1 <= usize::MAX,
        ensures
            r is None <==> (regions@.len() == 0 || !UntypedHalf::bootstrap_spec(regions@[0].0, regions@[0].1)
                .fits(CAPABILITY_POOL_SIZE as int, CAPABILITY_POOL_ALIGN as int)),
            r matches Some((k, target)) ==> {
                &&& k.wf()
                &&& k.untypeds@.len() == regions@.len()
                &&& k.untypeds@[0] == carved(UntypedHalf::bootstrap_spec(regions@[0].0, regions@[0].1), CapKind::CPool)
                &&& forall|i: int| 1 <= i < regions@.len()
                    ==> #[trigger] k.untypeds@[i] == UntypedHalf::bootstrap_spec(regions@[i].0, regions@[i].1)
                &&& k.cpools@.len() == 1
                &&& k.cpools@[0].object.slots@ == boot_slots(regions@.len() as int)
                &&& k.tasks@.len() == 0 && k.channels@.len() == 0 && k.pages@.len() == 0
                &&& k.buffers@.len() == 0 && k.tables@.len() == 0 && k.keyboard is None
                &&& is_largest(regions@, target as int)
            },
    {
        if regions.len() == 0 {
            return None;
        }
        let (s0, l0) = regions[0];
        let mut u0 = UntypedHalf::bootstrap(s0, l0);
        let root = match CapabilityPoolCapability::from_untyped(&mut u0) {
            Some(p) => p,
            None => return None,
        };
        let mut untypeds: Vec<UntypedHalf> = Vec::new();
        untypeds.push(u0);
        let mut cpools: Vec<CapabilityPoolCapability> = Vec::new();
        cpools.push(root);
        let mut k = Kernel {
            untypeds,
            cpools,
            tasks: Vec::new(),
            channels: Vec::new(),
            pages: Vec::new(),
            buffers: Vec::new(),
            tables: Vec::new(),
            keyboard: None,
        };
        proof {
            assert(k.cpools@[0].object.is_empty());
            assert forall|p: int, s: int| 0 <= p < k.cpools@.len() && 0 <= s < POOL_SLOTS
                implies k.valid_cap(#[trigger] k.cpools@[p].object.slots@[s]) by {
                assert(k.cpools@[0].object.slot(s) is Empty);
            }
        }
        let ghost k0 = k;
        k.downgrade_at(0, CapabilityUnion::CapabilityPool(0), 0);
        let ghost k1 = k;
        let first = k.downgrade_free(0, CapabilityUnion::UntypedMemory(0));
        proof {
            assert(k0.cpools@[0].object.slot(0) is Empty);
            assert(k0.cpools@[0].object.slot(1) is Empty);
            let slots = k1.cpools@[0].object.slots@;
            assert(slots[1] is Empty);
            assert(first == Some(1usize)) by {
                if let Some(x) = first {
                    if x > 1 {
                        assert(!(slots[1] is Empty));
                    }
                }
            }
            assert forall|j: int| 0 <= j < POOL_SLOTS implies k.cpools@[0].object.slots@[j] == boot_slots(1)[j] by {
                if j >= 2 {
                    assert(k0.cpools@[0].object.slot(j) is Empty);
                }
            }
            assert(k.cpools@[0].object.slots@ =~= boot_slots(1));
        }
        let mut target: usize = 0;
        let mut i: usize = 1;
        while i < regions.len()
            invariant
                1 <= i <= regions@.len(),
                forall|j: int| 0 <= j < regions@.len() ==> (#[trigger] regions@[j]).0 + regions@[j].1 <= usize::MAX,
                k.wf(),
                k.untypeds@.len() == i,
                k.untypeds@[0] == carved(UntypedHalf::bootstrap_spec(regions@[0].0, regions@[0].1), CapKind::CPool),
                forall|j: int| 1 <= j < i ==> #[trigger] k.untypeds@[j] == UntypedHalf::bootstrap_spec(regions@[j].0, regions@[j].1),
                k.cpools@.len() == 1,
                k.cpools@[0].object.slots@ == boot_slots(i as int),
                k.tasks@.len() == 0 && k.channels@.len() == 0 && k.pages@.len() == 0,
                k.buffers@.len() == 0 && k.tables@.len() == 0 && k.keyboard is None,
                is_largest(regions@.take(i as int), target as int),
            decreases regions@.len() - i,
        {
            let (si, li) = regions[i];
            let ghost before = k;
            k.untypeds.push(UntypedHalf::bootstrap(si, li));
            proof {
                assert forall|kk: CapKind| #[trigger] k.count(kk) >= before.count(kk) by {}
                Kernel::lemma_wf_grows(before, k);
                let slots = k.cpools@[0].object.slots@;
                assert forall|j: int| 0 <= j < POOL_SLOTS && j <= i implies !(#[trigger] slots[j] is Empty) by {}
            }
            let ghost mid = k;
            let placed = k.downgrade_free(0, CapabilityUnion::UntypedMemory(i));
            proof {
                let slots = mid.cpools@[0].object.slots@;
                if i + 1 < POOL_SLOTS {
                    assert(slots[i + 1] is Empty);
                    assert(placed == Some((i + 1) as usize)) by {
                        if let Some(x) = placed {
                            if x < i + 1 {
                                assert(!(slots[x as int] is Empty));
                            }
                            if x > i + 1 {
                                assert(!(slots[i + 1] is Empty));
                            }
                        }
                    }
                    assert(k.cpools@[0].object.slots@ =~= boot_slots(i as int + 1));
                } else {
                    assert(placed is None) by {
                        if let Some(x) = placed {
                            assert(!(slots[x as int] is Empty));
                        }
                    }
                    assert(k.cpools@[0].object.slots@ =~= boot_slots(i as int + 1));
                }
            }
            if li > regions[target].1 {
                target = i;
            }
            proof {
                let rs = regions@.take(i as int + 1);
                assert(rs[i as int] == regions@[i as int]);
                assert forall|j: int| 0 <= j < rs.len() implies (#[trigger] rs[j]).1 <= rs[target as int].1 by {
                    if j < i {
                        assert(rs[j] == regions@.take(i as int)[j]);
                    }
                }
                assert forall|j: int| 0 <= j < target implies (#[trigger] rs[j]).1 < rs[target as int].1 by {
                    assert(rs[j] == regions@.take(i as int)[j]);
                }
            }
            i += 1;
        }
        proof {
            assert(regions@.take(i as int) =~= regions@);
        }
        Some((k, target))
    }

    /// Retype `size` zeroed pages out of region `untyped`, install each in a
    /// free slot of pool `pool`, and map them one after another from `vaddr`
    /// in table `table`: a stack. `false` when the region runs out of room,
    /// which happens exactly when it has no room for `size` pages.
    pub fn map_rinit_stack(&mut self, vaddr: usize, size: usize, pool: usize, untyped: usize, table: usize) -> (r: bool)
        requires
            old(self).wf(),
            pool < old(self).cpools@.len(),
            untyped < old(self).untypeds@.len(),
            table < old(self).tables@.len(),
            vaddr + size * BASE_PAGE_LENGTH <= usize::MAX,
        ensures
            final(self).wf(),
            Kernel::boot_frame(*old(self), *final(self), untyped, pool, table),
            final(self).tables@.len() == old(self).tables@.len(),
            final(self).buffers == old(self).buffers,
            r == Kernel::fits_pages(old(self).untypeds@[untyped as int], size as int),
            r ==> pages_carved(*old(self), *final(self), untyped, pool, size as int),
            r ==> {
                let n0 = old(self).pages@.len();
                &&& final(self).pages@.len() == n0 + size
                &&& forall|i: int| n0 <= i < n0 + size ==> (#[trigger] final(self).pages@[i]).data@ == zeros(BASE_PAGE_LENGTH as nat)
                &&& final(self).tables@[table as int].mappings@ == old(self).tables@[table as int].mappings@ + Seq::new(
                    size as nat, |i: int| ((vaddr + i * BASE_PAGE_LENGTH) as usize, CapabilityUnion::RawPage((n0 + i) as usize)))
            },
    {
        let ghost o = *old(self);
        let ghost n0 = o.pages@.len();
        let ghost u0 = o.untypeds@[untyped as int];
        let ghost a = aligned_start(u0.watermark as int, BASE_PAGE_LENGTH as int);
        let ghost ms = o.tables@[table as int].mappings@;
        proof {
            assert(a % BASE_PAGE_LENGTH as int == 0 && a >= u0.watermark) by (nonlinear_arith)
                requires a == aligned_start(u0.watermark as int, BASE_PAGE_LENGTH as int);
        }
        let mut i: usize = 0;
        while i < size
            invariant
                o == *old(self),
                u0 == o.untypeds@[untyped as int],
                n0 == o.pages@.len(),
                ms == o.tables@[table as int].mappings@,
                i <= size,
                vaddr + size * BASE_PAGE_LENGTH <= usize::MAX,
                pool < o.cpools@.len(),
                untyped < o.untypeds@.len(),
                table < o.tables@.len(),
                self.wf(),
                self.tables@.len() == o.tables@.len(),
                Kernel::boot_frame(o, *self, untyped, pool, table),
                self.buffers == o.buffers,
                self.pages@.len() == n0 + i,
                pages_carved(o, *self, untyped, pool, i as int),
                forall|j: int| n0 <= j < n0 + i ==> (#[trigger] self.pages@[j]).data@ == zeros(BASE_PAGE_LENGTH as nat),
                self.tables@[table as int].mappings@ == ms + Seq::new(
                    i as nat, |j: int| ((vaddr + j * BASE_PAGE_LENGTH) as usize, CapabilityUnion::RawPage((n0 + j) as usize))),
                self.untypeds@[untyped as int].start_paddr == u0.start_paddr,
                self.untypeds@[untyped as int].length == u0.length,
                a % BASE_PAGE_LENGTH as int == 0,
                a >= u0.watermark,
                a == aligned_start(u0.watermark as int, BASE_PAGE_LENGTH as int),
                i > 0 ==> self.untypeds@[untyped as int].watermark == a + i * BASE_PAGE_LENGTH,
                i == 0 ==> self.untypeds@[untyped as int] == u0,
            decreases size - i,
        {
            let ghost before = *self;
            proof {
                let w = before.untypeds@[untyped as int].watermark as int;
                if i > 0 {
                    assert((a + i * BASE_PAGE_LENGTH) % BASE_PAGE_LENGTH as int == 0) by (nonlinear_arith)
                        requires a % BASE_PAGE_LENGTH as int == 0;
                }
                assert(aligned_start(w, BASE_PAGE_LENGTH as int) == a + i * BASE_PAGE_LENGTH);
            }
            let np = self.pages.len();
            let rc = self.retype(untyped, CapKind::RawPage);
            let c = match rc {
                Some(c) => c,
                None => {
                    proof {
                        assert(Kernel::retyped(before, *self, untyped, CapKind::RawPage, rc));
                        assert(*self == before);
                        assert(a + (i + 1) * BASE_PAGE_LENGTH > u0.end());
                        assert(a + size * BASE_PAGE_LENGTH > u0.end()) by (nonlinear_arith)
                            requires a + (i + 1) * BASE_PAGE_LENGTH > u0.end(), i + 1 <= size;
                    }
                    return false;
                },
            };
            proof {
                assert forall|j: int| 0 <= j < before.pages@.len() implies #[trigger] self.pages@[j] == before.pages@[j] by {
                    assert(self.same_object(before, CapKind::RawPage, j));
                }
                assert(c == CapabilityUnion::RawPage(np));
                assert(self.pages@[n0 + i].data@ == zeros(BASE_PAGE_LENGTH as nat));
            }
            self.downgrade_free(pool, c);
            proof {
                assert(i * BASE_PAGE_LENGTH < size * BASE_PAGE_LENGTH) by (nonlinear_arith)
                    requires i < size;
            }
            self.map(table, vaddr + i * BASE_PAGE_LENGTH, c);
            proof {
                assert(self.tables@[table as int].mappings@ =~= ms + Seq::new(
                    (i + 1) as nat, |j: int| ((vaddr + j * BASE_PAGE_LENGTH) as usize, CapabilityUnion::RawPage((n0 + j) as usize))));
                assert(i + 1 > 0 ==> self.untypeds@[untyped as int].watermark == a + (i + 1) * BASE_PAGE_LENGTH) by (nonlinear_arith)
                    requires self.untypeds@[untyped as int].watermark == a + i * BASE_PAGE_LENGTH + BASE_PAGE_LENGTH;
                assert(Kernel::boot_frame(o, *self, untyped, pool, table)) by {
                    assert(ms.is_prefix_of(self.tables@[table as int].mappings@));
                }
            }
            proof {
                assert(page_caps(n0 as int, i as int + 1).drop_last() =~= page_caps(n0 as int, i as int));
                assert(page_caps(n0 as int, i as int + 1).last() == CapabilityUnion::RawPage(np));
                assert(self.pages@[n0 + i].start_paddr == a + i * BASE_PAGE_LENGTH);
            }
            i += 1;
        }
        proof {
            if size > 0 {
                assert(self.untypeds@[untyped as int].wf());
            }
        }
        true
    }

    /// Copy the `n` bytes of `image` from `start` to the front of page `p`.
    pub fn fill_page(&mut self, p: usize, image: &Vec<u8>, start: usize, n: usize)
        requires
            old(self).wf(),
            p < old(self).pages@.len(),
            n <= BASE_PAGE_LENGTH,
            start + n <= image@.len(),
        ensures
            final(self).wf(),
            final(self).same_except(*old(self), set![CapKind::RawPage]),
            final(self).pages@.len() == old(self).pages@.len(),
            forall|q: int| 0 <= q < old(self).pages@.len() && q != p ==> #[trigger] final(self).pages@[q] == old(self).pages@[q],
            final(self).pages@[p as int].start_paddr == old(self).pages@[p as int].start_paddr,
            final(self).pages@[p as int].data@ == Seq::new(BASE_PAGE_LENGTH as nat, |y: int|
                if y < n { image@[start + y] } else { old(self).pages@[p as int].data@[y] }),
    {
        let ghost o = *old(self);
        let image_len = image.len();
        let mut x: usize = 0;
        while x < n
            invariant
                o == *old(self),
                image@.len() == image_len,
                x <= n,
                n <= BASE_PAGE_LENGTH,
                start + n <= image@.len(),
                p < o.pages@.len(),
                o.wf(),
                self.same_except(o, set![CapKind::RawPage]),
                self.pages@.len() == o.pages@.len(),
                forall|q: int| 0 <= q < o.pages@.len() && q != p ==> #[trigger] self.pages@[q] == o.pages@[q],
                self.pages@[p as int].start_paddr == o.pages@[p as int].start_paddr,
                self.pages@[p as int].data@ == Seq::new(BASE_PAGE_LENGTH as nat, |y: int|
                    if y < x { image@[start + y] } else { o.pages@[p as int].data@[y] }),
            decreases n - x,
        {
            let b = image[start + x];
            proof { assert(o.pages@[p as int].wf()); }
            self.pages[p].data.set(x, b);
            proof {
                assert(self.pages@[p as int].data@ =~= Seq::new(BASE_PAGE_LENGTH as nat, |y: int|
                    if y < x + 1 { image@[start + y] } else { o.pages@[p as int].data@[y] }));
            }
            x += 1;
        }
        proof {
            assert(self.pages@[p as int].wf());
            assert forall|k: CapKind| #[trigger] self.count(k) >= o.count(k) by {}
            Kernel::lemma_wf_grows(o, *self);
        }
    }

    /// Retype a zeroed task buffer page out of region `untyped`, install it in
    /// a free slot of pool `pool` and map it at `vaddr` in table `table`.
    /// Returns the buffer's handle; `None` when the region has no room.
    pub fn map_rinit_buffer(&mut self, vaddr: usize, pool: usize, untyped: usize, table: usize) -> (r: Option<usize>)
        requires
            old(self).wf(),
            pool < old(self).cpools@.len(),
            untyped < old(self).untypeds@.len(),
            table < old(self).tables@.len(),
        ensures
            final(self).wf(),
            Kernel::boot_frame(*old(self), *final(self), untyped, pool, table),
            final(self).tables@.len() == old(self).tables@.len(),
            final(self).pages == old(self).pages,
            r is Some <==> old(self).untypeds@[untyped as int].fits(BASE_PAGE_LENGTH as int, BASE_PAGE_LENGTH as int),
            r is None ==> *final(self) == *old(self),
            r matches Some(b) ==> {
                &&& b == old(self).buffers@.len()
                &&& final(self).buffers@.len() == b + 1
                &&& final(self).buffers@[b as int].call is None
                &&& final(self).tables@.len() == old(self).tables@.len()
                &&& final(self).tables@[table as int].mappings@
                    == old(self).tables@[table as int].mappings@.push((vaddr, CapabilityUnion::TaskBufferPage(b)))
                &&& final(self).buffers@[b as int].start_paddr
                    == aligned_start(old(self).untypeds@[untyped as int].watermark as int, BASE_PAGE_LENGTH as int)
                &&& final(self).untypeds@[untyped as int].watermark == final(self).buffers@[b as int].start_paddr + BASE_PAGE_LENGTH
                &&& final(self).cpools@[pool as int].object.slots@
                    == install_free(old(self).cpools@[pool as int].object.slots@, CapabilityUnion::TaskBufferPage(b))
            },
    {
        let nb = self.buffers.len();
        let rc = self.retype(untyped, CapKind::TaskBufferPage);
        let c = match rc {
            Some(c) => c,
            None => return None,
        };
        proof {
            assert(c == CapabilityUnion::TaskBufferPage(nb));
            assert forall|j: int| 0 <= j < old(self).buffers@.len() implies #[trigger] self.buffers@[j] == old(self).buffers@[j] by {
                assert(self.same_object(*old(self), CapKind::TaskBufferPage, j));
            }
        }
        self.downgrade_free(pool, c);
        self.map(table, vaddr, c);
        proof {
            let ms = old(self).tables@[table as int].mappings@;
            assert(ms.is_prefix_of(self.tables@[table as int].mappings@));
        }
        Some(nb)
    }

    /// Map loadable segment `seg` of `image` in table `table`: one zeroed
    /// page out of region `untyped` at each page step from the segment's
    /// address up to its end address, each installed in a free slot of pool
    /// `pool`, filled with the segment's bytes. `false` when the region runs
    /// out of room, which happens exactly when it has no room for those pages.
    pub fn load_segment(&mut self, image: &Vec<u8>, seg: Segment, pool: usize, untyped: usize, table: usize) -> (r: bool)
        requires
            old(self).wf(),
            pool < old(self).cpools@.len(),
            untyped < old(self).untypeds@.len(),
            table < old(self).tables@.len(),
            seg.offset + seg.memsz <= image@.len(),
            seg.vaddr + seg.memsz + BASE_PAGE_LENGTH <= usize::MAX,
        ensures
            final(self).wf(),
            Kernel::boot_frame(*old(self), *final(self), untyped, pool, table),
            final(self).tables@.len() == old(self).tables@.len(),
            final(self).buffers == old(self).buffers,
            r == Kernel::fits_pages(old(self).untypeds@[untyped as int], segment_pages(seg)),
            r ==> pages_carved(*old(self), *final(self), untyped, pool, segment_pages(seg)),
            r ==> {
                let n0 = old(self).pages@.len();
                let np = segment_pages(seg);
                &&& final(self).pages@.len() == n0 + np
                &&& forall|j: int| 0 <= j < np ==> (#[trigger] final(self).pages@[n0 + j]).data@ == segment_page(image@, seg, j)
                &&& final(self).tables@[table as int].mappings@ == old(self).tables@[table as int].mappings@ + Seq::new(
                    np as nat, |j: int| ((seg.vaddr + j * BASE_PAGE_LENGTH) as usize, CapabilityUnion::RawPage((n0 + j) as usize)))
            },
    {
        let ghost o = *old(self);
        let ghost n0 = o.pages@.len();
        let ghost u0 = o.untypeds@[untyped as int];
        let ghost a = aligned_start(u0.watermark as int, BASE_PAGE_LENGTH as int);
        let ghost ms = o.tables@[table as int].mappings@;
        let np: usize = seg.memsz / BASE_PAGE_LENGTH + 1;
        let image_len = image.len();
        proof {
            assert(a % BASE_PAGE_LENGTH as int == 0 && a >= u0.watermark) by (nonlinear_arith)
                requires a == aligned_start(u0.watermark as int, BASE_PAGE_LENGTH as int);
        }
        let mut j: usize = 0;
        while j < np
            invariant
                o == *old(self),
                u0 == o.untypeds@[untyped as int],
                n0 == o.pages@.len(),
                ms == o.tables@[table as int].mappings@,
                np == segment_pages(seg),
                image@.len() == image_len,
                j <= np,
                seg.offset + seg.memsz <= image@.len(),
                seg.vaddr + seg.memsz + BASE_PAGE_LENGTH <= usize::MAX,
                pool < o.cpools@.len(),
                untyped < o.untypeds@.len(),
                table < o.tables@.len(),
                self.wf(),
                self.tables@.len() == o.tables@.len(),
                Kernel::boot_frame(o, *self, untyped, pool, table),
                self.buffers == o.buffers,
                self.pages@.len() == n0 + j,
                pages_carved(o, *self, untyped, pool, j as int),
                forall|k: int| 0 <= k < j ==> (#[trigger] self.pages@[n0 + k]).data@ == segment_page(image@, seg, k),
                self.tables@[table as int].mappings@ == ms + Seq::new(
                    j as nat, |k: int| ((seg.vaddr + k * BASE_PAGE_LENGTH) as usize, CapabilityUnion::RawPage((n0 + k) as usize))),
                self.untypeds@[untyped as int].start_paddr == u0.start_paddr,
                self.untypeds@[untyped as int].length == u0.length,
                a % BASE_PAGE_LENGTH as int == 0,
                a >= u0.watermark,
                a == aligned_start(u0.watermark as int, BASE_PAGE_LENGTH as int),
                j > 0 ==> self.untypeds@[untyped as int].watermark == a + j * BASE_PAGE_LENGTH,
                j == 0 ==> self.untypeds@[untyped as int] == u0,
            decreases np - j,
        {
            let ghost before = *self;
            proof {
                let w = before.untypeds@[untyped as int].watermark as int;
                if j > 0 {
                    assert((a + j * BASE_PAGE_LENGTH) % BASE_PAGE_LENGTH as int == 0) by (nonlinear_arith)
                        requires a % BASE_PAGE_LENGTH as int == 0;
                }
                assert(aligned_start(w, BASE_PAGE_LENGTH as int) == a + j * BASE_PAGE_LENGTH);
                assert(j * BASE_PAGE_LENGTH <= seg.memsz) by (nonlinear_arith)
                    requires j < np, np == seg.memsz / BASE_PAGE_LENGTH + 1;
            }
            let off: usize = j * BASE_PAGE_LENGTH;
            let p = self.pages.len();
            let rc = self.retype(untyped, CapKind::RawPage);
            let c = match rc {
                Some(c) => c,
                None => {
                    proof {
                        assert(Kernel::retyped(before, *self, untyped, CapKind::RawPage, rc));
                        assert(a + (j + 1) * BASE_PAGE_LENGTH > u0.end());
                        assert(a + np * BASE_PAGE_LENGTH > u0.end()) by (nonlinear_arith)
                            requires a + (j + 1) * BASE_PAGE_LENGTH > u0.end(), j + 1 <= np;
                    }
                    return false;
                },
            };
            proof {
                assert forall|k: int| 0 <= k < before.pages@.len() implies #[trigger] self.pages@[k] == before.pages@[k] by {
                    assert(self.same_object(before, CapKind::RawPage, k));
                }
                assert(c == CapabilityUnion::RawPage(p));
            }
            self.downgrade_free(pool, c);
            self.map(table, seg.vaddr + off, c);
            let rest = seg.memsz - off;
            let n = if rest < BASE_PAGE_LENGTH { rest } else { BASE_PAGE_LENGTH };
            let ghost before_fill = *self;
            self.fill_page(p, image, seg.offset + off, n);
            proof {
                assert(before_fill.pages@[p as int].data@ == zeros(BASE_PAGE_LENGTH as nat));
                assert(self.pages@[p as int].data@ =~= segment_page(image@, seg, j as int));
                assert forall|k: int| 0 <= k < j + 1 implies (#[trigger] self.pages@[n0 + k]).data@ == segment_page(image@, seg, k) by {
                    if k < j {
                        assert(self.pages@[n0 + k] == before.pages@[n0 + k]);
                    }
                }
                assert(self.tables@[table as int].mappings@ =~= ms + Seq::new(
                    (j + 1) as nat, |k: int| ((seg.vaddr + k * BASE_PAGE_LENGTH) as usize, CapabilityUnion::RawPage((n0 + k) as usize))));
                assert(self.untypeds@[untyped as int].watermark == a + (j + 1) * BASE_PAGE_LENGTH) by (nonlinear_arith)
                    requires self.untypeds@[untyped as int].watermark == a + j * BASE_PAGE_LENGTH + BASE_PAGE_LENGTH;
                assert(ms.is_prefix_of(self.tables@[table as int].mappings@));
            }
            proof {
                assert(page_caps(n0 as int, j as int + 1).drop_last() =~= page_caps(n0 as int, j as int));
                assert(page_caps(n0 as int, j as int + 1).last() == CapabilityUnion::RawPage(p));
                assert(self.pages@[n0 + j].start_paddr == a + j * BASE_PAGE_LENGTH);
            }
            j += 1;
        }
        proof {
            assert(self.untypeds@[untyped as int].wf());
        }
        true
    }

    /// Load every loadable segment of `segments` in turn, as
    /// `load_segment` does, into table `table`. `false` when the region runs
    /// out of room, which happens exactly when it has no room for all their
    /// pages.
    pub fn load_segments(&mut self, image: &Vec<u8>, segments: &Vec<Segment>, pool: usize, untyped: usize, table: usize) -> (r: bool)
        requires
            old(self).wf(),
            pool < old(self).cpools@.len(),
            untyped < old(self).untypeds@.len(),
            table < old(self).tables@.len(),
            segments_ok(image@.len() as int, segments@),
        ensures
            final(self).wf(),
            Kernel::boot_frame(*old(self), *final(self), untyped, pool, table),
            final(self).tables@.len() == old(self).tables@.len(),
            final(self).buffers == old(self).buffers,
            r == Kernel::fits_pages(old(self).untypeds@[untyped as int], load_pages(segments@)),
            r ==> {
                let n0 = old(self).pages@.len() as int;
                let m0 = old(self).tables@[table as int].mappings@.len() as int;
                &&& pages_carved(*old(self), *final(self), untyped, pool, load_pages(segments@))
                &&& load_pages(segments@) == 0 ==> final(self).untypeds@[untyped as int] == old(self).untypeds@[untyped as int]
                &&& final(self).tables@[table as int].mappings@.len() == m0 + load_pages(segments@)
                &&& forall|i: int| 0 <= i < segments@.len()
                    ==> #[trigger] segment_loaded(*final(self), table as int, image@, segments@, n0, m0, i)
            },
    {
        let ghost o = *old(self);
        let ghost u0 = o.untypeds@[untyped as int];
        let ghost a = aligned_start(u0.watermark as int, BASE_PAGE_LENGTH as int);
        let ghost n0 = o.pages@.len() as int;
        let ghost m0 = o.tables@[table as int].mappings@.len() as int;
        let ghost slots0 = o.cpools@[pool as int].object.slots@;
        let ghost segs = segments@;
        proof {
            assert(a % BASE_PAGE_LENGTH as int == 0 && a >= u0.watermark) by (nonlinear_arith)
                requires a == aligned_start(u0.watermark as int, BASE_PAGE_LENGTH as int);
            lemma_load_pages_nonneg(segs);
            assert(segs.take(0) =~= Seq::<Segment>::empty());
            assert(page_caps(n0, 0) =~= Seq::<CapabilityUnion>::empty());
        }
        let mut i: usize = 0;
        while i < segments.len()
            invariant
                o == *old(self),
                u0 == o.untypeds@[untyped as int],
                a == aligned_start(u0.watermark as int, BASE_PAGE_LENGTH as int),
                a % BASE_PAGE_LENGTH as int == 0,
                a >= u0.watermark,
                n0 == o.pages@.len(),
                m0 == o.tables@[table as int].mappings@.len(),
                slots0 == o.cpools@[pool as int].object.slots@,
                segs == segments@,
                segments_ok(image@.len() as int, segs),
                i <= segs.len(),
                pool < o.cpools@.len(),
                untyped < o.untypeds@.len(),
                table < o.tables@.len(),
                self.wf(),
                self.tables@.len() == o.tables@.len(),
                Kernel::boot_frame(o, *self, untyped, pool, table),
                self.buffers == o.buffers,
                pages_carved(o, *self, untyped, pool, load_pages(segs.take(i as int))),
                load_pages(segs.take(i as int)) == 0 ==> self.untypeds@[untyped as int] == u0,
                self.tables@[table as int].mappings@.len() == m0 + load_pages(segs.take(i as int)),
                forall|k: int| 0 <= k < i ==> #[trigger] segment_loaded(*self, table as int, image@, segs, n0, m0, k),
            decreases segs.len() - i,
        {
            let seg = segments[i];
            let ghost lp = load_pages(segs.take(i as int));
            proof {
                lemma_load_pages_step(segs, i as int);
                lemma_load_pages_prefix(segs, i as int);
                lemma_load_pages_prefix(segs, i as int + 1);
                lemma_page_aligned(a, lp);
            }
            if seg.progtype == PT_LOAD {
                let ghost before = *self;
                let ghost np = segment_pages(seg);
                if !self.load_segment(image, seg, pool, untyped, table) {
                    proof {
                        assert(a + (lp + np) * BASE_PAGE_LENGTH > u0.end());
                    }
                    return false;
                }
                proof {
                    let ms0 = before.tables@[table as int].mappings@;
                    assert(ms0.is_prefix_of(self.tables@[table as int].mappings@));
                    lemma_install_all_append(slots0, page_caps(n0, lp), page_caps(n0 + lp, np));
                    assert(page_caps(n0, lp) + page_caps(n0 + lp, np) =~= page_caps(n0, lp + np));
                    assert forall|q: int| 0 <= q < lp + np
                        implies (#[trigger] self.pages@[n0 + q]).start_paddr == a + q * BASE_PAGE_LENGTH by {
                        if q < lp {
                            assert(self.pages@[n0 + q] == before.pages@[n0 + q]);
                        } else {
                            assert(self.pages@[(n0 + lp) + (q - lp)].start_paddr
                                == a + lp * BASE_PAGE_LENGTH + (q - lp) * BASE_PAGE_LENGTH);
                        }
                    }
                    assert forall|k: int| 0 <= k < i + 1 implies #[trigger] segment_loaded(*self, table as int, image@, segs, n0, m0, k) by {
                        if k < i {
                            assert(segment_loaded(before, table as int, image@, segs, n0, m0, k));
                            if segs[k].progtype == PT_LOAD {
                                lemma_load_pages_step(segs, k);
                                lemma_load_pages_prefix(segs.take(i as int), k + 1);
                                assert(segs.take(i as int).take(k + 1) =~= segs.take(k + 1));
                                lemma_load_pages_nonneg(segs.take(k));
                                assert forall|j: int| 0 <= j < segment_pages(segs[k]) implies {
                                    &&& (#[trigger] self.pages@[n0 + load_pages(segs.take(k)) + j]).data@ == segment_page(image@, segs[k], j)
                                    &&& self.tables@[table as int].mappings@[m0 + load_pages(segs.take(k)) + j] == (
                                        (segs[k].vaddr + j * BASE_PAGE_LENGTH) as usize,
                                        CapabilityUnion::RawPage((n0 + load_pages(segs.take(k)) + j) as usize))
                                } by {
                                    let x = n0 + load_pages(segs.take(k)) + j;
                                    assert(x < before.pages@.len());
                                    assert(before.pages@[x].data@ == segment_page(image@, segs[k], j));
                                    assert(self.pages@[x] == before.pages@[x]);
                                    assert(self.tables@[table as int].mappings@[m0 + load_pages(segs.take(k)) + j]
                                        == ms0[m0 + load_pages(segs.take(k)) + j]);
                                }
                            }
                        } else {
                            assert(segs[k] == seg);
                            assert forall|j: int| 0 <= j < segment_pages(segs[k]) implies {
                                &&& (#[trigger] self.pages@[n0 + load_pages(segs.take(k)) + j]).data@ == segment_page(image@, segs[k], j)
                                &&& self.tables@[table as int].mappings@[m0 + load_pages(segs.take(k)) + j] == (
                                    (segs[k].vaddr + j * BASE_PAGE_LENGTH) as usize,
                                    CapabilityUnion::RawPage((n0 + load_pages(segs.take(k)) + j) as usize))
                            } by {
                                assert(self.pages@[(n0 + lp) + j].data@ == segment_page(image@, seg, j));
                            }
                        }
                    }
                }
            }
            i += 1;
        }
        proof {
            assert(segs.take(i as int) =~= segs);
        }
        true
    }

    /// Build the first user program's address space out of region `untyped`:
    /// a top-level table, the loadable segments of `image`, a stack and a
    /// buffer page for the program and for a child of it, each page carved
    /// in turn from the region's first page boundary on. Capabilities to all
    /// of it go to the first free slots of pool `pool`; the child's buffer
    /// page also goes to slot `CHILD_BUFFER_SLOT` if that is still free.
    /// `None` on a loadable segment not mapped as stored or outside the
    /// image, or when the region has no room for all the pages.
    pub fn bootstrap_rinit_paging(&mut self, image: &Vec<u8>, entry: usize, segments: &Vec<Segment>, pool: usize, untyped: usize)
        -> (r: Option<RinitPaging>)
        requires
            old(self).wf(),
            pool < old(self).cpools@.len(),
            untyped < old(self).untypeds@.len(),
        ensures
            final(self).wf(),
            r is Some <==> (segments_ok(image@.len() as int, segments@)
                && Kernel::fits_pages(old(self).untypeds@[untyped as int], rinit_pages(segments@))),
            r matches Some(rp) ==> {
                let n0 = old(self).pages@.len() as int;
                let a = aligned_start(old(self).untypeds@[untyped as int].watermark as int, BASE_PAGE_LENGTH as int);
                let l = load_pages(segments@);
                let f = install_all(old(self).cpools@[pool as int].object.slots@,
                    rinit_caps(rp.table as int, n0, l + 2 * RINIT_STACK_SIZE, rp.buffer as int));
                &&& Kernel::boot_frame(*old(self), *final(self), untyped, pool, rp.table)
                &&& rp.table == old(self).tables@.len()
                &&& final(self).tables@.len() == rp.table + 1
                &&& rp.buffer == old(self).buffers@.len()
                &&& final(self).buffers@.len() == rp.buffer + 2
                &&& final(self).buffers@[rp.buffer as int].call is None
                &&& final(self).buffers@[rp.buffer + 1].call is None
                &&& rp.entry == entry
                &&& rp.stack == RINIT_STACK_VADDR + RINIT_STACK_SIZE * BASE_PAGE_LENGTH - 4
                &&& forall|i: int| 0 <= i < segments@.len()
                    ==> #[trigger] segment_loaded(*final(self), rp.table as int, image@, segments@, n0, 0, i)
                &&& final(self).pages@.len() == n0 + l + 2 * RINIT_STACK_SIZE
                &&& final(self).tables@[rp.table as int].start_paddr == a
                &&& forall|q: int| 0 <= q < l + 2 * RINIT_STACK_SIZE
                    ==> (#[trigger] final(self).pages@[n0 + q]).start_paddr == a + (1 + q) * BASE_PAGE_LENGTH
                &&& final(self).buffers@[rp.buffer as int].start_paddr == a + (1 + l + 2 * RINIT_STACK_SIZE) * BASE_PAGE_LENGTH
                &&& final(self).buffers@[rp.buffer + 1].start_paddr == a + (2 + l + 2 * RINIT_STACK_SIZE) * BASE_PAGE_LENGTH
                &&& final(self).untypeds@[untyped as int].watermark == a + rinit_pages(segments@) * BASE_PAGE_LENGTH
                &&& final(self).cpools@[pool as int].object.slots@ == if f[CHILD_BUFFER_SLOT as int] is Empty {
                    f.update(CHILD_BUFFER_SLOT as int, CapabilityUnion::TaskBufferPage((rp.buffer + 1) as usize))
                } else {
                    f
                }
                &&& {
                    let ms = final(self).tables@[rp.table as int].mappings@;
                    &&& ms.len() == l + 2 * RINIT_STACK_SIZE + 2
                    &&& forall|j: int| 0 <= j < RINIT_STACK_SIZE ==> {
                        &&& #[trigger] ms[l + j] == ((RINIT_STACK_VADDR + j * BASE_PAGE_LENGTH) as usize,
                            CapabilityUnion::RawPage((n0 + l + j) as usize))
                        &&& ms[l + RINIT_STACK_SIZE + j] == ((RINIT_CHILD_STACK_VADDR + j * BASE_PAGE_LENGTH) as usize,
                            CapabilityUnion::RawPage((n0 + l + RINIT_STACK_SIZE + j) as usize))
                    }
                    &&& ms[ms.len() - 2] == (RINIT_BUFFER_VADDR, CapabilityUnion::TaskBufferPage(rp.buffer))
                    &&& ms[ms.len() - 1] == (RINIT_CHILD_BUFFER_VADDR, CapabilityUnion::TaskBufferPage((rp.buffer + 1) as usize))
                }
            },
    {
        let ghost o = *old(self);
        let ghost u0 = o.untypeds@[untyped as int];
        let ghost a = aligned_start(u0.watermark as int, BASE_PAGE_LENGTH as int);
        let ghost n0 = o.pages@.len() as int;
        let ghost slots0 = o.cpools@[pool as int].object.slots@;
        let ghost segs = segments@;
        let ghost total = rinit_pages(segs);
        proof {
            assert(a % BASE_PAGE_LENGTH as int == 0 && a >= u0.watermark) by (nonlinear_arith)
                requires a == aligned_start(u0.watermark as int, BASE_PAGE_LENGTH as int);
            lemma_load_pages_nonneg(segs);
        }
        let t = self.tables.len();
        let b0 = self.buffers.len();
        let tc = match self.retype(untyped, CapKind::TopPageTable) {
            Some(c) => c,
            None => return None,
        };
        proof {
            assert forall|j: int| 0 <= j < o.tables@.len() implies #[trigger] self.tables@[j] == o.tables@[j] by {
                assert(self.same_object(o, CapKind::TopPageTable, j));
            }
            assert forall|j: int| 0 <= j < o.pages@.len() implies #[trigger] self.pages@[j] == o.pages@[j] by {}
        }
        self.downgrade_free(pool, tc);
        proof {
            assert(Kernel::boot_frame(o, *self, untyped, pool, t));
            assert(seq![CapabilityUnion::TopPageTable(t)].drop_last() =~= Seq::<CapabilityUnion>::empty());
            assert(install_all(slots0, Seq::<CapabilityUnion>::empty()) == slots0);
            assert(install_all(slots0, seq![CapabilityUnion::TopPageTable(t)])
                == install_free(slots0, CapabilityUnion::TopPageTable(t)));
        }
        if !self.check_segments(image, segments) {
            return None;
        }
        let ghost s0 = *self;
        proof {
            lemma_page_aligned(a, 1);
        }
        if !self.load_segments(image, segments, pool, untyped, t) {
            return None;
        }
        let ghost l = load_pages(segs);
        let ghost m0 = self.tables@[t as int].mappings@;
        let ghost s1 = *self;
        proof {
            lemma_page_aligned(a, 1 + l);
            assert(s0.untypeds@[untyped as int].watermark == a + BASE_PAGE_LENGTH);
            assert(s0.tables@[t as int].mappings@.len() == 0);
            assert(s0.pages@.len() == n0);
            assert(s1.untypeds@[untyped as int].watermark == a + (1 + l) * BASE_PAGE_LENGTH);
            assert forall|q: int| 0 <= q < l implies (#[trigger] s1.pages@[n0 + q]).start_paddr == a + (1 + q) * BASE_PAGE_LENGTH by {}
            lemma_install_all_append(slots0, seq![CapabilityUnion::TopPageTable(t)], page_caps(n0, l));
        }
        if !self.map_rinit_stack(RINIT_STACK_VADDR, RINIT_STACK_SIZE, pool, untyped, t) {
            return None;
        }
        let ghost s2 = *self;
        proof {
            lemma_page_aligned(a, 1 + l + RINIT_STACK_SIZE);
        }
        if !self.map_rinit_stack(RINIT_CHILD_STACK_VADDR, RINIT_STACK_SIZE, pool, untyped, t) {
            return None;
        }
        let ghost s3 = *self;
        proof {
            lemma_page_aligned(a, 1 + l + 2 * RINIT_STACK_SIZE);
        }
        let buffer = match self.map_rinit_buffer(RINIT_BUFFER_VADDR, pool, untyped, t) {
            Some(b) => b,
            None => return None,
        };
        let ghost s4 = *self;
        proof {
            lemma_page_aligned(a, 2 + l + 2 * RINIT_STACK_SIZE);
        }
        let child = match self.map_rinit_buffer(RINIT_CHILD_BUFFER_VADDR, pool, untyped, t) {
            Some(b) => b,
            None => return None,
        };
        let ghost s5 = *self;
        self.downgrade_at(pool, CapabilityUnion::TaskBufferPage(child), CHILD_BUFFER_SLOT);
        proof {
            let ns = 2 * RINIT_STACK_SIZE as int;
            assert(Kernel::boot_frame(o, *self, untyped, pool, t));
            assert(child == buffer + 1);
            assert(self.tables@.len() == t + 1);
            let ms = self.tables@[t as int].mappings@;
            assert(ms.len() == l + ns + 2);
            assert forall|j: int| 0 <= j < RINIT_STACK_SIZE implies {
                &&& #[trigger] ms[l + j] == ((RINIT_STACK_VADDR + j * BASE_PAGE_LENGTH) as usize,
                    CapabilityUnion::RawPage((n0 + l + j) as usize))
                &&& ms[l + RINIT_STACK_SIZE + j] == ((RINIT_CHILD_STACK_VADDR + j * BASE_PAGE_LENGTH) as usize,
                    CapabilityUnion::RawPage((n0 + l + RINIT_STACK_SIZE + j) as usize))
            } by {
                assert(ms[l + j] == s2.tables@[t as int].mappings@[l + j]);
                assert(ms[l + RINIT_STACK_SIZE + j] == s3.tables@[t as int].mappings@[l + RINIT_STACK_SIZE + j]);
            }
            assert forall|q: int| 0 <= q < l + ns
                implies (#[trigger] self.pages@[n0 + q]).start_paddr == a + (1 + q) * BASE_PAGE_LENGTH by {
                if q < l {
                    assert(self.pages@[n0 + q] == s1.pages@[n0 + q]);
                } else if q < l + RINIT_STACK_SIZE {
                    assert(self.pages@[n0 + q] == s2.pages@[n0 + q]);
                    assert(s2.pages@[(n0 + l) + (q - l)].start_paddr == a + (1 + l) * BASE_PAGE_LENGTH + (q - l) * BASE_PAGE_LENGTH);
                } else {
                    assert(s3.pages@[(n0 + l + RINIT_STACK_SIZE) + (q - l - RINIT_STACK_SIZE)].start_paddr
                        == a + (1 + l + RINIT_STACK_SIZE) * BASE_PAGE_LENGTH + (q - l - RINIT_STACK_SIZE) * BASE_PAGE_LENGTH);
                }
            }
            assert forall|k: int| 0 <= k < segs.len() implies #[trigger] segment_loaded(*self, t as int, image@, segs, n0, 0, k) by {
                assert(segment_loaded(s1, t as int, image@, segs, n0, 0, k));
                if segs[k].progtype == PT_LOAD {
                    lemma_load_pages_step(segs, k);
                    lemma_load_pages_prefix(segs, k + 1);
                    lemma_load_pages_nonneg(segs.take(k));
                    assert forall|j: int| 0 <= j < segment_pages(segs[k]) implies {
                        &&& (#[trigger] self.pages@[n0 + load_pages(segs.take(k)) + j]).data@ == segment_page(image@, segs[k], j)
                        &&& self.tables@[t as int].mappings@[load_pages(segs.take(k)) + j] == (
                            (segs[k].vaddr + j * BASE_PAGE_LENGTH) as usize,
                            CapabilityUnion::RawPage((n0 + load_pages(segs.take(k)) + j) as usize))
                    } by {
                        let x = n0 + load_pages(segs.take(k)) + j;
                        let y = load_pages(segs.take(k)) + j;
                        assert(x < s1.pages@.len());
                        assert(s1.pages@[x].data@ == segment_page(image@, segs[k], j));
                        assert(s2.pages@[x] == s1.pages@[x]);
                        assert(s3.pages@[x] == s2.pages@[x]);
                        assert(s4.pages@[x] == s3.pages@[x]);
                        assert(s5.pages@[x] == s4.pages@[x]);
                        assert(self.pages@[x] == s5.pages@[x]);
                        assert(y < m0.len());
                        assert(s2.tables@[t as int].mappings@[y] == m0[y]);
                        assert(s3.tables@[t as int].mappings@[y] == m0[y]);
                        assert(s4.tables@[t as int].mappings@[y] == m0[y]);
                        assert(s5.tables@[t as int].mappings@[y] == m0[y]);
                        assert(ms[y] == m0[y]);
                    }
                }
            }
            let caps1 = seq![CapabilityUnion::TopPageTable(t)] + page_caps(n0, l);
            assert(s1.cpools@[pool as int].object.slots@ == install_all(slots0, caps1));
            lemma_install_all_append(slots0, caps1, page_caps(n0 + l, RINIT_STACK_SIZE as int));
            let caps2 = caps1 + page_caps(n0 + l, RINIT_STACK_SIZE as int);
            lemma_install_all_append(slots0, caps2, page_caps(n0 + l + RINIT_STACK_SIZE, RINIT_STACK_SIZE as int));
            let caps3 = caps2 + page_caps(n0 + l + RINIT_STACK_SIZE, RINIT_STACK_SIZE as int);
            assert(caps3 =~= seq![CapabilityUnion::TopPageTable(t)] + page_caps(n0, l + ns));
            let caps4 = caps3.push(CapabilityUnion::TaskBufferPage(buffer));
            assert(caps4.drop_last() =~= caps3);
            let caps5 = caps4.push(CapabilityUnion::TaskBufferPage(child));
            assert(caps5.drop_last() =~= caps4);
            assert(caps5 =~= rinit_caps(t as int, n0, l + ns, buffer as int));
            assert(s3.cpools@[pool as int].object.slots@ == install_all(slots0, caps3));
            assert(install_all(slots0, caps4) == install_free(install_all(slots0, caps4.drop_last()), caps4.last()));
            assert(s4.cpools@[pool as int].object.slots@ == install_all(slots0, caps4));
            assert(install_all(slots0, caps5) == install_free(install_all(slots0, caps5.drop_last()), caps5.last()));
            assert(s5.cpools@[pool as int].object.slots@ == install_all(slots0, caps5));
        }
        Some(RinitPaging { table: t, buffer, entry, stack: RINIT_STACK_VADDR + (RINIT_STACK_SIZE * BASE_PAGE_LENGTH - 4) })
    }

    /// Whether every loadable segment of `segments` is mapped as stored and
    /// lies inside `image`.
    pub fn check_segments(&self, image: &Vec<u8>, segments: &Vec<Segment>) -> (r: bool)
        ensures
            r == segments_ok(image@.len() as int, segments@),
    {
        let mut i: usize = 0;
        while i < segments.len()
            invariant
                i <= segments@.len(),
                segments_ok(image@.len() as int, segments@.take(i as int)),
            decreases segments@.len() - i,
        {
            let seg = segments[i];
            proof {
                assert(segments@.take(i as int + 1)[i as int] == seg);
                assert forall|k: int| 0 <= k < i implies #[trigger] segments@.take(i as int + 1)[k] == segments@.take(i as int)[k] by {}
            }
            if seg.progtype == PT_LOAD {
                if seg.filesz != seg.memsz || seg.memsz > image.len() || seg.offset > image.len() - seg.memsz
                    || seg.memsz > usize::MAX - BASE_PAGE_LENGTH || seg.vaddr > usize::MAX - BASE_PAGE_LENGTH - seg.memsz {
                    proof {
                        let k = i as int;
                        assert(segments@[k] == seg);
                    }
                    return false;
                }
            }
            proof {
                let s1 = segments@.take(i as int + 1);
                assert forall|k: int| 0 <= k < s1.len() && (#[trigger] s1[k]).progtype == PT_LOAD implies {
                    &&& s1[k].filesz == s1[k].memsz
                    &&& s1[k].offset + s1[k].memsz <= image@.len()
                    &&& s1[k].vaddr + s1[k].memsz + BASE_PAGE_LENGTH <= usize::MAX
                } by {
                    if k < i {
                        assert(s1[k] == segments@.take(i as int)[k]);
                    }
                }
            }
            i += 1;
        }
        proof {
            assert(segments@.take(i as int) =~= segments@);
        }
        true
    }

    /// Boot the kernel: root pool and untyped regions from the free memory
    /// `regions`, then, out of the first region of greatest length, the
    /// first user program's address space from `image`, its task (active,
    /// entering at `entry`, with the root pool), the keyboard channel at root
    /// slot `KEYBOARD_CHANNEL_SLOT` and a general-purpose channel at
    /// `UTILITY_CHANNEL_SLOT`, each if that slot is free. `None` when there
    /// is no region, a loadable segment is bad, or memory runs out; it
    /// succeeds whenever `boot_fits` holds.
    pub fn boot(regions: &Vec<(usize, usize)>, image: &Vec<u8>, entry: usize, segments: &Vec<Segment>) -> (r: Option<Kernel>)
        requires
            forall|i: int| 0 <= i < regions@.len() ==> (#[trigger] regions@[i]).0 + regions@[i].1 <= usize::MAX,
        ensures
            regions@.len() == 0 || !segments_ok(image@.len() as int, segments@) ==> r is None,
            boot_fits(regions@, image@.len() as int, segments@) ==> r is Some,
            r matches Some(k) ==> {
                let n = regions@.len() as int;
                let slots = k.cpools@[0].object.slots@;
                &&& k.wf()
                &&& k.untypeds@.len() == n
                &&& forall|j: int| 0 <= j < POOL_SLOTS && !(#[trigger] boot_slots(n)[j] is Empty)
                    ==> slots[j] == boot_slots(n)[j]
                &&& k.tasks@.len() == 1
                &&& k.tasks@[0].status == TaskStatus::Active
                &&& k.tasks@[0].instruction_pointer == entry
                &&& k.tasks@[0].stack_pointer == RINIT_STACK_VADDR + RINIT_STACK_SIZE * BASE_PAGE_LENGTH - 4
                &&& k.tasks@[0].cpool == Some(0usize)
                &&& k.tasks@[0].top_page_table matches Some(tt) && tt < k.tables@.len() && {
                    let ms = k.tables@[tt as int].mappings@;
                    &&& ms.len() >= 2
                    &&& k.tasks@[0].buffer == Some(ms[ms.len() - 2].1->TaskBufferPage_0)
                    &&& ms[ms.len() - 2].0 == RINIT_BUFFER_VADDR
                    &&& ms[ms.len() - 2].1 is TaskBufferPage
                }
                &&& k.tasks@[0].buffer matches Some(b) && k.buffers@[b as int].call is None
                &&& k.keyboard matches Some(kc) && {
                    &&& kc + 1 < k.channels@.len()
                    &&& k.channels@[kc as int].slot is None
                    &&& k.channels@[kc + 1].slot is None
                    &&& n + rinit_pages(segments@) <= CHILD_BUFFER_SLOT - 1 ==> {
                        &&& slots[KEYBOARD_CHANNEL_SLOT as int] == CapabilityUnion::Channel(kc)
                        &&& slots[UTILITY_CHANNEL_SLOT as int] == CapabilityUnion::Channel((kc + 1) as usize)
                        &&& k.tasks@[0].buffer matches Some(b)
                            && slots[CHILD_BUFFER_SLOT as int] == CapabilityUnion::TaskBufferPage((b + 1) as usize)
                    }
                }
                &&& forall|t: int| #[trigger] is_largest(regions@, t) ==> {
                    let a = aligned_start(booted_region(regions@, t).watermark as int, BASE_PAGE_LENGTH as int);
                    let w = a + rinit_pages(segments@) * BASE_PAGE_LENGTH;
                    &&& forall|i: int| 0 <= i < n && i != t ==> #[trigger] k.untypeds@[i] == booted_region(regions@, i)
                    &&& k.tasks@[0].start_paddr == w
                    &&& k.tables@[k.tasks@[0].top_page_table->0 as int].start_paddr == a
                    &&& k.untypeds@[t].watermark == w + TASK_SIZE + 2 * CHANNEL_SIZE
                }
            },
    {
        let ghost rs = regions@;
        let ghost n = rs.len() as int;
        let ghost total = rinit_pages(segments@);
        let (mut k, target) = match Kernel::bootstrap(regions) {
            Some(x) => x,
            None => return None,
        };
        let ghost k0 = k;
        let ghost ut = booted_region(rs, target as int);
        let ghost a = aligned_start(ut.watermark as int, BASE_PAGE_LENGTH as int);
        proof {
            assert(k0.untypeds@[target as int] == ut);
            assert(a % BASE_PAGE_LENGTH as int == 0 && a >= ut.watermark) by (nonlinear_arith)
                requires a == aligned_start(ut.watermark as int, BASE_PAGE_LENGTH as int);
            assert forall|t: int| #[trigger] is_largest(rs, t) implies t == target by {
                if t < target {
                    assert(rs[t].1 < rs[target as int].1);
                } else if t > target {
                    assert(rs[target as int].1 < rs[t].1);
                }
            }
            lemma_load_pages_nonneg(segments@);
        }
        let rp = match k.bootstrap_rinit_paging(image, entry, segments, 0, target) {
            Some(rp) => rp,
            None => return None,
        };
        let ghost k1 = k;
        let ghost w = a + total * BASE_PAGE_LENGTH;
        proof {
            assert(w % 8 == 0) by (nonlinear_arith)
                requires w == a + total * BASE_PAGE_LENGTH, a % BASE_PAGE_LENGTH as int == 0;
            assert(k1.untypeds@[target as int].watermark == w);
            assert(aligned_start(w, TASK_ALIGN as int) == w);
            assert(aligned_start(w + TASK_SIZE, CHANNEL_ALIGN as int) == w + TASK_SIZE);
            assert(aligned_start(w + TASK_SIZE + CHANNEL_SIZE, CHANNEL_ALIGN as int) == w + TASK_SIZE + CHANNEL_SIZE);
        }
        let th = k.tasks.len();
        let tc = k.retype(target, CapKind::Task);
        if tc.is_none() {
            return None;
        }
        let mut task = k.tasks[th];
        task.instruction_pointer = rp.entry;
        task.stack_pointer = rp.stack;
        task.status = next_status(task.status, TaskEvent::SetActive);
        task.cpool = Some(0);
        task.top_page_table = Some(rp.table);
        task.buffer = Some(rp.buffer);
        k.set_task(th, task);
        let ghost k2 = k;
        let kb = k.channels.len();
        let kc = match k.retype(target, CapKind::Channel) {
            Some(c) => c,
            None => return None,
        };
        let ghost k2a = k;
        k.downgrade_at(0, kc, KEYBOARD_CHANNEL_SLOT);
        k.keyboard = Some(kb);
        let ghost k3 = k;
        let uc = match k.retype(target, CapKind::Channel) {
            Some(c) => c,
            None => return None,
        };
        let ghost k4 = k;
        k.downgrade_at(0, uc, UTILITY_CHANNEL_SLOT);
        proof {
            assert(k0.cpools@[0].object.slots@ == boot_slots(n));
            assert forall|j: int| 0 <= j < POOL_SLOTS && !(#[trigger] boot_slots(n)[j] is Empty)
                implies k.cpools@[0].object.slots@[j] == boot_slots(n)[j] by {
                assert(k1.cpools@[0].object.slots@[j] == boot_slots(n)[j]);
                assert(k2.cpools@[0].object.slots@[j] == boot_slots(n)[j]);
                assert(k3.cpools@[0].object.slots@[j] == boot_slots(n)[j]);
            }
            assert(k3.channels@[kb as int].slot is None);
            assert(kb < k3.channels@.len());
            assert(k4.same_object(k3, CapKind::Channel, kb as int));
            assert(k.channels == k4.channels);
            assert(k.tables == k1.tables);
            assert forall|i: int| 0 <= i < n && i != target implies #[trigger] k.untypeds@[i] == booted_region(rs, i) by {
                assert(k1.untypeds@[i] == k0.untypeds@[i]);
            }
            assert(k.tasks@[0].start_paddr == w);
            if n + total <= CHILD_BUFFER_SLOT - 1 {
                let caps = rinit_caps(rp.table as int, k0.pages@.len() as int, load_pages(segments@) + 2 * RINIT_STACK_SIZE,
                    rp.buffer as int);
                assert(caps.len() == total);
                assert forall|j: int| 0 <= j < POOL_SLOTS implies ((#[trigger] boot_slots(n)[j]) is Empty <==> j >= n + 1) by {}
                assert forall|i: int| 0 <= i < caps.len() implies !((#[trigger] caps[i]) is Empty) by {
                    if i == 0 {
                    } else if i < caps.len() - 2 {
                        assert(caps[i] == page_caps(k0.pages@.len() as int, load_pages(segments@) + 2 * RINIT_STACK_SIZE)[i - 1]);
                    }
                }
                lemma_install_all_prefix(boot_slots(n), n + 1, caps);
                let f = install_all(boot_slots(n), caps);
                assert(f[CHILD_BUFFER_SLOT as int] is Empty);
                assert(f[KEYBOARD_CHANNEL_SLOT as int] is Empty);
                assert(f[UTILITY_CHANNEL_SLOT as int] is Empty);
                assert(k1.cpools@[0].object.slots@[KEYBOARD_CHANNEL_SLOT as int] is Empty);
                assert(k2a.cpools@[0].object.slots@[KEYBOARD_CHANNEL_SLOT as int] is Empty);
                assert(k4.cpools@[0].object.slots@[UTILITY_CHANNEL_SLOT as int] is Empty);
            }
        }
        Some(k)
    }
}

} // verus!
