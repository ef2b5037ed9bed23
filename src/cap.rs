//! Capabilities as a closed tagged union, and the capability pool: a table of
//! `POOL_SLOTS` slots, each empty or holding one capability of a definite kind.
use vstd::prelude::*;
use crate::untyped::{aligned_start, PAddr, UntypedHalf};

verus! {

/// Number of slots in a capability pool.
pub const POOL_SLOTS: usize = 256;

/// Bytes of untyped memory that a capability pool occupies.
pub const CAPABILITY_POOL_SIZE: usize = 4096;

/// Alignment of a capability pool in untyped memory.
pub const CAPABILITY_POOL_ALIGN: usize = 8;

/// The kinds of capability known to the kernel core.
#[derive(Clone, Copy, Debug, PartialEq, Eq, Structural)]
pub enum CapKind {
    Untyped,
    CPool,
    Task,
    Channel,
    RawPage,
    TaskBufferPage,
    TopPageTable,
}

/// A capability: the kind of the resource and the resource's handle in the
/// kernel's object table of that kind. `Empty` is the empty slot.
#[derive(Clone, Copy, Debug, PartialEq, Eq, Structural)]
pub enum CapabilityUnion {
    UntypedMemory(usize),
    CapabilityPool(usize),
    Task(usize),
    Channel(usize),
    RawPage(usize),
    TaskBufferPage(usize),
    TopPageTable(usize),
    Empty,
}

/// The kind of a capability; `None` for the empty slot.
pub open spec fn kind_of(c: CapabilityUnion) -> Option<CapKind> {
    match c {
        CapabilityUnion::UntypedMemory(_) => Some(CapKind::Untyped),
        CapabilityUnion::CapabilityPool(_) => Some(CapKind::CPool),
        CapabilityUnion::Task(_) => Some(CapKind::Task),
        CapabilityUnion::Channel(_) => Some(CapKind::Channel),
        CapabilityUnion::RawPage(_) => Some(CapKind::RawPage),
        CapabilityUnion::TaskBufferPage(_) => Some(CapKind::TaskBufferPage),
        CapabilityUnion::TopPageTable(_) => Some(CapKind::TopPageTable),
        CapabilityUnion::Empty => None,
    }
}

/// The handle of a capability in its kind's object table.
pub open spec fn handle_of(c: CapabilityUnion) -> usize {
    match c {
        CapabilityUnion::UntypedMemory(i) => i,
        CapabilityUnion::CapabilityPool(i) => i,
        CapabilityUnion::Task(i) => i,
        CapabilityUnion::Channel(i) => i,
        CapabilityUnion::RawPage(i) => i,
        CapabilityUnion::TaskBufferPage(i) => i,
        CapabilityUnion::TopPageTable(i) => i,
        CapabilityUnion::Empty => 0,
    }
}

/// The capability of kind `kind` with handle `i`.
pub open spec fn make_cap(kind: CapKind, i: usize) -> CapabilityUnion {
    match kind {
        CapKind::Untyped => CapabilityUnion::UntypedMemory(i),
        CapKind::CPool => CapabilityUnion::CapabilityPool(i),
        CapKind::Task => CapabilityUnion::Task(i),
        CapKind::Channel => CapabilityUnion::Channel(i),
        CapKind::RawPage => CapabilityUnion::RawPage(i),
        CapKind::TaskBufferPage => CapabilityUnion::TaskBufferPage(i),
        CapKind::TopPageTable => CapabilityUnion::TopPageTable(i),
    }
}

impl CapabilityUnion {
    /// The handle of an untyped-memory capability.
    pub fn as_untyped_memory(cap: CapabilityUnion) -> (r: Option<usize>)
        ensures
            r == (match cap {
                CapabilityUnion::UntypedMemory(x) => Some(x),
                _ => None::<usize>,
            }),
    {
        if let CapabilityUnion::UntypedMemory(x) = cap {
            Some(x)
        } else {
            None
        }
    }

    pub fn kind(&self) -> (r: Option<CapKind>)
        ensures
            r == kind_of(*self),
    {
        match self {
            CapabilityUnion::UntypedMemory(_) => Some(CapKind::Untyped),
            CapabilityUnion::CapabilityPool(_) => Some(CapKind::CPool),
            CapabilityUnion::Task(_) => Some(CapKind::Task),
            CapabilityUnion::Channel(_) => Some(CapKind::Channel),
            CapabilityUnion::RawPage(_) => Some(CapKind::RawPage),
            CapabilityUnion::TaskBufferPage(_) => Some(CapKind::TaskBufferPage),
            CapabilityUnion::TopPageTable(_) => Some(CapKind::TopPageTable),
            CapabilityUnion::Empty => None,
        }
    }
}

/// The occupied slots among the first `n` of `s`, with their indices, in
/// index order.
pub open spec fn occupied_prefix(s: Seq<CapabilityUnion>, n: nat) -> Seq<(usize, CapabilityUnion)>
    decreases n,
{
    if n == 0 {
        Seq::empty()
    } else {
        let rest = occupied_prefix(s, (n - 1) as nat);
        if s[n - 1] is Empty {
            rest
        } else {
            rest.push(((n - 1) as usize, s[n - 1]))
        }
    }
}

/// The first empty slot of `s` at or after `i`, or -1 when there is none.
pub open spec fn first_empty(s: Seq<CapabilityUnion>, i: int) -> int
    decreases POOL_SLOTS - i,
{
    if i < 0 || i >= POOL_SLOTS {
        -1
    } else if s[i] is Empty {
        i
    } else {
        first_empty(s, i + 1)
    }
}

/// The slots `s` after installing `c` in the first empty slot; unchanged
/// when every slot is occupied.
pub open spec fn install_free(s: Seq<CapabilityUnion>, c: CapabilityUnion) -> Seq<CapabilityUnion> {
    let f = first_empty(s, 0);
    if f < 0 {
        s
    } else {
        s.update(f, c)
    }
}

/// The slots `s` after installing each of `cs` in turn in the first empty
/// slot.
pub open spec fn install_all(s: Seq<CapabilityUnion>, cs: Seq<CapabilityUnion>) -> Seq<CapabilityUnion>
    decreases cs.len(),
{
    if cs.len() == 0 {
        s
    } else {
        install_free(install_all(s, cs.drop_last()), cs.last())
    }
}

/// Whether exactly the first `m` of the pool's slots are occupied.
pub open spec fn prefix_filled(s: Seq<CapabilityUnion>, m: int) -> bool {
    &&& 0 <= m <= POOL_SLOTS
    &&& s.len() == POOL_SLOTS
    &&& forall|j: int| 0 <= j < POOL_SLOTS ==> ((#[trigger] s[j]) is Empty <==> j >= m)
}

/// The first empty slot is the one that every slot before it is occupied
/// and it is not.
pub proof fn lemma_first_empty(s: Seq<CapabilityUnion>, i: int, j: int)
    requires
        0 <= j <= i,
        i <= POOL_SLOTS,
        forall|k: int| j <= k < i ==> !(#[trigger] s[k] is Empty),
        i < POOL_SLOTS ==> s[i] is Empty,
    ensures
        first_empty(s, j) == (if i < POOL_SLOTS { i } else { -1 }),
    decreases i - j,
{
    if j < i {
        lemma_first_empty(s, i, j + 1);
    }
}

/// Installing into a pool whose first `m` slots are occupied fills slot `m`.
pub proof fn lemma_install_free_prefix(s: Seq<CapabilityUnion>, m: int, c: CapabilityUnion)
    requires
        prefix_filled(s, m),
        !(c is Empty),
    ensures
        m < POOL_SLOTS ==> install_free(s, c) == s.update(m, c) && prefix_filled(install_free(s, c), m + 1),
        m == POOL_SLOTS ==> install_free(s, c) == s,
{
    lemma_first_empty(s, m, 0);
    if m < POOL_SLOTS {
        let t = s.update(m, c);
        assert forall|j: int| 0 <= j < POOL_SLOTS implies ((#[trigger] t[j]) is Empty <==> j >= m + 1) by {
            if j != m {
                assert(t[j] == s[j]);
            }
        }
    }
}

/// Installing `cs` one by one into a pool whose first `m` slots are occupied
/// puts `cs[i]` at slot `m + i` while slots last.
pub proof fn lemma_install_all_prefix(s: Seq<CapabilityUnion>, m: int, cs: Seq<CapabilityUnion>)
    requires
        prefix_filled(s, m),
        forall|i: int| 0 <= i < cs.len() ==> !((#[trigger] cs[i]) is Empty),
    ensures
        prefix_filled(install_all(s, cs), if m + cs.len() <= POOL_SLOTS { m + cs.len() } else { POOL_SLOTS as int }),
        forall|j: int| 0 <= j < m ==> #[trigger] install_all(s, cs)[j] == s[j],
        forall|i: int| 0 <= i < cs.len() && m + i < POOL_SLOTS ==> install_all(s, cs)[m + i] == #[trigger] cs[i],
    decreases cs.len(),
{
    if cs.len() > 0 {
        let init = cs.drop_last();
        lemma_install_all_prefix(s, m, init);
        let m1 = if m + init.len() <= POOL_SLOTS { m + init.len() } else { POOL_SLOTS as int };
        assert(!(cs[cs.len() - 1] is Empty));
        lemma_install_free_prefix(install_all(s, init), m1, cs.last());
        assert forall|i: int| 0 <= i < cs.len() && m + i < POOL_SLOTS implies install_all(s, cs)[m + i] == #[trigger] cs[i] by {
            if i < cs.len() - 1 {
                assert(init[i] == cs[i]);
            }
        }
    }
}

/// Installing `xs` and then `ys` is installing `xs + ys`.
pub proof fn lemma_install_all_append(s: Seq<CapabilityUnion>, xs: Seq<CapabilityUnion>, ys: Seq<CapabilityUnion>)
    ensures
        install_all(install_all(s, xs), ys) == install_all(s, xs + ys),
    decreases ys.len(),
{
    if ys.len() == 0 {
        assert(xs + ys =~= xs);
    } else {
        lemma_install_all_append(s, xs, ys.drop_last());
        assert((xs + ys).drop_last() =~= xs + ys.drop_last());
        assert((xs + ys).last() == ys.last());
    }
}

/// The slot table of a capability pool.
#[derive(Clone, Copy, Debug)]
pub struct CapabilityPool {
    pub slots: [CapabilityUnion; POOL_SLOTS],
}

impl CapabilityPool {
    pub open spec fn slot(self, index: int) -> CapabilityUnion {
        self.slots@[index]
    }

    /// Whether every slot is empty, as in a pool fresh out of zeroed memory.
    pub open spec fn is_empty(self) -> bool {
        forall|i: int| 0 <= i < POOL_SLOTS ==> (#[trigger] self.slot(i)) is Empty
    }

    /// A pool with every slot empty.
    pub fn new() -> (r: CapabilityPool)
        ensures
            r.is_empty(),
    {
        let r = CapabilityPool { slots: [CapabilityUnion::Empty; POOL_SLOTS] };
        r
    }

    /// The capability in slot `index`, if it is of kind `kind`.
    pub fn upgrade(&self, index: usize, kind: CapKind) -> (r: Option<CapabilityUnion>)
        ensures
            r is Some <==> (index < POOL_SLOTS && kind_of(self.slot(index as int)) == Some(kind)),
            r matches Some(c) ==> c == self.slot(index as int),
    {
        if index >= POOL_SLOTS {
            return None;
        }
        let c = self.slots[index];
        match c.kind() {
            Some(k) => if k == kind {
                Some(c)
            } else {
                None
            },
            None => None,
        }
    }

    /// The capability in slot `index`, whatever its kind.
    pub fn upgrade_any(&self, index: usize) -> (r: Option<CapabilityUnion>)
        ensures
            r is Some <==> (index < POOL_SLOTS && !(self.slot(index as int) is Empty)),
            r matches Some(c) ==> c == self.slot(index as int),
    {
        if index >= POOL_SLOTS {
            return None;
        }
        let c = self.slots[index];
        if let CapabilityUnion::Empty = c {
            None
        } else {
            Some(c)
        }
    }

    /// Install `cap` in slot `index` if that slot is empty. An occupied slot
    /// keeps its occupant, and an index past the table installs nothing.
    /// Returns whether `cap` was installed.
    pub fn downgrade_at(&mut self, cap: CapabilityUnion, index: usize) -> (r: bool)
        requires
            !(cap is Empty),
        ensures
            r == (index < POOL_SLOTS && old(self).slot(index as int) is Empty),
            r ==> final(self).slots@ == old(self).slots@.update(index as int, cap),
            !r ==> *final(self) == *old(self),
    {
        if index < POOL_SLOTS {
            if let CapabilityUnion::Empty = self.slots[index] {
                self.slots[index] = cap;
                return true;
            }
        }
        false
    }

    /// Install `cap` in the first empty slot, in index order. Returns that
    /// slot's index, or `None`, leaving the pool unchanged, when it is full.
    pub fn downgrade_free(&mut self, cap: CapabilityUnion) -> (r: Option<usize>)
        requires
            !(cap is Empty),
        ensures
            match r {
                Some(i) => {
                    &&& i < POOL_SLOTS
                    &&& old(self).slot(i as int) is Empty
                    &&& forall|j: int| 0 <= j < i ==> !(#[trigger] old(self).slot(j) is Empty)
                    &&& final(self).slots@ == old(self).slots@.update(i as int, cap)
                },
                None => {
                    &&& forall|j: int| 0 <= j < POOL_SLOTS ==> !(#[trigger] old(self).slot(j) is Empty)
                    &&& *final(self) == *old(self)
                },
            },
            final(self).slots@ == install_free(old(self).slots@, cap),
    {
        let mut i: usize = 0;
        while i < POOL_SLOTS
            invariant
                *self == *old(self),
                i <= POOL_SLOTS,
                forall|j: int| 0 <= j < i ==> !(#[trigger] old(self).slot(j) is Empty),
            decreases POOL_SLOTS - i,
        {
            if let CapabilityUnion::Empty = self.slots[i] {
                proof {
                    assert forall|k: int| 0 <= k < i as int implies !(#[trigger] old(self).slots@[k] is Empty) by {
                assert(!(old(self).slot(k) is Empty));
            }
            lemma_first_empty(old(self).slots@, i as int, 0);
                }
                self.slots[i] = cap;
                return Some(i);
            }
            i += 1;
        }
        proof {
            assert forall|k: int| 0 <= k < POOL_SLOTS as int implies !(#[trigger] old(self).slots@[k] is Empty) by {
                assert(!(old(self).slot(k) is Empty));
            }
            lemma_first_empty(old(self).slots@, POOL_SLOTS as int, 0);
        }
        None
    }

    /// Every occupied slot with its index, in index order.
    pub fn list(&self) -> (r: Vec<(usize, CapabilityUnion)>)
        ensures
            r@ == occupied_prefix(self.slots@, POOL_SLOTS as nat),
    {
        let mut r: Vec<(usize, CapabilityUnion)> = Vec::new();
        let mut i: usize = 0;
        while i < POOL_SLOTS
            invariant
                i <= POOL_SLOTS,
                r@ == occupied_prefix(self.slots@, i as nat),
            decreases POOL_SLOTS - i,
        {
            let c = self.slots[i];
            if let CapabilityUnion::Empty = c {
            } else {
                r.push((i, c));
            }
            i += 1;
        }
        r
    }
}

/// A capability pool object carved out of untyped memory.
#[derive(Clone, Copy, Debug)]
pub struct CapabilityPoolCapability {
    /// Where the pool's storage starts.
    pub start_addr: PAddr,
    /// Where the untyped region's free part started when the pool was carved.
    pub physical_start_addr: PAddr,
    pub object: CapabilityPool,
}

impl CapabilityPoolCapability {
    /// Retype a capability pool out of `untyped`: allocate its storage and
    /// start it with every slot empty. `None`, with `untyped` unchanged, when
    /// the region has no room.
    pub fn from_untyped(untyped: &mut UntypedHalf) -> (r: Option<CapabilityPoolCapability>)
        requires
            old(untyped).wf(),
        ensures
            final(untyped).wf(),
            final(untyped).start_paddr == old(untyped).start_paddr,
            final(untyped).length == old(untyped).length,
            r is Some == old(untyped).fits(CAPABILITY_POOL_SIZE as int, CAPABILITY_POOL_ALIGN as int),
            r is None ==> *final(untyped) == *old(untyped),
            r matches Some(p) ==> {
                &&& p.object.is_empty()
                &&& p.physical_start_addr == old(untyped).watermark
                &&& p.start_addr == aligned_start(old(untyped).watermark as int, CAPABILITY_POOL_ALIGN as int)
                &&& p.start_addr % CAPABILITY_POOL_ALIGN == 0
                &&& p.start_addr >= old(untyped).watermark
                &&& final(untyped).watermark == p.start_addr + CAPABILITY_POOL_SIZE
            },
    {
        let physical_start_addr = untyped.watermark;
        match untyped.allocate(CAPABILITY_POOL_SIZE, CAPABILITY_POOL_ALIGN) {
            Some(start_addr) => Some(
                CapabilityPoolCapability { start_addr, physical_start_addr, object: CapabilityPool::new() },
            ),
            None => None,
        }
    }
}

} // verus!
