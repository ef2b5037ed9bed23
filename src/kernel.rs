//! The kernel's context: one table per kind of kernel object, addressed by
//! handles that capabilities carry, and the operations of the core on them.
use vstd::prelude::*;
use crate::cap::{
    handle_of, kind_of, make_cap, CAPABILITY_POOL_ALIGN, CAPABILITY_POOL_SIZE, CapKind,
    CapabilityPoolCapability, CapabilityUnion, POOL_SLOTS,
};
use crate::channel::{ChannelHalf, CHANNEL_ALIGN, CHANNEL_SIZE};
use crate::page::{zeros, PageHalf, TaskBufferHalf, TopPageTableHalf, BASE_PAGE_LENGTH};
use crate::cap::{install_free, occupied_prefix};
use crate::task::{
    next_status_spec, next_status, SystemCall, TaskEvent, TaskHalf, TaskStatus, PRINT_LENGTH, TASK_ALIGN, TASK_SIZE,
};
use crate::untyped::{aligned_start, UntypedHalf};

verus! {

/// Bytes and alignment that an object of `kind` takes from untyped memory.
pub open spec fn layout(kind: CapKind) -> (int, int) {
    match kind {
        CapKind::CPool => (CAPABILITY_POOL_SIZE as int, CAPABILITY_POOL_ALIGN as int),
        CapKind::Task => (TASK_SIZE as int, TASK_ALIGN as int),
        CapKind::Channel => (CHANNEL_SIZE as int, CHANNEL_ALIGN as int),
        _ => (BASE_PAGE_LENGTH as int, BASE_PAGE_LENGTH as int),
    }
}

/// The region `u` after carving an object of `kind` out of it.
pub open spec fn carved(u: UntypedHalf, kind: CapKind) -> UntypedHalf {
    UntypedHalf {
        watermark: (aligned_start(u.watermark as int, layout(kind).1) + layout(kind).0) as usize,
        ..u
    }
}

/// What handling a system call leaves for the caller to do.
#[derive(Debug)]
pub enum SyscallOutcome {
    /// Nothing more.
    Done,
    /// Print the first `len` of `bytes` as the task's text.
    Print { bytes: [u8; PRINT_LENGTH], len: usize },
    /// Show the occupied slots of the task's pool, with their indices.
    PoolList(Vec<(usize, CapabilityUnion)>),
}

/// Why a task gave control back to the kernel.
#[derive(Clone, Copy, Debug, PartialEq, Eq, Structural)]
pub enum Exception {
    /// The task issued the system call in its buffer page.
    SystemCall,
    /// A key was pressed; the byte read from the keyboard port.
    Keyboard(u8),
    /// Anything else, which the core ignores.
    Other,
}

/// All kernel objects. A capability's handle indexes the table of its kind;
/// the tasks table is also the scheduler's traversal order.
#[derive(Debug)]
pub struct Kernel {
    pub untypeds: Vec<UntypedHalf>,
    pub cpools: Vec<CapabilityPoolCapability>,
    pub tasks: Vec<TaskHalf>,
    pub channels: Vec<ChannelHalf>,
    pub pages: Vec<PageHalf>,
    pub buffers: Vec<TaskBufferHalf>,
    pub tables: Vec<TopPageTableHalf>,
    /// The channel that keyboard input is delivered to.
    pub keyboard: Option<usize>,
}

impl Kernel {
    /// Number of objects of `kind`.
    pub open spec fn count(self, kind: CapKind) -> nat {
        match kind {
            CapKind::Untyped => self.untypeds@.len(),
            CapKind::CPool => self.cpools@.len(),
            CapKind::Task => self.tasks@.len(),
            CapKind::Channel => self.channels@.len(),
            CapKind::RawPage => self.pages@.len(),
            CapKind::TaskBufferPage => self.buffers@.len(),
            CapKind::TopPageTable => self.tables@.len(),
        }
    }

    /// Whether `c` is empty or names an existing object.
    pub open spec fn valid_cap(self, c: CapabilityUnion) -> bool {
        match kind_of(c) {
            Some(k) => handle_of(c) < self.count(k),
            None => true,
        }
    }

    pub open spec fn valid_task(self, t: TaskHalf) -> bool {
        &&& (t.cpool matches Some(p) ==> p < self.cpools@.len())
        &&& (t.top_page_table matches Some(p) ==> p < self.tables@.len())
        &&& (t.buffer matches Some(p) ==> p < self.buffers@.len())
        &&& (t.status matches TaskStatus::ChannelWait(c) ==> c < self.channels@.len())
    }

    pub open spec fn wf(self) -> bool {
        &&& forall|i: int| 0 <= i < self.untypeds@.len() ==> (#[trigger] self.untypeds@[i]).wf()
        &&& forall|p: int, s: int|
            0 <= p < self.cpools@.len() && 0 <= s < POOL_SLOTS
                ==> self.valid_cap(#[trigger] self.cpools@[p].object.slots@[s])
        &&& forall|t: int| 0 <= t < self.tasks@.len() ==> self.valid_task(#[trigger] self.tasks@[t])
        &&& forall|p: int| 0 <= p < self.pages@.len() ==> (#[trigger] self.pages@[p]).wf()
        &&& forall|t: int, m: int|
            0 <= t < self.tables@.len() && 0 <= m < self.tables@[t].mappings@.len()
                ==> self.valid_cap((#[trigger] self.tables@[t].mappings@[m]).1)
        &&& (self.keyboard matches Some(k) ==> k < self.channels@.len())
    }

    /// Whether the object that `c` names is as retyping leaves it: zeroed.
    pub open spec fn is_fresh(self, c: CapabilityUnion) -> bool {
        match c {
            CapabilityUnion::CapabilityPool(i) => self.cpools@[i as int].object.is_empty(),
            CapabilityUnion::Task(i) => self.tasks@[i as int].is_fresh(),
            CapabilityUnion::Channel(i) => self.channels@[i as int].slot is None,
            CapabilityUnion::RawPage(i) => self.pages@[i as int].data@ == zeros(BASE_PAGE_LENGTH as nat),
            CapabilityUnion::TaskBufferPage(i) => self.buffers@[i as int].call is None,
            CapabilityUnion::TopPageTable(i) => self.tables@[i as int].mappings@.len() == 0,
            _ => false,
        }
    }

    /// Where the object that `c` names starts in physical memory.
    pub open spec fn start_of(self, c: CapabilityUnion) -> int {
        match c {
            CapabilityUnion::CapabilityPool(i) => self.cpools@[i as int].start_addr as int,
            CapabilityUnion::Task(i) => self.tasks@[i as int].start_paddr as int,
            CapabilityUnion::Channel(i) => self.channels@[i as int].start_paddr as int,
            CapabilityUnion::RawPage(i) => self.pages@[i as int].start_paddr as int,
            CapabilityUnion::TaskBufferPage(i) => self.buffers@[i as int].start_paddr as int,
            CapabilityUnion::TopPageTable(i) => self.tables@[i as int].start_paddr as int,
            _ => 0,
        }
    }

    /// `self` and `o` hold the same objects, but maybe those of the kinds in
    /// `ks`.
    pub open spec fn same_except(self, o: Kernel, ks: Set<CapKind>) -> bool {
        &&& self.keyboard == o.keyboard
        &&& (!ks.contains(CapKind::Untyped) ==> self.untypeds == o.untypeds)
        &&& (!ks.contains(CapKind::CPool) ==> self.cpools == o.cpools)
        &&& (!ks.contains(CapKind::Task) ==> self.tasks == o.tasks)
        &&& (!ks.contains(CapKind::Channel) ==> self.channels == o.channels)
        &&& (!ks.contains(CapKind::RawPage) ==> self.pages == o.pages)
        &&& (!ks.contains(CapKind::TaskBufferPage) ==> self.buffers == o.buffers)
        &&& (!ks.contains(CapKind::TopPageTable) ==> self.tables == o.tables)
    }

    /// `new` is `old` with one object of `kind` appended to its table.
    pub open spec fn appended(old: Kernel, new: Kernel, kind: CapKind) -> bool {
        &&& new.count(kind) == old.count(kind) + 1
        &&& forall|i: int| 0 <= i < old.count(kind) ==> #[trigger] new.same_object(old, kind, i)
    }

    /// Object `i` of `kind` is the same in `self` and `o`.
    pub open spec fn same_object(self, o: Kernel, kind: CapKind, i: int) -> bool {
        match kind {
            CapKind::Untyped => self.untypeds@[i] == o.untypeds@[i],
            CapKind::CPool => self.cpools@[i] == o.cpools@[i],
            CapKind::Task => self.tasks@[i] == o.tasks@[i],
            CapKind::Channel => self.channels@[i] == o.channels@[i],
            CapKind::RawPage => self.pages@[i] == o.pages@[i],
            CapKind::TaskBufferPage => self.buffers@[i] == o.buffers@[i],
            CapKind::TopPageTable => self.tables@[i] == o.tables@[i],
        }
    }

    /// What `retype(u, kind)` does, returning `r`: carve an object of `kind`
    /// out of untyped region `u` and append it, zeroed, to its table.
    pub open spec fn retyped(old: Kernel, new: Kernel, u: usize, kind: CapKind, r: Option<CapabilityUnion>) -> bool {
        let un = old.untypeds@[u as int];
        &&& r is Some <==> (kind != CapKind::Untyped && un.fits(layout(kind).0, layout(kind).1))
        &&& r is None ==> new == old
        &&& r matches Some(c) ==> {
            &&& c == make_cap(kind, old.count(kind) as usize)
            &&& new.untypeds@ == old.untypeds@.update(u as int, carved(un, kind))
            &&& Kernel::appended(old, new, kind)
            &&& new.same_except(old, set![CapKind::Untyped, kind])
            &&& new.is_fresh(c)
            &&& new.start_of(c) == aligned_start(un.watermark as int, layout(kind).1)
            &&& (c matches CapabilityUnion::CapabilityPool(i) ==> new.cpools@[i as int].physical_start_addr == un.watermark)
        }
    }

    /// The handle in slot `index` of pool `pool`, if that slot holds a
    /// capability of `kind`.
    pub open spec fn lookup(self, pool: usize, index: usize, kind: CapKind) -> Option<usize> {
        let c = self.cpools@[pool as int].object.slots@[index as int];
        if index < POOL_SLOTS && kind_of(c) == Some(kind) {
            Some(handle_of(c))
        } else {
            None
        }
    }

    /// `new` is `old` with the slots of pool `pool` replaced by `slots`.
    pub open spec fn pool_set(old: Kernel, new: Kernel, pool: usize, slots: Seq<CapabilityUnion>) -> bool {
        &&& new.same_except(old, set![CapKind::CPool])
        &&& new.cpools@.len() == old.cpools@.len()
        &&& forall|q: int| 0 <= q < old.cpools@.len() && q != pool ==> #[trigger] new.cpools@[q] == old.cpools@[q]
        &&& new.cpools@[pool as int].start_addr == old.cpools@[pool as int].start_addr
        &&& new.cpools@[pool as int].physical_start_addr == old.cpools@[pool as int].physical_start_addr
        &&& new.cpools@[pool as int].object.slots@ == slots
    }

    /// What `downgrade_at(pool, cap, index)` does, returning `r`.
    pub open spec fn installed_at(old: Kernel, new: Kernel, pool: usize, cap: CapabilityUnion, index: usize, r: bool) -> bool {
        let slots = old.cpools@[pool as int].object.slots@;
        &&& r == (index < POOL_SLOTS && slots[index as int] is Empty)
        &&& r ==> Kernel::pool_set(old, new, pool, slots.update(index as int, cap))
        &&& !r ==> new == old
    }

    /// `new` is `old` with task `t` replaced by `task`.
    pub open spec fn task_set(old: Kernel, new: Kernel, t: usize, task: TaskHalf) -> bool {
        &&& new.same_except(old, set![CapKind::Task])
        &&& new.tasks@ == old.tasks@.update(t as int, task)
    }

    /// `new` is `old` with channel `c` replaced by `chan`.
    pub open spec fn channel_set(old: Kernel, new: Kernel, c: usize, chan: ChannelHalf) -> bool {
        &&& new.same_except(old, set![CapKind::Channel])
        &&& new.channels@ == old.channels@.update(c as int, chan)
    }

    /// What retyping the untyped capability in slot `src` of pool `pool` into
    /// an object of `kind`, installed at slot `dst`, does. Nothing, when
    /// `src` holds no untyped capability or the region has no room.
    pub open spec fn retyped_into(old: Kernel, new: Kernel, pool: usize, src: usize, dst: usize, kind: CapKind) -> bool {
        match old.lookup(pool, src, CapKind::Untyped) {
            None => new == old,
            Some(u) => exists|mid: Kernel, r: Option<CapabilityUnion>|
                #[trigger] Kernel::retyped(old, mid, u, kind, r) && match r {
                    None => new == mid,
                    Some(c) => exists|b: bool| #[trigger] Kernel::installed_at(mid, new, pool, c, dst, b),
                },
        }
    }

    /// `new` is `old` with task `t` given `status`, if `t` is a task handle.
    pub open spec fn status_set(old: Kernel, new: Kernel, t: Option<usize>, event: TaskEvent) -> bool {
        match t {
            Some(t) => Kernel::task_set(old, new, t, TaskHalf {
                status: next_status_spec(old.tasks@[t as int].status, event),
                ..old.tasks@[t as int]
            }),
            None => new == old,
        }
    }

    /// What system call `call`, issued by task `task` with pool `pool`, does
    /// to the kernel and what it leaves to do. A call whose operands do not
    /// name capabilities of the right kinds changes nothing.
    pub open spec fn syscall_effect(old: Kernel, new: Kernel, task: usize, pool: usize, call: SystemCall, out: SyscallOutcome) -> bool {
        match call {
            SystemCall::Print { bytes, len } => new == old && out == (SyscallOutcome::Print { bytes, len }),
            SystemCall::CPoolListDebug => new == old && (out matches SyscallOutcome::PoolList(l)
                && l@ == occupied_prefix(old.cpools@[pool as int].object.slots@, POOL_SLOTS as nat)),
            SystemCall::RetypeCPool { src_index, dst_index } =>
                out is Done && Kernel::retyped_into(old, new, pool, src_index, dst_index, CapKind::CPool),
            SystemCall::RetypeTask { src_index, dst_index } =>
                out is Done && Kernel::retyped_into(old, new, pool, src_index, dst_index, CapKind::Task),
            SystemCall::TaskSetInstructionPointer { task_index, vaddr } => out is Done
                && match old.lookup(pool, task_index, CapKind::Task) {
                Some(t) => Kernel::task_set(old, new, t, TaskHalf { instruction_pointer: vaddr, ..old.tasks@[t as int] }),
                None => new == old,
            },
            SystemCall::TaskSetStackPointer { task_index, vaddr } => out is Done
                && match old.lookup(pool, task_index, CapKind::Task) {
                Some(t) => Kernel::task_set(old, new, t, TaskHalf { stack_pointer: vaddr, ..old.tasks@[t as int] }),
                None => new == old,
            },
            SystemCall::TaskSetCPool { task_index, cpool_index } => out is Done
                && match (old.lookup(pool, task_index, CapKind::Task), old.lookup(pool, cpool_index, CapKind::CPool)) {
                (Some(t), Some(h)) => Kernel::task_set(old, new, t, TaskHalf { cpool: Some(h), ..old.tasks@[t as int] }),
                _ => new == old,
            },
            SystemCall::TaskSetTopPageTable { task_index, table_index } => out is Done
                && match (old.lookup(pool, task_index, CapKind::Task), old.lookup(pool, table_index, CapKind::TopPageTable)) {
                (Some(t), Some(h)) => Kernel::task_set(old, new, t, TaskHalf { top_page_table: Some(h), ..old.tasks@[t as int] }),
                _ => new == old,
            },
            SystemCall::TaskSetBuffer { task_index, buffer_index } => out is Done
                && match (old.lookup(pool, task_index, CapKind::Task), old.lookup(pool, buffer_index, CapKind::TaskBufferPage)) {
                (Some(t), Some(h)) => Kernel::task_set(old, new, t, TaskHalf { buffer: Some(h), ..old.tasks@[t as int] }),
                _ => new == old,
            },
            SystemCall::TaskSetActive { task_index } => out is Done
                && Kernel::status_set(old, new, old.lookup(pool, task_index, CapKind::Task), TaskEvent::SetActive),
            SystemCall::TaskSetInactive { task_index } => out is Done
                && Kernel::status_set(old, new, old.lookup(pool, task_index, CapKind::Task), TaskEvent::SetInactive),
            SystemCall::ChannelTake { channel_index, response: _ } => out is Done
                && match old.lookup(pool, channel_index, CapKind::Channel) {
                Some(c) => Kernel::status_set(old, new, Some(task), TaskEvent::ChannelTake(c)),
                None => new == old,
            },
            SystemCall::ChannelPut { channel_index, value } => out is Done
                && match old.lookup(pool, channel_index, CapKind::Channel) {
                Some(c) => Kernel::channel_set(old, new, c, old.channels@[c as int].put_spec(value)),
                None => new == old,
            },
        }
    }

    /// The buffer of task `t` and the channel index of the `ChannelTake`
    /// call pending in it, if there is one.
    pub open spec fn pending_take(self, t: usize) -> Option<(usize, usize)> {
        match self.tasks@[t as int].buffer {
            Some(b) => match self.buffers@[b as int].call {
                Some(SystemCall::ChannelTake { channel_index, response: _ }) => Some((b, channel_index)),
                _ => None,
            },
            None => None,
        }
    }

    /// What polling task `t` does, returning `r`, whether to resume it.
    /// An active task is resumed and an inactive one skipped. A task that
    /// waits on a channel holding a value, with its `ChannelTake` call
    /// pending, gets the value as the call's response, becomes active and is
    /// resumed; otherwise it keeps waiting.
    pub open spec fn polled(old: Kernel, new: Kernel, t: usize, r: bool) -> bool {
        match old.tasks@[t as int].status {
            TaskStatus::Inactive => !r && new == old,
            TaskStatus::Active => r && new == old,
            TaskStatus::ChannelWait(c) => match (old.pending_take(t), old.channels@[c as int].slot) {
                (Some((b, ci)), Some(v)) => {
                    &&& r
                    &&& new.same_except(old, set![CapKind::Task, CapKind::Channel, CapKind::TaskBufferPage])
                    &&& new.channels@ == old.channels@.update(c as int, old.channels@[c as int].take_spec().0)
                    &&& new.buffers@ == old.buffers@.update(b as int, TaskBufferHalf {
                        call: Some(SystemCall::ChannelTake { channel_index: ci, response: Some(v) }),
                        ..old.buffers@[b as int]
                    })
                    &&& new.tasks@ == old.tasks@.update(t as int, TaskHalf {
                        status: next_status_spec(old.tasks@[t as int].status, TaskEvent::ValueDelivered),
                        ..old.tasks@[t as int]
                    })
                },
                _ => !r && new == old,
            },
        }
    }

    /// What handling exception `e` of task `t` does, returning `out`.
    pub open spec fn exception_effect(old: Kernel, new: Kernel, t: usize, e: Exception, out: SyscallOutcome) -> bool {
        match e {
            Exception::SystemCall => {
                let task = old.tasks@[t as int];
                match (task.cpool, task.buffer) {
                    (Some(p), Some(b)) => match old.buffers@[b as int].call {
                        Some(call) => Kernel::syscall_effect(old, new, t, p, call, out),
                        None => new == old && out is Done,
                    },
                    _ => new == old && out is Done,
                }
            },
            Exception::Keyboard(byte) => out is Done && match old.keyboard {
                Some(k) => Kernel::channel_set(old, new, k, old.channels@[k as int].put_spec(byte as u64)),
                None => new == old,
            },
            Exception::Other => new == old && out is Done,
        }
    }

    /// Whether region `u` has room for `n` more pages, one after another.
    pub open spec fn fits_pages(u: UntypedHalf, n: int) -> bool {
        n == 0 || aligned_start(u.watermark as int, BASE_PAGE_LENGTH as int) + n * BASE_PAGE_LENGTH <= u.end()
    }

    /// `new` is `old` after retyping pages and page tables out of region `u`,
    /// installing capabilities in free slots of pool `pool` and adding
    /// mappings to table `table`: nothing else changes, no occupied slot
    /// changes, and every old object but those three stays.
    pub open spec fn boot_frame(old: Kernel, new: Kernel, u: usize, pool: usize, table: usize) -> bool {
        &&& new.same_except(old, set![CapKind::Untyped, CapKind::CPool, CapKind::RawPage, CapKind::TaskBufferPage, CapKind::TopPageTable])
        &&& new.untypeds@.len() == old.untypeds@.len()
        &&& forall|i: int| 0 <= i < old.untypeds@.len() && i != u ==> #[trigger] new.untypeds@[i] == old.untypeds@[i]
        &&& new.untypeds@[u as int].start_paddr == old.untypeds@[u as int].start_paddr
        &&& new.untypeds@[u as int].length == old.untypeds@[u as int].length
        &&& new.untypeds@[u as int].watermark >= old.untypeds@[u as int].watermark
        &&& new.cpools@.len() == old.cpools@.len()
        &&& forall|q: int| 0 <= q < old.cpools@.len() && q != pool ==> #[trigger] new.cpools@[q] == old.cpools@[q]
        &&& forall|j: int| 0 <= j < POOL_SLOTS && !(old.cpools@[pool as int].object.slots@[j] is Empty)
            ==> #[trigger] new.cpools@[pool as int].object.slots@[j] == old.cpools@[pool as int].object.slots@[j]
        &&& new.pages@.len() >= old.pages@.len()
        &&& forall|p: int| 0 <= p < old.pages@.len() ==> #[trigger] new.pages@[p] == old.pages@[p]
        &&& new.buffers@.len() >= old.buffers@.len()
        &&& forall|p: int| 0 <= p < old.buffers@.len() ==> #[trigger] new.buffers@[p] == old.buffers@[p]
        &&& new.tables@.len() >= old.tables@.len()
        &&& forall|t: int| 0 <= t < old.tables@.len() && t != table ==> #[trigger] new.tables@[t] == old.tables@[t]
        &&& (table < old.tables@.len() ==> old.tables@[table as int].mappings@.is_prefix_of(
            new.tables@[table as int].mappings@))
        &&& (table < old.tables@.len() ==> new.tables@[table as int].start_paddr == old.tables@[table as int].start_paddr)
    }

    /// Capabilities that name objects of `old` still name objects when every
    /// table has grown.
    pub proof fn lemma_valid_cap_grows(old: Kernel, new: Kernel, c: CapabilityUnion)
        requires
            forall|k: CapKind| #[trigger] new.count(k) >= old.count(k),
            old.valid_cap(c),
        ensures
            new.valid_cap(c),
    {
        if let Some(k) = kind_of(c) {
            assert(new.count(k) >= old.count(k));
        }
    }

    /// Growing the tables with zeroed objects, while the old objects stay and
    /// the untyped regions stay well formed, keeps the kernel well formed.
    pub proof fn lemma_wf_grows(old: Kernel, new: Kernel)
        requires
            old.wf(),
            forall|k: CapKind| #[trigger] new.count(k) >= old.count(k),
            forall|i: int| 0 <= i < new.untypeds@.len() ==> (#[trigger] new.untypeds@[i]).wf(),
            forall|p: int| 0 <= p < old.cpools@.len() ==> #[trigger] new.cpools@[p] == old.cpools@[p],
            forall|p: int| old.cpools@.len() <= p < new.cpools@.len() ==> (#[trigger] new.cpools@[p]).object.is_empty(),
            forall|t: int| 0 <= t < old.tasks@.len() ==> #[trigger] new.tasks@[t] == old.tasks@[t],
            forall|t: int| old.tasks@.len() <= t < new.tasks@.len() ==> (#[trigger] new.tasks@[t]).is_fresh(),
            forall|p: int| 0 <= p < new.pages@.len() ==> (#[trigger] new.pages@[p]).wf(),
            forall|t: int| 0 <= t < old.tables@.len() ==> #[trigger] new.tables@[t] == old.tables@[t],
            forall|t: int| old.tables@.len() <= t < new.tables@.len() ==> (#[trigger] new.tables@[t]).mappings@.len() == 0,
            new.keyboard == old.keyboard,
        ensures
            new.wf(),
    {
        assert(new.count(CapKind::CPool) >= old.count(CapKind::CPool));
        assert(new.count(CapKind::Channel) >= old.count(CapKind::Channel));
        assert(new.count(CapKind::TopPageTable) >= old.count(CapKind::TopPageTable));
        assert(new.count(CapKind::TaskBufferPage) >= old.count(CapKind::TaskBufferPage));
        assert forall|p: int, s: int|
            0 <= p < new.cpools@.len() && 0 <= s < POOL_SLOTS
                implies new.valid_cap(#[trigger] new.cpools@[p].object.slots@[s]) by {
            if p < old.cpools@.len() {
                assert(old.valid_cap(old.cpools@[p].object.slots@[s]));
                Kernel::lemma_valid_cap_grows(old, new, new.cpools@[p].object.slots@[s]);
            } else {
                assert(new.cpools@[p].object.slot(s) is Empty);
            }
        }
        assert forall|t: int, m: int|
            0 <= t < new.tables@.len() && 0 <= m < new.tables@[t].mappings@.len()
                implies new.valid_cap((#[trigger] new.tables@[t].mappings@[m]).1) by {
            assert(old.valid_cap(old.tables@[t].mappings@[m].1));
            Kernel::lemma_valid_cap_grows(old, new, new.tables@[t].mappings@[m].1);
        }
        assert forall|t: int| 0 <= t < new.tasks@.len() implies new.valid_task(#[trigger] new.tasks@[t]) by {
            if t < old.tasks@.len() {
                assert(old.valid_task(old.tasks@[t]));
            }
        }
    }

    /// Retype part of untyped region `u` into a new object of `kind`, zeroed,
    /// and return a capability to it. Untyped memory is not retyped into
    /// untyped memory. `None`, with nothing changed, when the region has no
    /// room.
    pub fn retype(&mut self, u: usize, kind: CapKind) -> (r: Option<CapabilityUnion>)
        requires
            old(self).wf(),
            u < old(self).untypeds@.len(),
        ensures
            final(self).wf(),
            Kernel::retyped(*old(self), *final(self), u, kind, r),
    {
        let mut un = self.untypeds[u];
        let r = match kind {
            CapKind::Untyped => None,
            CapKind::CPool => match CapabilityPoolCapability::from_untyped(&mut un) {
                Some(o) => {
                    let h = self.cpools.len();
                    self.cpools.push(o);
                    Some(CapabilityUnion::CapabilityPool(h))
                },
                None => None,
            },
            CapKind::Task => match TaskHalf::new(&mut un) {
                Some(o) => {
                    let h = self.tasks.len();
                    self.tasks.push(o);
                    Some(CapabilityUnion::Task(h))
                },
                None => None,
            },
            CapKind::Channel => match ChannelHalf::new(&mut un) {
                Some(o) => {
                    let h = self.channels.len();
                    self.channels.push(o);
                    Some(CapabilityUnion::Channel(h))
                },
                None => None,
            },
            CapKind::RawPage => match PageHalf::new(&mut un) {
                Some(o) => {
                    let h = self.pages.len();
                    self.pages.push(o);
                    Some(CapabilityUnion::RawPage(h))
                },
                None => None,
            },
            CapKind::TaskBufferPage => match TaskBufferHalf::new(&mut un) {
                Some(o) => {
                    let h = self.buffers.len();
                    self.buffers.push(o);
                    Some(CapabilityUnion::TaskBufferPage(h))
                },
                None => None,
            },
            CapKind::TopPageTable => match TopPageTableHalf::new(&mut un) {
                Some(o) => {
                    let h = self.tables.len();
                    self.tables.push(o);
                    Some(CapabilityUnion::TopPageTable(h))
                },
                None => None,
            },
        };
        if r.is_some() {
            self.untypeds.set(u, un);
        }
        proof {
            assert forall|k: CapKind| #[trigger] self.count(k) >= old(self).count(k) by {}
            Kernel::lemma_wf_grows(*old(self), *self);
        }
        r
    }

    /// The handle in slot `index` of pool `pool`, if that slot holds a
    /// capability of `kind`.
    pub fn upgrade(&self, pool: usize, index: usize, kind: CapKind) -> (r: Option<usize>)
        requires
            self.wf(),
            pool < self.cpools@.len(),
        ensures
            r == self.lookup(pool, index, kind),
            r matches Some(h) ==> h < self.count(kind),
    {
        match self.cpools[pool].object.upgrade(index, kind) {
            Some(c) => {
                proof {
                    assert(self.valid_cap(self.cpools@[pool as int].object.slots@[index as int]));
                }
                Some(Kernel::handle(c))
            },
            None => None,
        }
    }

    fn handle(c: CapabilityUnion) -> (r: usize)
        ensures
            r == handle_of(c),
    {
        match c {
            CapabilityUnion::UntypedMemory(i) => i,
            CapabilityUnion::CapabilityPool(i) => i,
            CapabilityUnion::Task(i) => i,
            CapabilityUnion::Channel(i) => i,
            CapabilityUnion::RawPage(i) => i,
            CapabilityUnion::TaskBufferPage(i) => i,
            CapabilityUnion::TopPageTable(i) => i,
            CapabilityUnion::Empty => 0,
        }
    }

    /// Install `cap` at slot `index` of pool `pool`, if that slot is empty.
    /// Returns whether it was installed.
    pub fn downgrade_at(&mut self, pool: usize, cap: CapabilityUnion, index: usize) -> (r: bool)
        requires
            old(self).wf(),
            pool < old(self).cpools@.len(),
            old(self).valid_cap(cap),
            !(cap is Empty),
        ensures
            final(self).wf(),
            Kernel::installed_at(*old(self), *final(self), pool, cap, index, r),
    {
        let mut pc = self.cpools[pool];
        let r = pc.object.downgrade_at(cap, index);
        if r {
            self.cpools.set(pool, pc);
        }
        proof {
            assert forall|p: int, s: int|
                0 <= p < self.cpools@.len() && 0 <= s < POOL_SLOTS
                    implies self.valid_cap(#[trigger] self.cpools@[p].object.slots@[s]) by {
                assert(old(self).valid_cap(old(self).cpools@[p].object.slots@[s]));
            }
        }
        r
    }

    /// Install `cap` in the first empty slot of pool `pool`; nothing when the
    /// pool is full. Returns the slot used.
    pub fn downgrade_free(&mut self, pool: usize, cap: CapabilityUnion) -> (r: Option<usize>)
        requires
            old(self).wf(),
            pool < old(self).cpools@.len(),
            old(self).valid_cap(cap),
            !(cap is Empty),
        ensures
            final(self).wf(),
            ({
                let slots = old(self).cpools@[pool as int].object.slots@;
                match r {
                    Some(i) => {
                        &&& i < POOL_SLOTS
                        &&& slots[i as int] is Empty
                        &&& forall|j: int| 0 <= j < i ==> !(#[trigger] slots[j] is Empty)
                        &&& Kernel::pool_set(*old(self), *final(self), pool, slots.update(i as int, cap))
                    },
                    None => {
                        &&& forall|j: int| 0 <= j < POOL_SLOTS ==> !(#[trigger] slots[j] is Empty)
                        &&& *final(self) == *old(self)
                    },
                }
            }),
            Kernel::pool_set(*old(self), *final(self), pool, install_free(old(self).cpools@[pool as int].object.slots@, cap)),
    {
        let mut pc = self.cpools[pool];
        let r = pc.object.downgrade_free(cap);
        if r.is_some() {
            self.cpools.set(pool, pc);
        }
        proof {
            assert forall|p: int, s: int|
                0 <= p < self.cpools@.len() && 0 <= s < POOL_SLOTS
                    implies self.valid_cap(#[trigger] self.cpools@[p].object.slots@[s]) by {
                assert(old(self).valid_cap(old(self).cpools@[p].object.slots@[s]));
            }
            if let Some(i) = r {
                assert forall|j: int| 0 <= j < i implies
                    !(#[trigger] old(self).cpools@[pool as int].object.slots@[j] is Empty) by {
                    assert(!(old(self).cpools@[pool as int].object.slot(j) is Empty));
                }
            } else {
                assert forall|j: int| 0 <= j < POOL_SLOTS implies
                    !(#[trigger] old(self).cpools@[pool as int].object.slots@[j] is Empty) by {
                    assert(!(old(self).cpools@[pool as int].object.slot(j) is Empty));
                }
            }
        }
        r
    }

    /// Replace task `t` by `task`.
    pub fn set_task(&mut self, t: usize, task: TaskHalf)
        requires
            old(self).wf(),
            t < old(self).tasks@.len(),
            old(self).valid_task(task),
        ensures
            final(self).wf(),
            Kernel::task_set(*old(self), *final(self), t, task),
    {
        self.tasks.set(t, task);
        proof {
            assert forall|i: int| 0 <= i < self.tasks@.len() implies self.valid_task(#[trigger] self.tasks@[i]) by {
                if i != t {
                    assert(old(self).valid_task(old(self).tasks@[i]));
                }
            }
        }
    }

    /// Retype the untyped capability in slot `src` of pool `pool` into an
    /// object of `kind` and install it at slot `dst`. Nothing happens when
    /// `src` holds no untyped capability or its region has no room.
    pub fn retype_into(&mut self, pool: usize, src: usize, dst: usize, kind: CapKind)
        requires
            old(self).wf(),
            pool < old(self).cpools@.len(),
        ensures
            final(self).wf(),
            Kernel::retyped_into(*old(self), *final(self), pool, src, dst, kind),
    {
        if let Some(u) = self.upgrade(pool, src, CapKind::Untyped) {
            let r = self.retype(u, kind);
            let ghost mid = *self;
            if let Some(c) = r {
                let b = self.downgrade_at(pool, c, dst);
                assert(Kernel::installed_at(mid, *self, pool, c, dst, b));
            }
            assert(Kernel::retyped(*old(self), mid, u, kind, r));
        }
    }

    /// Move task `t` on `event`, as the task state machine allows.
    pub fn task_event(&mut self, t: usize, event: TaskEvent)
        requires
            old(self).wf(),
            t < old(self).tasks@.len(),
            event matches TaskEvent::ChannelTake(c) ==> c < old(self).channels@.len(),
        ensures
            final(self).wf(),
            Kernel::status_set(*old(self), *final(self), Some(t), event),
    {
        let mut task = self.tasks[t];
        task.status = next_status(task.status, event);
        proof {
            assert(old(self).valid_task(old(self).tasks@[t as int]));
        }
        self.set_task(t, task);
    }

    /// Carry out system call `call`, issued by task `task` whose pool is
    /// `pool`. Operands are slots of that pool; a call whose operands do not
    /// hold capabilities of the right kinds does nothing.
    pub fn handle_system_call(&mut self, task: usize, pool: usize, call: SystemCall) -> (r: SyscallOutcome)
        requires
            old(self).wf(),
            task < old(self).tasks@.len(),
            pool < old(self).cpools@.len(),
        ensures
            final(self).wf(),
            Kernel::syscall_effect(*old(self), *final(self), task, pool, call, r),
    {
        match call {
            SystemCall::Print { bytes, len } => SyscallOutcome::Print { bytes, len },
            SystemCall::CPoolListDebug => SyscallOutcome::PoolList(self.cpools[pool].object.list()),
            SystemCall::RetypeCPool { src_index, dst_index } => {
                self.retype_into(pool, src_index, dst_index, CapKind::CPool);
                SyscallOutcome::Done
            },
            SystemCall::RetypeTask { src_index, dst_index } => {
                self.retype_into(pool, src_index, dst_index, CapKind::Task);
                SyscallOutcome::Done
            },
            SystemCall::TaskSetInstructionPointer { task_index, vaddr } => {
                if let Some(t) = self.upgrade(pool, task_index, CapKind::Task) {
                    let mut target = self.tasks[t];
                    proof { assert(self.valid_task(self.tasks@[t as int])); }
                    target.instruction_pointer = vaddr;
                    self.set_task(t, target);
                }
                SyscallOutcome::Done
            },
            SystemCall::TaskSetStackPointer { task_index, vaddr } => {
                if let Some(t) = self.upgrade(pool, task_index, CapKind::Task) {
                    let mut target = self.tasks[t];
                    proof { assert(self.valid_task(self.tasks@[t as int])); }
                    target.stack_pointer = vaddr;
                    self.set_task(t, target);
                }
                SyscallOutcome::Done
            },
            SystemCall::TaskSetCPool { task_index, cpool_index } => {
                if let Some(t) = self.upgrade(pool, task_index, CapKind::Task) {
                    if let Some(h) = self.upgrade(pool, cpool_index, CapKind::CPool) {
                        let mut target = self.tasks[t];
                        proof { assert(self.valid_task(self.tasks@[t as int])); }
                        target.cpool = Some(h);
                        self.set_task(t, target);
                    }
                }
                SyscallOutcome::Done
            },
            SystemCall::TaskSetTopPageTable { task_index, table_index } => {
                if let Some(t) = self.upgrade(pool, task_index, CapKind::Task) {
                    if let Some(h) = self.upgrade(pool, table_index, CapKind::TopPageTable) {
                        let mut target = self.tasks[t];
                        proof { assert(self.valid_task(self.tasks@[t as int])); }
                        target.top_page_table = Some(h);
                        self.set_task(t, target);
                    }
                }
                SyscallOutcome::Done
            },
            SystemCall::TaskSetBuffer { task_index, buffer_index } => {
                if let Some(t) = self.upgrade(pool, task_index, CapKind::Task) {
                    if let Some(h) = self.upgrade(pool, buffer_index, CapKind::TaskBufferPage) {
                        let mut target = self.tasks[t];
                        proof { assert(self.valid_task(self.tasks@[t as int])); }
                        target.buffer = Some(h);
                        self.set_task(t, target);
                    }
                }
                SyscallOutcome::Done
            },
            SystemCall::TaskSetActive { task_index } => {
                if let Some(t) = self.upgrade(pool, task_index, CapKind::Task) {
                    self.task_event(t, TaskEvent::SetActive);
                }
                SyscallOutcome::Done
            },
            SystemCall::TaskSetInactive { task_index } => {
                if let Some(t) = self.upgrade(pool, task_index, CapKind::Task) {
                    self.task_event(t, TaskEvent::SetInactive);
                }
                SyscallOutcome::Done
            },
            SystemCall::ChannelTake { channel_index, response: _ } => {
                if let Some(c) = self.upgrade(pool, channel_index, CapKind::Channel) {
                    self.task_event(task, TaskEvent::ChannelTake(c));
                }
                SyscallOutcome::Done
            },
            SystemCall::ChannelPut { channel_index, value } => {
                if let Some(c) = self.upgrade(pool, channel_index, CapKind::Channel) {
                    self.channel_put(c, value);
                }
                SyscallOutcome::Done
            },
        }
    }

    /// Put `value` in channel `c`.
    pub fn channel_put(&mut self, c: usize, value: u64)
        requires
            old(self).wf(),
            c < old(self).channels@.len(),
        ensures
            final(self).wf(),
            Kernel::channel_set(*old(self), *final(self), c, old(self).channels@[c as int].put_spec(value)),
    {
        let mut chan = self.channels[c];
        chan.put(value);
        self.channels.set(c, chan);
        proof {
            assert forall|i: int| 0 <= i < self.tasks@.len() implies self.valid_task(#[trigger] self.tasks@[i]) by {
                assert(old(self).valid_task(old(self).tasks@[i]));
            }
            assert forall|p: int, s: int|
                0 <= p < self.cpools@.len() && 0 <= s < POOL_SLOTS
                    implies self.valid_cap(#[trigger] self.cpools@[p].object.slots@[s]) by {
                assert(old(self).valid_cap(old(self).cpools@[p].object.slots@[s]));
            }
            assert forall|t: int, m: int|
                0 <= t < self.tables@.len() && 0 <= m < self.tables@[t].mappings@.len()
                    implies self.valid_cap((#[trigger] self.tables@[t].mappings@[m]).1) by {
                assert(old(self).valid_cap(old(self).tables@[t].mappings@[m].1));
            }
        }
    }

    /// Decide whether to resume task `t` in this pass of the scheduler,
    /// delivering a channel value to it if it waits for one.
    pub fn poll_task(&mut self, t: usize) -> (r: bool)
        requires
            old(self).wf(),
            t < old(self).tasks@.len(),
        ensures
            final(self).wf(),
            Kernel::polled(*old(self), *final(self), t, r),
    {
        let task = self.tasks[t];
        proof { assert(self.valid_task(self.tasks@[t as int])); }
        match task.status {
            TaskStatus::Inactive => false,
            TaskStatus::Active => true,
            TaskStatus::ChannelWait(c) => {
                let b = match task.buffer {
                    Some(b) => b,
                    None => return false,
                };
                let mut buf = self.buffers[b];
                let ci = match buf.call {
                    Some(SystemCall::ChannelTake { channel_index, response: _ }) => channel_index,
                    _ => return false,
                };
                let mut chan = self.channels[c];
                let v = match chan.take() {
                    Some(v) => v,
                    None => return false,
                };
                self.channels.set(c, chan);
                buf.call = Some(SystemCall::ChannelTake { channel_index: ci, response: Some(v) });
                self.buffers.set(b, buf);
                let mut woken = task;
                woken.status = next_status(task.status, TaskEvent::ValueDelivered);
                self.tasks.set(t, woken);
                proof {
                    let o = old(self);
                    assert forall|i: int| 0 <= i < self.tasks@.len() implies self.valid_task(#[trigger] self.tasks@[i]) by {
                        assert(o.valid_task(o.tasks@[i]));
                    }
                    assert forall|p: int, s: int|
                        0 <= p < self.cpools@.len() && 0 <= s < POOL_SLOTS
                            implies self.valid_cap(#[trigger] self.cpools@[p].object.slots@[s]) by {
                        assert(o.valid_cap(o.cpools@[p].object.slots@[s]));
                    }
                    assert forall|tt: int, m: int|
                        0 <= tt < self.tables@.len() && 0 <= m < self.tables@[tt].mappings@.len()
                            implies self.valid_cap((#[trigger] self.tables@[tt].mappings@[m]).1) by {
                        assert(o.valid_cap(o.tables@[tt].mappings@[m].1));
                    }
                }
                true
            },
        }
    }

    /// Record the registers that task `t` left when it trapped.
    pub fn save_registers(&mut self, t: usize, instruction_pointer: usize, stack_pointer: usize)
        requires
            old(self).wf(),
            t < old(self).tasks@.len(),
        ensures
            final(self).wf(),
            Kernel::task_set(*old(self), *final(self), t, TaskHalf {
                instruction_pointer,
                stack_pointer,
                ..old(self).tasks@[t as int]
            }),
    {
        let mut task = self.tasks[t];
        proof { assert(self.valid_task(self.tasks@[t as int])); }
        task.instruction_pointer = instruction_pointer;
        task.stack_pointer = stack_pointer;
        self.set_task(t, task);
    }

    /// Deliver a byte read from the keyboard to the keyboard channel.
    pub fn keyboard_input(&mut self, byte: u8)
        requires
            old(self).wf(),
        ensures
            final(self).wf(),
            match old(self).keyboard {
                Some(k) => Kernel::channel_set(*old(self), *final(self), k, old(self).channels@[k as int].put_spec(byte as u64)),
                None => *final(self) == *old(self),
            },
    {
        if let Some(k) = self.keyboard {
            self.channel_put(k, byte as u64);
        }
    }

    /// Handle exception `e` with which task `t` gave control back: carry out
    /// its pending system call, or deliver a keyboard byte to the keyboard
    /// channel.
    pub fn handle_exception(&mut self, t: usize, e: Exception) -> (r: SyscallOutcome)
        requires
            old(self).wf(),
            t < old(self).tasks@.len(),
        ensures
            final(self).wf(),
            Kernel::exception_effect(*old(self), *final(self), t, e, r),
    {
        match e {
            Exception::SystemCall => {
                let task = self.tasks[t];
                proof { assert(self.valid_task(self.tasks@[t as int])); }
                match (task.cpool, task.buffer) {
                    (Some(p), Some(b)) => match self.buffers[b].call {
                        Some(call) => self.handle_system_call(t, p, call),
                        None => SyscallOutcome::Done,
                    },
                    _ => SyscallOutcome::Done,
                }
            },
            Exception::Keyboard(byte) => {
                self.keyboard_input(byte);
                SyscallOutcome::Done
            },
            Exception::Other => SyscallOutcome::Done,
        }
    }

    /// Map the page that `page` names at `vaddr` in top-level table `table`.
    pub fn map(&mut self, table: usize, vaddr: usize, page: CapabilityUnion)
        requires
            old(self).wf(),
            table < old(self).tables@.len(),
            old(self).valid_cap(page),
        ensures
            final(self).wf(),
            final(self).same_except(*old(self), set![CapKind::TopPageTable]),
            final(self).tables@.len() == old(self).tables@.len(),
            forall|t: int| 0 <= t < old(self).tables@.len() && t != table
                ==> #[trigger] final(self).tables@[t] == old(self).tables@[t],
            final(self).tables@[table as int].start_paddr == old(self).tables@[table as int].start_paddr,
            final(self).tables@[table as int].mappings@ == old(self).tables@[table as int].mappings@.push((vaddr, page)),
    {
        self.tables[table].map(vaddr, page);
        proof {
            let o = old(self);
            assert forall|t: int, m: int|
                0 <= t < self.tables@.len() && 0 <= m < self.tables@[t].mappings@.len()
                    implies self.valid_cap((#[trigger] self.tables@[t].mappings@[m]).1) by {
                if t != table || m < o.tables@[t].mappings@.len() {
                    assert(o.valid_cap(o.tables@[t].mappings@[m].1));
                }
            }
        }
    }

}

} // verus!
