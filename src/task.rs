//! Tasks: execution contexts with a status state machine, and the system
//! calls that tasks issue through their buffer page.
use vstd::prelude::*;
use crate::untyped::{aligned_start, PAddr, UntypedHalf};

verus! {

/// Bytes of untyped memory that a task occupies.
pub const TASK_SIZE: usize = 128;

/// Alignment of a task in untyped memory.
pub const TASK_ALIGN: usize = 8;

/// Bytes that a `Print` request carries at most.
pub const PRINT_LENGTH: usize = 32;

/// Where a task stands: skipped, run, or parked until the channel with the
/// given handle holds a value.
#[derive(Clone, Copy, Debug, PartialEq, Eq, Structural)]
pub enum TaskStatus {
    Inactive,
    Active,
    ChannelWait(usize),
}

/// What may move a task from one status to another.
#[derive(Clone, Copy, Debug, PartialEq, Eq, Structural)]
pub enum TaskEvent {
    /// The `TaskSetActive` system call.
    SetActive,
    /// The `TaskSetInactive` system call.
    SetInactive,
    /// The `ChannelTake` system call on the channel with the given handle.
    ChannelTake(usize),
    /// The scheduler took a value out of the channel that the task waits on.
    ValueDelivered,
}

/// The transitions of the task state machine: `to` is reached from `from`
/// on `event`.
pub open spec fn listed_transition(from: TaskStatus, event: TaskEvent, to: TaskStatus) -> bool {
    match (from, event) {
        (TaskStatus::Inactive, TaskEvent::SetActive) => to == TaskStatus::Active,
        (TaskStatus::Active, TaskEvent::SetInactive) => to == TaskStatus::Inactive,
        (TaskStatus::Active, TaskEvent::ChannelTake(c)) => to == TaskStatus::ChannelWait(c),
        (TaskStatus::ChannelWait(_), TaskEvent::ValueDelivered) => to == TaskStatus::Active,
        _ => false,
    }
}

/// The status after `event`: the listed transition if there is one, else the
/// status unchanged.
pub open spec fn next_status_spec(from: TaskStatus, event: TaskEvent) -> TaskStatus {
    match (from, event) {
        (TaskStatus::Inactive, TaskEvent::SetActive) => TaskStatus::Active,
        (TaskStatus::Active, TaskEvent::SetInactive) => TaskStatus::Inactive,
        (TaskStatus::Active, TaskEvent::ChannelTake(c)) => TaskStatus::ChannelWait(c),
        (TaskStatus::ChannelWait(_), TaskEvent::ValueDelivered) => TaskStatus::Active,
        _ => from,
    }
}

pub fn next_status(from: TaskStatus, event: TaskEvent) -> (r: TaskStatus)
    ensures
        r == next_status_spec(from, event),
{
    match (from, event) {
        (TaskStatus::Inactive, TaskEvent::SetActive) => TaskStatus::Active,
        (TaskStatus::Active, TaskEvent::SetInactive) => TaskStatus::Inactive,
        (TaskStatus::Active, TaskEvent::ChannelTake(c)) => TaskStatus::ChannelWait(c),
        (TaskStatus::ChannelWait(_), TaskEvent::ValueDelivered) => TaskStatus::Active,
        _ => from,
    }
}

/// The status after each event of `events` in turn, starting from `from`.
pub open spec fn run_events(from: TaskStatus, events: Seq<TaskEvent>) -> TaskStatus
    decreases events.len(),
{
    if events.len() == 0 {
        from
    } else {
        next_status_spec(run_events(from, events.drop_last()), events.last())
    }
}

/// Every change of status is a listed transition.
pub proof fn lemma_only_listed_transitions(from: TaskStatus, event: TaskEvent)
    ensures
        next_status_spec(from, event) == from
            || listed_transition(from, event, next_status_spec(from, event)),
{
}

/// Along any run of events, each change of status is a listed transition.
pub proof fn lemma_run_changes_are_listed(events: Seq<TaskEvent>, from: TaskStatus, i: int)
    requires
        0 <= i < events.len(),
    ensures
        ({
            let before = run_events(from, events.take(i));
            let after = run_events(from, events.take(i + 1));
            after == before || listed_transition(before, events[i], after)
        }),
{
    assert(events.take(i + 1).drop_last() =~= events.take(i));
    assert(events.take(i + 1).last() == events[i]);
}

/// Whatever events come, a task enters `ChannelWait(c)` only on the
/// `ChannelTake(c)` event, from `Active`.
pub proof fn lemma_channel_wait_only_by_take(events: Seq<TaskEvent>, from: TaskStatus, i: int, c: usize)
    requires
        0 <= i < events.len(),
        run_events(from, events.take(i + 1)) == TaskStatus::ChannelWait(c),
        run_events(from, events.take(i)) != TaskStatus::ChannelWait(c),
    ensures
        events[i] == TaskEvent::ChannelTake(c),
        run_events(from, events.take(i)) == TaskStatus::Active,
{
    assert(events.take(i + 1).drop_last() =~= events.take(i));
    assert(events.take(i + 1).last() == events[i]);
}

/// The system calls that a task issues through its buffer page. Indices are
/// slots of the calling task's capability pool.
#[derive(Clone, Copy, Debug)]
pub enum SystemCall {
    Print { bytes: [u8; PRINT_LENGTH], len: usize },
    CPoolListDebug,
    RetypeCPool { src_index: usize, dst_index: usize },
    RetypeTask { src_index: usize, dst_index: usize },
    TaskSetInstructionPointer { task_index: usize, vaddr: usize },
    TaskSetStackPointer { task_index: usize, vaddr: usize },
    TaskSetCPool { task_index: usize, cpool_index: usize },
    TaskSetTopPageTable { task_index: usize, table_index: usize },
    TaskSetBuffer { task_index: usize, buffer_index: usize },
    TaskSetActive { task_index: usize },
    TaskSetInactive { task_index: usize },
    ChannelTake { channel_index: usize, response: Option<u64> },
    ChannelPut { channel_index: usize, value: u64 },
}

/// An execution context. `cpool`, `top_page_table` and `buffer` are handles
/// of the task's capability pool, address space and buffer page.
#[derive(Clone, Copy, Debug)]
pub struct TaskHalf {
    pub start_paddr: PAddr,
    pub instruction_pointer: usize,
    pub stack_pointer: usize,
    pub status: TaskStatus,
    pub cpool: Option<usize>,
    pub top_page_table: Option<usize>,
    pub buffer: Option<usize>,
}

impl TaskHalf {
    /// Whether the task is as retyping leaves it: every field zero or absent.
    pub open spec fn is_fresh(self) -> bool {
        &&& self.instruction_pointer == 0
        &&& self.stack_pointer == 0
        &&& self.status == TaskStatus::Inactive
        &&& self.cpool is None
        &&& self.top_page_table is None
        &&& self.buffer is None
    }

    /// Retype a task out of `untyped`, inactive and with nothing attached.
    /// `None`, with `untyped` unchanged, when the region has no room.
    pub fn new(untyped: &mut UntypedHalf) -> (r: Option<TaskHalf>)
        requires
            old(untyped).wf(),
        ensures
            final(untyped).wf(),
            final(untyped).start_paddr == old(untyped).start_paddr,
            final(untyped).length == old(untyped).length,
            r is Some <==> old(untyped).fits(TASK_SIZE as int, TASK_ALIGN as int),
            r is None ==> *final(untyped) == *old(untyped),
            r matches Some(t) ==> {
                &&& t.is_fresh()
                &&& t.start_paddr == aligned_start(old(untyped).watermark as int, TASK_ALIGN as int)
                &&& t.start_paddr % TASK_ALIGN == 0
                &&& old(untyped).watermark <= t.start_paddr
                &&& final(untyped).watermark == t.start_paddr + TASK_SIZE
            },
    {
        match untyped.allocate(TASK_SIZE, TASK_ALIGN) {
            Some(a) => Some(
                TaskHalf {
                    start_paddr: a,
                    instruction_pointer: 0,
                    stack_pointer: 0,
                    status: TaskStatus::Inactive,
                    cpool: None,
                    top_page_table: None,
                    buffer: None,
                },
            ),
            None => None,
        }
    }

    /// Move the task's status on `event`, as the state machine allows.
    pub fn apply_event(&mut self, event: TaskEvent)
        ensures
            *final(self) == (TaskHalf { status: next_status_spec(old(self).status, event), ..*old(self) }),
    {
        self.status = next_status(self.status, event);
    }
}

} // verus!
