//! A single-slot mailbox for communication between tasks and for delivering
//! hardware interrupts.
use vstd::prelude::*;
use crate::untyped::{aligned_start, PAddr, UntypedHalf};

verus! {

/// Bytes of untyped memory that a channel occupies.
pub const CHANNEL_SIZE: usize = 16;

/// Alignment of a channel in untyped memory.
pub const CHANNEL_ALIGN: usize = 8;

#[derive(Clone, Copy, Debug)]
pub struct ChannelHalf {
    pub start_paddr: PAddr,
    pub slot: Option<u64>,
}

impl ChannelHalf {
    /// Retype a channel out of `untyped`; its slot is empty. `None`, with
    /// `untyped` unchanged, when the region has no room.
    pub fn new(untyped: &mut UntypedHalf) -> (r: Option<ChannelHalf>)
        requires
            old(untyped).wf(),
        ensures
            final(untyped).wf(),
            final(untyped).start_paddr == old(untyped).start_paddr,
            final(untyped).length == old(untyped).length,
            r is Some <==> old(untyped).fits(CHANNEL_SIZE as int, CHANNEL_ALIGN as int),
            r is None ==> *final(untyped) == *old(untyped),
            r matches Some(c) ==> {
                &&& c.slot is None
                &&& c.start_paddr == aligned_start(old(untyped).watermark as int, CHANNEL_ALIGN as int)
                &&& c.start_paddr % CHANNEL_ALIGN == 0
                &&& old(untyped).watermark <= c.start_paddr
                &&& final(untyped).watermark == c.start_paddr + CHANNEL_SIZE
            },
    {
        match untyped.allocate(CHANNEL_SIZE, CHANNEL_ALIGN) {
            Some(a) => Some(ChannelHalf { start_paddr: a, slot: None }),
            None => None,
        }
    }

    /// The channel after `put(value)`.
    pub open spec fn put_spec(self, value: u64) -> ChannelHalf {
        ChannelHalf { slot: Some(value), ..self }
    }

    /// The channel after `take()`, and what `take()` returns.
    pub open spec fn take_spec(self) -> (ChannelHalf, Option<u64>) {
        (ChannelHalf { slot: None, ..self }, self.slot)
    }

    /// Store `value`, replacing any value not yet taken.
    pub fn put(&mut self, value: u64)
        ensures
            *final(self) == old(self).put_spec(value),
    {
        self.slot = Some(value);
    }

    /// Remove and return the stored value, if any.
    pub fn take(&mut self) -> (r: Option<u64>)
        ensures
            (*final(self), r) == old(self).take_spec(),
    {
        let r = self.slot;
        self.slot = None;
        r
    }
}

/// A `take` right after `put(v)` returns `v`, and a second `take` returns
/// nothing: the value is delivered exactly once.
pub proof fn lemma_put_then_take(c: ChannelHalf, v: u64)
    ensures
        c.put_spec(v).take_spec().1 == Some(v),
        c.put_spec(v).take_spec().0.take_spec().1 is None,
{
}

/// Of two `put`s with no `take` between them, only the second value is
/// taken.
pub proof fn lemma_put_twice_then_take(c: ChannelHalf, v: u64, w: u64)
    ensures
        c.put_spec(v).put_spec(w).take_spec().1 == Some(w),
        c.put_spec(v).put_spec(w).take_spec().0.take_spec().1 is None,
{
}

} // verus!
