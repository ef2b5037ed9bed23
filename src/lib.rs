//! The privileged core of a capability-based microkernel: untyped memory
//! regions, the retype protocol, capability pools, tasks, channels and the
//! scheduler / system-call dispatcher, all verified with Verus.
use vstd::prelude::*;

pub mod untyped;
pub mod boot;
pub mod cap;
pub mod channel;
pub mod kernel;
pub mod page;
pub mod task;

verus! {

} // verus!
