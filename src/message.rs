//! Messages exchanged between components, and explicit clean-up.
use vstd::prelude::*;

use crate::uuid4::UUID4;

verus! {

/// A message with its identifier and timestamps in UNIX nanoseconds.
#[derive(Clone, Copy, Debug)]
pub enum Message {
    Command { id: UUID4, ts_init: u64 },
    Document { id: UUID4, ts_init: u64 },
    Event { id: UUID4, ts_init: u64, ts_event: u64 },
    Request { id: UUID4, ts_init: u64 },
    Response { id: UUID4, ts_init: u64, correlation_id: UUID4 },
}

/// Clean-up that may run before a value is dropped: releasing outside
/// resources and breaking reference cycles.
pub trait CleanDrop {
    fn clean_drop(&mut self);
}

} // verus!
