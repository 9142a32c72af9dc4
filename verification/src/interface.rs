//! The event model: the tagged record stored in the shared ring.
//!
//! Instruction-pointer values are carried as plain 64-bit integers (only the
//! low 48 bits are meaningful on the target); `tid` is the tracer-assigned
//! thread identifier, `None` for events recorded before the thread got one.

use vstd::prelude::*;

verus! {

/// Upper bound on the number of diverted returns a single thread can have in
/// flight; the per-thread shadow stack holds at most this many frames.
pub const MAX_STACK_HEIGHT: usize = 1000;

/// One slot of the event ring.
#[derive(Debug, Clone, Copy, PartialEq, Eq, Structural)]
pub enum Event {
    Empty,
    Entry(Call),
    Exit(Exit),
}

/// A function-entry record. `from` is the parent's return address, `to` the
/// callee entry address.
#[derive(Debug, Clone, Copy, PartialEq, Eq, Structural)]
pub struct Call {
    pub time: u64,
    pub from: u64,
    pub to: u64,
    pub tid: Option<u64>,
}

/// A function-exit record. `from` is the callee entry address of the
/// returning function.
#[derive(Debug, Clone, Copy, PartialEq, Eq, Structural)]
pub struct Exit {
    pub time: u64,
    pub from: u64,
    pub tid: Option<u64>,
}

} // verus!
