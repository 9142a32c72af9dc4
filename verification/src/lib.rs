//! Function-granularity execution tracer core: an event ring fed by an
//! `mcount`-style entry hook and a return trampoline, and a dump engine that
//! serializes the ring into the on-disk format consumed by the `uftrace` tool.
//!
//! The hook and trampoline themselves are target-specific assembly stubs; the
//! decision logic they call into, the ring and shadow-stack bookkeeping, and
//! the serialization are implemented and verified here. File I/O is left to
//! the embedding program.

pub mod backend;
pub mod codec;
pub mod frontend;
pub mod history;
pub mod interface;
