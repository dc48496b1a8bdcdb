//! Line framing and liveness bookkeeping for a child process whose merged
//! output is drained by polling.
//!
//! The crate holds the decisions of one poll cycle and leaves the operating
//! system to its caller: bytes read from the pipe come in as plain values,
//! completed lines go out in arrival order, and the child's exit status is
//! latched once it has been seen.

pub mod delivery;
pub mod framer;
pub mod framing;
pub mod reading;
pub mod session;
pub mod status;
pub mod text;
