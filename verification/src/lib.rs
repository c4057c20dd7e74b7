//! Core of a single-threaded completion-based I/O driver.
//!
//! The crate verifies the operation lifecycle engine: normalization of raw
//! completion entries, the per-request state machine, the dense table of
//! in-flight slots, the timer wheel with its batched operation log, and the
//! bookkeeping of the provided-buffer ring. The kernel ring itself, wakers and
//! futures live outside the verified core and drive it through plain values.

pub mod accept;
pub mod bufring;
pub mod cqe;
pub mod driver;
pub mod slots;
pub mod state;
pub mod timeout;
pub mod timer;
pub mod write;
