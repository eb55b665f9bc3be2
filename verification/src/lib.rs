//! Control core for a single-car elevator: the wire codec for hardware
//! events and commands, the SCAN request scheduler, the legal-command
//! transition state machine, and the pipeline that ties them together.
//! Transport, timing and task plumbing live outside this crate; the core
//! works on plain values and is verified.

pub mod codec;
pub mod context;
pub mod elevator;
pub mod pipeline;
pub mod scan;
pub mod sched_events;
pub mod transition;
