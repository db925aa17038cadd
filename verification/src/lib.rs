//! Incremental-build scheduling core for an interactive code-intelligence
//! backend: a two-slot priority build queue with request coalescing, a cached
//! build plan for incremental rebuild decisions, dirty-file tracking, and the
//! environment-override bookkeeping needed when external invocations mutate
//! process-global state.

pub mod actions;
pub mod assoc;
pub mod cargo;
pub mod cmd;
pub mod dirty;
pub mod environment;
pub mod plan;
pub mod queue;

pub use queue::{BuildPriority, BuildQueue, BuildResult};
