//! Recording-orchestration core: scheduling, per-job supervision, and
//! storage reclamation for a channel-capture engine.
//!
//! The library keeps the schedule/recording state, decides which schedules
//! are due, classifies the outcome of capture processes, and plans disk
//! eviction passes. Process spawning, the filesystem, and timers live in
//! the surrounding application; everything here is pure state and decisions,
//! verified against the contracts below.

use vstd::prelude::*;

pub mod cleanup;
pub mod conflict;
pub mod models;
pub mod resolver;
pub mod scheduler;
pub mod store;
pub mod supervisor;
pub mod text;

verus! {

/// Default seconds of capture started before a program's nominal start.
pub const DEFAULT_START_PADDING_SEC: i32 = 60;

/// Default seconds of capture kept after a program's nominal end.
pub const DEFAULT_END_PADDING_SEC: i32 = 300;

pub fn default_start_padding() -> (r: i32)
    ensures
        r == DEFAULT_START_PADDING_SEC,
{
    DEFAULT_START_PADDING_SEC
}

pub fn default_end_padding() -> (r: i32)
    ensures
        r == DEFAULT_END_PADDING_SEC,
{
    DEFAULT_END_PADDING_SEC
}

} // verus!
