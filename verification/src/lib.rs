//! Wilson: the Johnny Castaway screensaver's data layer, runtime and host logic.
pub mod dgds;
pub mod engine;
pub mod host;
pub mod saver;

use vstd::prelude::*;

verus! {

/// Wall-clock duration of one engine tick, in milliseconds.
pub const MS_PER_TICK: u64 = 16;

} // verus!
