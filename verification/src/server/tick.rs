//! The server tick, at which player states are sent out.

use vstd::prelude::*;

verus! {

/// Server tick rate in ticks per second.
pub const TICK_RATE: u32 = 10;

/// Interval between ticks in milliseconds: `1000 / TICK_RATE`.
pub const TICK_INTERVAL_MS: u64 = 100;

/// Whether the next tick is due, `elapsed_ms` milliseconds after the last.
pub fn tick_due(elapsed_ms: u64) -> (r: bool)
    ensures
        r == (elapsed_ms >= TICK_INTERVAL_MS),
{
    elapsed_ms >= TICK_INTERVAL_MS
}

} // verus!
