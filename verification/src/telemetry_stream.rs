//! Telemetry stream — the direction of a metric's recent movement.

use vstd::prelude::*;

verus! {

/// The direction of a metric series.
#[derive(Debug, Clone, Copy, PartialEq, Eq, Structural)]
pub enum Trend {
    Rising,
    Falling,
    Flat,
}

} // verus!
