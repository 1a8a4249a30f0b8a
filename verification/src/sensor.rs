//! The sensor poll step: the one decision the sensor loop makes on every
//! poll of the digital input.

use vstd::prelude::*;

verus! {

/// A detection observed by the sensor loop. Consumed at most once per
/// controller tick.
#[derive(Clone, Copy, PartialEq, Eq, Structural, Debug)]
pub enum SensorEvent {
    MotionDetected,
}

/// One sensor poll: while the monitored condition holds, the indicator
/// output is driven high and exactly one detection is emitted for this
/// poll; otherwise the indicator is cleared and nothing is emitted.
///
/// Emitting on every poll, not only on edges, is deliberate: the
/// controller consumes at most one event per tick and drains the rest, so
/// duplicates are harmless, while an edge missed between polls would not be.
pub fn poll_step(condition_active: bool) -> (r: (bool, Option<SensorEvent>))
    ensures
        r.0 == condition_active,
        r.1 == (if condition_active {
            Some(SensorEvent::MotionDetected)
        } else {
            None::<SensorEvent>
        }),
{
    if condition_active {
        (true, Some(SensorEvent::MotionDetected))
    } else {
        (false, None)
    }
}

} // verus!
