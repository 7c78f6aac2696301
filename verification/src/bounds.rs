//! Keeping a number within bounds.

use vstd::prelude::*;

verus! {

/// `value` brought into the range from `low` to `high`.
pub open spec fn spec_clamp(value: int, low: int, high: int) -> int {
    if value < low {
        low
    } else if value > high {
        high
    } else {
        value
    }
}

/// `value` brought into the range from `low` to `high`.
pub fn clamp(value: i32, low: i32, high: i32) -> (clamped: i32)
    requires
        low <= high,
    ensures
        clamped == spec_clamp(value as int, low as int, high as int),
        low <= clamped <= high,
{
    if value < low {
        low
    } else if value > high {
        high
    } else {
        value
    }
}

} // verus!
