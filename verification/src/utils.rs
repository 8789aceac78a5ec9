//! Helpers around the pipeline.

use crate::clock::{days_in, days_since_epoch};
use crate::interpreter::{lunar_compatible, lunar_compatible_on};
use vstd::prelude::*;

verus! {

/// Determines if the current time is right for a lunar phase operation: on
/// the days thirteen to seventeen of the cycle of thirty days that the system
/// clock is in.
pub fn is_lunar_phase_compatible() -> (compatible: bool)
    ensures
        exists|seconds: u64| compatible == lunar_compatible(#[trigger] days_in(seconds)),
{
    let days = days_since_epoch();
    let ghost seconds = choose|seconds: u64| days == days_in(seconds);
    let compatible = lunar_compatible_on(days);
    assert(compatible == lunar_compatible(days_in(seconds)));
    compatible
}

} // verus!
