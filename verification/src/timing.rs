//! The durations that the WS2812 datasheet fixes, and how clock ticks meet them.

use vstd::prelude::*;

verus! {

/// Duration of the short phase of a data bit, in nanoseconds.
pub const SHORT_NS: u32 = 400;

/// Duration of the long phase of a data bit, in nanoseconds.
pub const LONG_NS: u32 = 850;

/// Shortest low level that the LED takes as a reset, in microseconds.
pub const RESET_MIN_US: u32 = 50;

/// `ticks` periods of a clock running at `clock_khz` kHz last exactly `ns` nanoseconds.
pub open spec fn lasts_exactly_ns(ticks: int, clock_khz: int, ns: int) -> bool {
    ticks * 1_000_000 == ns * clock_khz
}

/// `ticks` periods of a clock running at `clock_khz` kHz last at least `us` microseconds.
pub open spec fn lasts_at_least_us(ticks: int, clock_khz: int, us: int) -> bool {
    ticks * 1_000 >= us * clock_khz
}

} // verus!
