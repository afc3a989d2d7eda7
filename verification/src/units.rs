//! Fixed-point units used throughout the engine.
//!
//! A timestamp is a count of microsecond ticks since the source's epoch; a
//! sample value is a count of micro-units (one millionth of the display's
//! vertical unit). Both are `i64`, bounded well inside the representable
//! range so that the arithmetic of the engine never overflows.

use vstd::prelude::*;

verus! {

/// Number of ticks in one second of stream time.
pub const TICKS_PER_SECOND: i64 = 1_000_000;

/// Largest timestamp the engine accepts, in ticks.
pub const MAX_TICKS: i64 = 1_000_000_000_000_000_000;

/// Largest display window the engine accepts, in ticks (one day).
pub const MAX_WINDOW_TICKS: i64 = 86_400_000_000;

/// Largest magnitude of a sample value or baseline, in micro-units.
pub const MAX_ABS_VALUE: i64 = 1_000_000_000_000;

/// Largest vertical scale factor.
pub const MAX_SCALE: i64 = 1_000;

/// Divisor applied to the scaled, baseline-corrected value before display.
pub const SCALE_DIVISOR: i64 = 10_000;

/// Vertical extent of one channel slot, in micro-units.
pub const SLOT_UNIT: i64 = 1_000_000;

/// Largest number of channels the engine accepts.
pub const MAX_CHANNELS: usize = 1_000_000;

/// A timestamp that the engine can do window arithmetic on.
pub open spec fn valid_ts(ts: i64) -> bool {
    0 <= ts <= MAX_TICKS
}

/// A window width that the engine can do window arithmetic on.
pub open spec fn valid_window(w: i64) -> bool {
    1 <= w <= MAX_WINDOW_TICKS
}

/// A sample value or baseline within the representable vertical range.
pub open spec fn valid_value(v: i64) -> bool {
    -MAX_ABS_VALUE <= v <= MAX_ABS_VALUE
}

/// A vertical scale factor within the accepted range.
pub open spec fn valid_scale(s: i64) -> bool {
    1 <= s <= MAX_SCALE
}

} // verus!
