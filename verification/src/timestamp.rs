//! Timestamps of events, in nanoseconds of the monotonic clock.
use vstd::prelude::*;

verus! {

/// The number of nanoseconds in a second.
pub const NANOS_PER_SEC: u64 = 1_000_000_000;

/// The timestamp, in nanoseconds, of a clock reading of `secs` seconds and
/// `subsec_nanos` nanoseconds; `None` when it does not fit in a `u64`.
pub fn timestamp_ns(secs: u64, subsec_nanos: u32) -> (r: Option<u64>)
    ensures
        r == (if secs * NANOS_PER_SEC + subsec_nanos <= u64::MAX {
            Some((secs * NANOS_PER_SEC + subsec_nanos) as u64)
        } else {
            None
        }),
{
    if secs > (u64::MAX - subsec_nanos as u64) / NANOS_PER_SEC {
        assert(secs * NANOS_PER_SEC + subsec_nanos > u64::MAX) by (nonlinear_arith)
            requires
                secs > (u64::MAX - subsec_nanos as u64) / 1_000_000_000,
                subsec_nanos <= u32::MAX,
        ;
        return None;
    }
    assert(secs * NANOS_PER_SEC + subsec_nanos <= u64::MAX) by (nonlinear_arith)
        requires
            secs <= (u64::MAX - subsec_nanos as u64) / 1_000_000_000,
            subsec_nanos <= u32::MAX,
    ;
    Some(secs * NANOS_PER_SEC + subsec_nanos as u64)
}

} // verus!
