//! The time source: milliseconds since boot, from `embassy_time`.

use vstd::prelude::*;

verus! {

/// `embassy_time::Instant::now().as_millis()`: the milliseconds since boot.
/// This crate runs `embassy_time` with its `std` driver, whose tick rate is
/// 1 MHz; `as_millis` then divides the tick count by 1000, so the result is
/// at most `u64::MAX / 1000`. That bound is all that is stated: the value
/// itself is the clock's.
#[verifier::external_body]
pub(crate) fn now_millis() -> (ms: u64)
    ensures
        ms <= u64::MAX / 1000,
{
    embassy_time::Instant::now().as_millis()
}

} // verus!
