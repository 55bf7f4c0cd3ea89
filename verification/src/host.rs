//! Trusted boundary to the host: the wall clock and the source of random
//! lane draws. Each item wraps exactly one outside call; verified code
//! takes whatever comes back and decides from there.

use rand::Rng;
use vstd::prelude::*;

verus! {

/// Relies on chrono::Local::now and chrono::DateTime::timestamp_millis: the
/// current wall-clock moment as whole milliseconds since the Unix epoch.
/// The value depends on the machine's clock, so nothing is promised of it;
/// callers clamp it into the engine's representable range themselves.
#[verifier::external_body]
pub(crate) fn clock_now_ms() -> i64 {
    chrono::Local::now().timestamp_millis()
}

/// Relies on rand::Rng::gen_range on the thread-local generator: a
/// uniformly drawn value inside the given half-open range. `gen_range`
/// panics on an empty range, so the bound must be positive.
#[verifier::external_body]
pub(crate) fn random_below(bound: usize) -> (n: usize)
    requires
        1 <= bound,
    ensures
        n < bound,
{
    rand::thread_rng().gen_range(0..bound)
}

} // verus!
