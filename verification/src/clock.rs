//! Monotonic time stamps for profiling scopes.
use vstd::prelude::*;
use std::time::{Duration, Instant};

verus! {

/// `std::time::Instant`, carried through as an opaque value.
#[verifier::external_type_specification]
#[verifier::external_body]
pub struct ExInstant(Instant);

/// Calls `Instant::now`. The reading depends on the clock, so nothing is
/// stated of it.
#[verifier::external_body]
pub(crate) fn now() -> (t: Instant) {
    Instant::now()
}

/// Calls `Instant::elapsed`. The reading depends on the clock, so nothing
/// is stated of it.
#[verifier::external_body]
fn elapsed(start: &Instant) -> (d: Duration) {
    start.elapsed()
}

/// Calls `Duration::as_nanos`: a duration is at most `Duration::MAX`, so its
/// whole nanoseconds are at most that many.
#[verifier::external_body]
fn as_nanos(d: &Duration) -> (n: u128)
    ensures
        n <= duration_max_nanos(),
{
    d.as_nanos()
}

/// Nanoseconds since `start`, by the clock.
pub(crate) fn elapsed_nanos(start: &Instant) -> (n: u128)
    ensures
        n <= duration_max_nanos(),
{
    let d = elapsed(start);
    as_nanos(&d)
}

/// `Duration::MAX` expressed in nanoseconds.
pub open spec fn duration_max_nanos() -> nat {
    18446744073709551615 * 1_000_000_000 + 999_999_999
}

} // verus!
