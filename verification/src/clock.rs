//! The machine's clock: what the library takes from `std::time`.

use std::time::{Duration, Instant};
use vstd::prelude::*;

verus! {

/// A reading of the machine's monotonic clock. Nothing is known of what it
/// holds.
#[verifier::external_type_specification]
#[verifier::external_body]
pub struct ExInstant(Instant);

/// The length of a duration in nanoseconds.
pub uninterp spec fn duration_nanos(d: Duration) -> u128;

/// `Duration::as_nanos` returns the length of the duration in nanoseconds,
/// which depends on the duration alone.
pub assume_specification[ Duration::as_nanos ](d: &Duration) -> (n: u128)
    ensures
        n == duration_nanos(*d),
;

/// `Duration::new` makes the duration of `secs` whole seconds and `nanos`
/// nanoseconds more. It panics if the seconds that the nanoseconds carry
/// over do not fit with the seconds given, which `requires` leaves out.
pub assume_specification[ Duration::new ](secs: u64, nanos: u32) -> (d: Duration)
    requires
        secs + nanos / 1_000_000_000 <= u64::MAX,
    ensures
        duration_nanos(d) == secs * 1_000_000_000 + nanos,
;

/// `Instant::now` reads the monotonic clock. Nothing is claimed of the
/// reading.
pub assume_specification[ Instant::now ]() -> Instant
;

/// `Instant::saturating_duration_since` returns the time that has passed on
/// the monotonic clock from `earlier` to the reading, or a duration of zero
/// if `earlier` is the later of the two; it does not panic. Nothing is
/// claimed of the duration.
pub assume_specification[ Instant::saturating_duration_since ](i: &Instant, earlier: Instant) -> Duration
;

} // verus!
