use std::time::Duration;
use vstd::prelude::*;

verus! {

/// The longest time to live or time to idle a cache accepts: one thousand
/// years of 365 days, in nanoseconds.
pub const MAX_LIFETIME_NANOS: u128 = 1000 * 365 * 24 * 3600 * 1_000_000_000;

/// The number of nanoseconds a `Duration` spans.
pub uninterp spec fn nanos_of(d: Duration) -> nat;

/// Relies on `Duration::as_nanos`: the total number of whole nanoseconds
/// contained by the duration, which always fits in a `u128`.
#[verifier::external_body]
pub(crate) fn duration_nanos(d: &Duration) -> (r: u128)
    ensures
        r == nanos_of(*d),
{
    d.as_nanos()
}

/// Whether a lifetime is longer than the longest accepted one.
pub open spec fn exceeds_max_lifetime(nanos: nat) -> bool {
    nanos > MAX_LIFETIME_NANOS
}

} // verus!
