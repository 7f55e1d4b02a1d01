//! The few facts about `Duration` that the library relies on.

use core::time::Duration;
use vstd::prelude::*;

verus! {

/// What `Duration::as_nanos` returns: the whole length of a duration in
/// nanoseconds.
pub uninterp spec fn duration_nanos(d: Duration) -> u128;

/// `Duration::as_nanos`. Claimed: the result is `duration_nanos(*d)`.
#[verifier::external_body]
pub(crate) fn duration_as_nanos(d: &Duration) -> (res: u128)
    ensures
        res == duration_nanos(*d),
{
    d.as_nanos()
}

/// `Duration::from_secs`. Claimed, as its documentation states: the duration
/// is `secs` whole seconds long, that is `secs * 10^9` nanoseconds.
#[verifier::external_body]
pub(crate) fn duration_from_secs(secs: u64) -> (res: Duration)
    ensures
        duration_nanos(res) == secs * 1_000_000_000,
{
    Duration::from_secs(secs)
}

/// `Duration::from_nanos`. Claimed, as its documentation states: the
/// duration is `nanos` nanoseconds long.
#[verifier::external_body]
pub(crate) fn duration_from_nanos(nanos: u64) -> (res: Duration)
    ensures
        duration_nanos(res) == nanos,
{
    Duration::from_nanos(nanos)
}

} // verus!
