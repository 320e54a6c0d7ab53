//! The bridge between Max-Age seconds and `core::time::Duration`, whose
//! methods vstd leaves unspecified.

use vstd::prelude::*;

use core::time::Duration;

verus! {

/// The duration of a whole number of seconds. `Duration::from_secs` is a
/// function of its argument alone, so its result carries this name.
pub uninterp spec fn duration_of_secs(s: u64) -> Duration;

/// Relies on `core::time::Duration::from_secs`: a duration of exactly the
/// given number of seconds.
#[verifier::external_body]
pub fn duration_from_secs(secs: u64) -> (r: Duration)
    ensures
        r == duration_of_secs(secs),
{
    Duration::from_secs(secs)
}

/// Relies on `core::time::Duration::as_secs`: the whole seconds of a
/// duration. On a duration made by `Duration::from_secs(s)` it returns
/// `s` again.
#[verifier::external_body]
pub fn duration_whole_secs(d: &Duration) -> (r: u64)
    ensures
        forall|s: u64| *d == duration_of_secs(s) ==> r == s,
{
    d.as_secs()
}

} // verus!
