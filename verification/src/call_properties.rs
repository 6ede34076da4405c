//! Properties of a method call.
use std::time::Duration;
use vstd::prelude::*;

verus! {

/// The duration of the given number of whole seconds.
pub uninterp spec fn duration_of_secs(secs: u64) -> Duration;

#[verifier::external_body]
/// Calls `std::time::Duration::from_secs`, which builds the duration of `secs`
/// whole seconds; the contract names that duration.
fn duration_secs(secs: u64) -> (d: Duration)
    ensures
        d == duration_of_secs(secs),
{
    Duration::from_secs(secs)
}

/// How a call is made: how long to wait for the reply.
pub struct CallProperties {
    pub timeout: Duration,
}

impl Default for CallProperties {
    /// A call waits one second.
    fn default() -> (p: Self)
        ensures
            p.timeout == duration_of_secs(1),
    {
        CallProperties { timeout: duration_secs(1) }
    }
}

impl CallProperties {
    /// A call that waits `timeout` for its reply.
    pub fn with_timeout(timeout: Duration) -> (p: Self)
        ensures
            p.timeout == timeout,
    {
        Self { timeout }
    }
}

} // verus!
