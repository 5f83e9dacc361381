//! The request-count tracker: one per process, shared by every connection.
//! The count itself is a plain integer with an exact contract; the start
//! instant is an opaque clock value, read through trusted declarations.

use vstd::prelude::*;

verus! {

/// `std::time::Instant` is opaque to the verifier; it is declared here so a
/// start-of-process instant can be stored and later turned into an uptime.
#[verifier::external_type_specification]
#[verifier::external_body]
pub struct ExInstant(std::time::Instant);

/// Relies on `std::time::Instant::now`: a reading of the monotonic clock.
/// No contract can pin a clock value, so nothing is promised of it.
pub assume_specification[ std::time::Instant::now ]() -> std::time::Instant;

/// Relies on `std::time::Instant::elapsed`: the time since `i`. The value
/// depends on the clock, so nothing is promised of it.
pub assume_specification[ std::time::Instant::elapsed ](
    i: &std::time::Instant,
) -> std::time::Duration;

/// Relies on `std::time::Duration::as_secs`: the whole seconds of `d`.
/// The callers here need no arithmetic fact about the value.
pub assume_specification[ std::time::Duration::as_secs ](d: &std::time::Duration) -> u64;

/// Process-wide server statistics: how many requests have been dispatched,
/// and when the server started. The counter never decreases: the only
/// mutating method adds exactly one.
pub struct ServerStats {
    total_requests: u64,
    start_time: std::time::Instant,
}

impl ServerStats {
    /// The number of requests dispatched so far.
    pub closed spec fn total(&self) -> u64 {
        self.total_requests
    }

    pub fn new() -> (s: ServerStats)
        ensures
            s.total() == 0,
    {
        ServerStats { total_requests: 0, start_time: std::time::Instant::now() }
    }

    /// Counts one more dispatched request: adds exactly one, so no call is
    /// lost and none is counted twice.
    pub fn increment_requests(&mut self)
        requires
            old(self).total() < u64::MAX,
        ensures
            final(self).total() == old(self).total() + 1,
    {
        self.total_requests = self.total_requests + 1;
    }

    pub fn get_total_requests(&self) -> (n: u64)
        ensures
            n == self.total(),
    {
        self.total_requests
    }

    /// Whole seconds since the tracker was created, read from the clock.
    /// A clock reading cannot be pinned by a contract; callers treat any
    /// value alike.
    pub fn get_uptime_seconds(&self) -> u64 {
        self.start_time.elapsed().as_secs()
    }

    /// A point-in-time reading of both statistics: the exact request count
    /// so far, and the clock's uptime.
    pub fn snapshot(&self) -> (r: (u64, u64))
        ensures
            r.0 == self.total(),
    {
        (self.get_total_requests(), self.get_uptime_seconds())
    }
}

} // verus!
