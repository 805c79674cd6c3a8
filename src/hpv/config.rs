use std::time::Duration;
use vstd::prelude::*;

verus! {

/// Relies on `std::time::Duration::from_secs`: a span of `secs` seconds.
#[verifier::external_body]
fn seconds(secs: u64) -> Duration {
    Duration::from_secs(secs)
}

/// The protocol's tunable parameters.
#[derive(Clone, Copy)]
pub struct Config {
    /// Capacity of the active view.
    pub max_active_view_size: usize,
    /// Capacity of the passive view.
    pub max_passive_view_size: usize,
    /// Hops that a join walks before the joining peer must be taken in.
    pub active_rwl: usize,
    /// Hop count at which a forwarded join is also offered to the passive view.
    pub passive_rwl: usize,
    /// Hops that a shuffle walks.
    pub shuffle_rwl: usize,
    /// How many active peers a shuffle carries.
    pub shuffle_active: usize,
    /// How many passive peers a shuffle carries.
    pub shuffle_passive: usize,
    /// Time between two shuffles that this node starts.
    pub shuffle_interval: Duration,
}

impl Config {
    /// Views of four peers each, joins walking three hops (offered to the
    /// passive view at the second), one-hop shuffles of two active and two
    /// passive peers every thirty seconds.
    pub fn default() -> (r: Config)
        ensures
            r.max_active_view_size == 4,
            r.max_passive_view_size == 4,
            r.active_rwl == 3,
            r.passive_rwl == 2,
            r.shuffle_rwl == 1,
            r.shuffle_active == 2,
            r.shuffle_passive == 2,
    {
        Config {
            max_active_view_size: 4,
            max_passive_view_size: 4,
            active_rwl: 3,
            passive_rwl: 2,
            shuffle_rwl: 1,
            shuffle_active: 2,
            shuffle_passive: 2,
            shuffle_interval: seconds(30),
        }
    }
}

} // verus!
