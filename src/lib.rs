//! Peer sampling membership (HyParView): a bounded set with priority-aware
//! merging, and the protocol state machine that keeps an active and a
//! passive view of the overlay.
pub mod bounded_set;
pub mod hpv;
