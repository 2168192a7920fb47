//! Membership core of a SWIM-style gossip failure detector.
//!
//! - `member`: the member record, the health lattice, and the list that
//!   reconciles health rumors received from peers.
//! - `rumor`: keys of rumors and the log from which they are spread.
//! - `detector`: the decisions of the failure detector's probe rounds.

pub mod detector;
pub mod member;
pub mod rumor;
