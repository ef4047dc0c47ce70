//! Request types of the persistence contract ([`crate::RaftPersistent`]):
//! durable storage for term, vote and snapshot ranges. Partial operations
//! are resumable and idempotent: the same range may be requested again
//! after a crash and must yield the same outcome.

use vstd::prelude::*;
use crate::NodeId;

verus! {

/// Durably record the full hard state: current term and vote. The node
/// must not acknowledge a vote or an append before this completes.
#[derive(Clone, Copy, PartialEq, Eq, Debug)]
pub struct FullPersistent {
    pub term: u64,
    pub voted_for: Option<NodeId>,
}

/// Durably persist the log range between the (term, index) bounds `start`
/// and `end`, both inclusive.
#[derive(Clone, Copy, PartialEq, Eq, Debug)]
pub struct PartialPersistent {
    pub start: (u64, u64),
    pub end: (u64, u64),
}

/// Outcome of a partial persist: the range actually made durable, and
/// whether the requested range is complete.
#[derive(Clone, Copy, PartialEq, Eq, Debug)]
pub struct PartialPersistentResult {
    pub start: (u64, u64),
    pub end: (u64, u64),
    pub done: bool,
}

/// Load the log range between the (term, index) bounds `start` and `end`.
#[derive(Clone, Copy, PartialEq, Eq, Debug)]
pub struct LoadPersistent {
    pub start: (u64, u64),
    pub end: (u64, u64),
}

/// Entries loaded from durable storage, with the range they cover and
/// whether the requested range is complete.
pub struct LoadedPersistent {
    pub data: Vec<crate::node::LogEntry>,
    pub start: (u64, u64),
    pub end: (u64, u64),
    pub done: bool,
}

} // verus!
