//! Request types of the log store contract ([`crate::RaftLog`]): an
//! abstract durable sequence of entries addressed by (term, index).

use vstd::prelude::*;

verus! {

/// Fetch the entry at `index`; `term` names the term the caller expects
/// there, so a store may detect a stale read.
#[derive(Clone, Copy, PartialEq, Eq, Structural, Debug)]
pub struct GetLog {
    pub term: u64,
    pub index: u64,
}

/// Durably append or overwrite the entry at `index`.
pub struct SaveLog {
    pub term: u64,
    pub index: u64,
    pub data: Vec<u8>,
}

/// Fetch the entries between the (term, index) bounds `start` and `end`,
/// both inclusive.
#[derive(Clone, Copy, PartialEq, Eq, Debug)]
pub struct GetLogRange {
    pub start: (u64, u64),
    pub end: (u64, u64),
}

/// Fetch the last entry of the log.
#[derive(Clone, Copy, PartialEq, Eq, Structural, Debug)]
pub struct GetLastLog {

}

} // verus!
