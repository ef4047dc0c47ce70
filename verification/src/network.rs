//! RPC message contracts: the three request/response pairs exchanged
//! between peers. Wire encoding is out of scope; these carry the field
//! semantics only.

use vstd::prelude::*;
use crate::NodeEndpoint;
use crate::node::LogEntry;

verus! {

/// Sent by a leader to replicate entries and to assert authority
/// (a heartbeat is the same request with an empty batch).
/// `prev_log_index`/`prev_log_term` describe the entry immediately
/// preceding the batch; the follower rejects the request unless its own
/// log matches there. `leader_commit` carries the leader's commit index so
/// followers can advance their own.
pub struct AppendEntriesRequest {
    pub leader_endpoint: NodeEndpoint,
    pub term: u64,
    pub prev_log_index: u64,
    pub prev_log_term: u64,
    pub leader_commit: u64,
    pub entries: Vec<LogEntry>,
}

/// `success` reports the consistency check. On failure, `conflict_term` is
/// the term of the follower's conflicting entry and `conflict_index` the
/// first index the follower holds at that term, letting the leader skip
/// back in one round trip; both are zero on success or when the follower's
/// log is simply too short.
#[derive(Clone, Copy, PartialEq, Eq, Structural, Debug)]
pub struct AppendEntriesResponse {
    pub term: u64,
    pub success: bool,
    pub conflict_index: u64,
    pub conflict_term: u64,
}

/// Sent by a candidate to solicit a vote. `last_log_index`/`last_log_term`
/// describe the candidate's last entry for the up-to-date check.
#[derive(Clone, Copy, PartialEq, Eq, Structural, Debug)]
pub struct VoteRequest {
    pub candidate_endpoint: NodeEndpoint,
    pub term: u64,
    pub last_log_index: u64,
    pub last_log_term: u64,
}

/// The voter reports its own last log position together with the grant.
#[derive(Clone, Copy, PartialEq, Eq, Structural, Debug)]
pub struct VoteResponse {
    pub last_log_index: u64,
    pub last_log_term: u64,
    pub vote_granted: bool,
}

/// One chunk of a snapshot transfer. `start_log` and `end_log` are
/// (term, index) pairs bounding the compacted range; `total` is the chunk
/// count of the whole transfer and `sent` the 1-based number of this chunk.
/// The chunk bytes travel beside the request through the persistence layer.
#[derive(Clone, Copy, PartialEq, Eq, Debug)]
pub struct InstallSnapshotRequest {
    pub leader_endpoint: NodeEndpoint,
    pub term: u64,
    pub start_log: (u64, u64),
    pub end_log: (u64, u64),
    pub total: u64,
    pub sent: u64,
}

/// `received` is the receiver's count of contiguously held chunks; a
/// resumed transfer continues at `received + 1`.
#[derive(Clone, Copy, PartialEq, Eq, Structural, Debug)]
pub struct InstallSnapshotResponse {
    pub success: bool,
    pub received: u64,
}

} // verus!
