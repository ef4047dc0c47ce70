//! A single-node Raft consensus core: leader election, log replication,
//! commit-index advancement, and snapshot-based log compaction.
//!
//! The core is a set of pure state-transition functions over [`node::RaftNode`].
//! Every inbound RPC, RPC response, and timer expiration is handled by one
//! function that takes the node state by `&mut` and returns the reply (or the
//! request to send). Durable storage, the network transport, and the applied
//! state machine are collaborators reached through the [`RaftLog`],
//! [`RaftPersistent`] and [`RaftNetwork`] contracts; the caller owns the event
//! loop and must serialize all calls that mutate one node's state.

use vstd::prelude::*;

pub mod log;
pub mod network;
pub mod node;
pub mod persistent;
pub mod election;
pub mod replication;
pub mod snapshot;
pub mod laws;

verus! {

/// A node is named by an integer identifier.
pub type NodeId = u64;

/// An endpoint is the identifier under which a peer is reached; the
/// transport maps it to an actual address.
pub type NodeEndpoint = u64;

/// Marker for the payload type carried by log entries. The core ships
/// payloads as opaque bytes; the application gives them meaning.
pub trait RaftDataType {

}

impl RaftDataType for Vec<u8> {

}

/// Marker for error types that collaborators may return.
pub trait RaftError {

}

/// The error taxonomy of the core. `PersistenceFailure` is fatal for the
/// operation that met it: the node must not acknowledge anything whose
/// durable write did not complete. The others are recoverable or are pure
/// rejections that change no state.
#[derive(Clone, Copy, PartialEq, Eq, Structural, Debug)]
pub enum RaftFault {
    PersistenceFailure,
    TransportFailure,
    StaleTerm,
    LogConflict,
    SnapshotTransferIncomplete,
}

impl RaftError for RaftFault {

}

impl RaftFault {
    /// A fault is recoverable when the protocol retries or resumes past it:
    /// transport faults are retried with the next scheduled send, log
    /// conflicts drive backtracking, and an incomplete snapshot transfer is
    /// resumed. A stale term is a pure rejection; a persistence failure must
    /// abort the acknowledgment.
    pub fn recoverable(&self) -> (r: bool)
        ensures
            r == (*self == RaftFault::TransportFailure || *self == RaftFault::LogConflict
                || *self == RaftFault::SnapshotTransferIncomplete),
    {
        match self {
            RaftFault::TransportFailure => true,
            RaftFault::LogConflict => true,
            RaftFault::SnapshotTransferIncomplete => true,
            RaftFault::PersistenceFailure => false,
            RaftFault::StaleTerm => false,
        }
    }
}

/// Transport contract: fire-and-await RPC send to a named peer for each of
/// the three request types. The transport promises nothing about the reply;
/// a transport error is recoverable and must never be treated as a protocol
/// rejection.
pub trait RaftNetwork<E: RaftError> {
    fn send_append_entries(&mut self, peer: NodeId, req: &network::AppendEntriesRequest) -> Result<
        network::AppendEntriesResponse,
        E,
    >;

    fn send_vote_request(&mut self, peer: NodeId, req: &network::VoteRequest) -> Result<
        network::VoteResponse,
        E,
    >;

    fn send_install_snapshot(
        &mut self,
        peer: NodeId,
        req: &network::InstallSnapshotRequest,
        chunk: &Vec<u8>,
    ) -> Result<network::InstallSnapshotResponse, E>;
}

/// Log store contract: an abstract durable sequence of log entries,
/// addressed by the request types of [`log`].
pub trait RaftLog<E: RaftError> {
    fn get(&self, q: &log::GetLog) -> Result<node::LogEntry, E>;

    fn save(&mut self, q: log::SaveLog) -> Result<(), E>;

    fn get_range(&self, q: &log::GetLogRange) -> Result<Vec<node::LogEntry>, E>;

    fn get_last(&self, q: &log::GetLastLog) -> Result<node::LogEntry, E>;
}

/// Persistence contract: abstract durable storage for the current term, the
/// vote, and snapshot state. Partial operations are range-addressed,
/// resumable and idempotent: the same range may be requested again after a
/// crash.
pub trait RaftPersistent<E: RaftError> {
    fn persist_full(&mut self, q: persistent::FullPersistent) -> Result<(), E>;

    fn persist_partial(&mut self, q: persistent::PartialPersistent) -> Result<
        persistent::PartialPersistentResult,
        E,
    >;

    fn load(&mut self, q: persistent::LoadPersistent) -> Result<persistent::LoadedPersistent, E>;
}

} // verus!
