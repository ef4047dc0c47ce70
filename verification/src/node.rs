//! The state of one Raft participant and its well-formedness invariant.
//!
//! A node's log is held as a contiguous run of entries after the snapshot
//! horizon: the entry at vector position `j` carries the global log index
//! `snapshot.last_included_index + j + 1`. Global indices are 1-based;
//! index 0 names the empty log position and term 0 the empty term.

use vstd::prelude::*;
use crate::NodeId;

verus! {

/// The role of a node.
#[derive(Clone, Copy, PartialEq, Eq, Structural, Debug)]
pub enum RaftNodeType {
    Follower,
    Candidate,
    Leader,
}

impl Default for RaftNodeType {
    fn default() -> (r: Self)
        ensures
            r == RaftNodeType::Follower,
    {
        RaftNodeType::Follower
    }
}

impl RaftNodeType {
    /// The printable name of the role.
    pub fn label(&self) -> (r: &'static str)
        ensures
            *self == RaftNodeType::Follower ==> r@ == "Follower"@,
            *self == RaftNodeType::Candidate ==> r@ == "Candidate"@,
            *self == RaftNodeType::Leader ==> r@ == "Leader"@,
    {
        match self {
            RaftNodeType::Follower => "Follower",
            RaftNodeType::Candidate => "Candidate",
            RaftNodeType::Leader => "Leader",
        }
    }
}

/// One log entry: immutable once durably appended, never renumbered.
pub struct LogEntry {
    pub term: u64,
    pub index: u64,
    pub payload: Vec<u8>,
}

/// The mathematical value of a log entry.
#[verifier::ext_equal]
pub struct EntryView {
    pub term: u64,
    pub index: u64,
    pub payload: Seq<u8>,
}

impl View for LogEntry {
    type V = EntryView;

    open spec fn view(&self) -> EntryView {
        EntryView { term: self.term, index: self.index, payload: self.payload@ }
    }
}

impl Clone for LogEntry {
    fn clone(&self) -> (r: Self)
        ensures
            r@ == self@,
    {
        let payload = self.payload.clone();
        proof {
            assert(payload@ =~= self.payload@);
        }
        let r = LogEntry { term: self.term, index: self.index, payload };
        proof {
            assert(r@ =~= self@);
        }
        r
    }
}

/// Snapshot bookkeeping: the installed horizon (`last_included_*`) and the
/// progress of an incoming chunked transfer (`total_chunks` is zero when no
/// transfer is in progress).
#[derive(Clone, Copy, PartialEq, Eq, Structural, Debug)]
pub struct SnapshotState {
    pub last_included_index: u64,
    pub last_included_term: u64,
    pub total_chunks: u64,
    pub chunks_received: u64,
}

/// The volatile and persistent state of one Raft participant.
///
/// `peers` names the other members of the fixed cluster; `next_index`,
/// `match_index` and `votes_granted` are parallel to it, one slot per peer.
/// `pending_*` buffer an incoming snapshot transfer; `snapshot_data` holds
/// the bytes of the last installed snapshot.
pub struct RaftNode {
    pub endpoint: NodeId,
    pub node_type: RaftNodeType,
    pub current_term: u64,
    pub current_voted_for: Option<NodeId>,
    pub current_leader: Option<NodeId>,
    pub commit_index: u64,
    pub last_applied: u64,
    pub peers: Vec<NodeId>,
    pub next_index: Vec<u64>,
    pub match_index: Vec<u64>,
    pub votes_granted: Vec<bool>,
    pub log: Vec<LogEntry>,
    pub snapshot: SnapshotState,
    pub pending_start: (u64, u64),
    pub pending_end: (u64, u64),
    pub pending_data: Vec<u8>,
    pub snapshot_data: Vec<u8>,
}


/// One node assembled with its collaborators: the consensus core plus the
/// references through which it reaches the transport, the log store and
/// durable storage: any implementations of the three contracts, so test
/// doubles substitute freely. `nodes` caches the last known state of the peers and
/// `logs` the entries staged for replication.
pub struct RaftCluster<N, L, P, E> where
    E: crate::RaftError,
    N: crate::RaftNetwork<E>,
    L: crate::RaftLog<E>,
    P: crate::RaftPersistent<E>,
 {
    pub node: RaftNode,
    pub nodes: Vec<RaftNode>,
    pub logs: Vec<LogEntry>,
    pub network: N,
    pub log: L,
    pub persistent: P,
    pub e: core::marker::PhantomData<E>,
}

impl<N, L, P, E> RaftCluster<N, L, P, E> where
    E: crate::RaftError,
    N: crate::RaftNetwork<E>,
    L: crate::RaftLog<E>,
    P: crate::RaftPersistent<E>,
 {
    /// Assemble a node with its collaborators.
    pub fn assemble(node: RaftNode, network: N, log: L, persistent: P) -> (r: Self)
        ensures
            r.node == node,
            r.nodes@.len() == 0,
            r.logs@.len() == 0,
    {
        RaftCluster {
            node,
            nodes: Vec::new(),
            logs: Vec::new(),
            network,
            log,
            persistent,
            e: core::marker::PhantomData,
        }
    }
}

/// A strict majority of a cluster of `cluster` members.
pub open spec fn is_majority(count: int, cluster: int) -> bool {
    2 * count > cluster
}

/// How many values of `s` are at least `x`.
pub open spec fn count_ge(s: Seq<u64>, x: u64) -> int
    decreases s.len(),
{
    if s.len() == 0 {
        0
    } else {
        count_ge(s.drop_last(), x) + if s.last() >= x {
            1int
        } else {
            0int
        }
    }
}

/// How many values of `s` are true.
pub open spec fn count_true(s: Seq<bool>) -> int
    decreases s.len(),
{
    if s.len() == 0 {
        0
    } else {
        count_true(s.drop_last()) + if s.last() {
            1int
        } else {
            0int
        }
    }
}

/// Lexicographic comparison of log positions, term first: the up-to-date
/// check of the election rules.
pub open spec fn lex_geq(term_a: u64, index_a: u64, term_b: u64, index_b: u64) -> bool {
    term_a > term_b || (term_a == term_b && index_a >= index_b)
}

impl RaftNode {
    /// Number of members of the cluster, this node included.
    pub open spec fn spec_cluster_size(&self) -> int {
        self.peers@.len() as int + 1
    }

    /// The global index of the last log entry (the snapshot horizon when
    /// the suffix is empty).
    pub open spec fn spec_last_index(&self) -> int {
        self.snapshot.last_included_index + self.log@.len()
    }

    /// The term recorded at global index `gi`, for
    /// `snapshot.last_included_index <= gi <= spec_last_index()`.
    pub open spec fn spec_term_at(&self, gi: int) -> u64 {
        if gi == self.snapshot.last_included_index {
            self.snapshot.last_included_term
        } else {
            self.log@[gi - self.snapshot.last_included_index - 1].term
        }
    }

    /// The term of the last log entry.
    pub open spec fn spec_last_term(&self) -> u64 {
        self.spec_term_at(self.spec_last_index())
    }

    /// Leader-only bookkeeping: for every peer, `next_index` is in
    /// `1 ..= last + 1` and strictly above `match_index`.
    pub open spec fn leader_wf(&self) -> bool {
        forall|p: int|
            0 <= p < self.peers@.len() ==> {
                &&& 1 <= #[trigger] self.next_index@[p]
                &&& self.next_index@[p] <= self.spec_last_index() + 1
                &&& self.match_index@[p] < self.next_index@[p]
            }
    }

    /// The well-formedness invariant of a node: established by the
    /// constructors and preserved by every transition.
    pub open spec fn well_formed(&self) -> bool {
        &&& self.peers@.len() == self.next_index@.len()
        &&& self.peers@.len() == self.match_index@.len()
        &&& self.peers@.len() == self.votes_granted@.len()
        &&& self.peers@.len() < 0x7fffffff
        &&& self.snapshot.last_included_index + self.log@.len() <= u64::MAX
        &&& forall|j: int|
            0 <= j < self.log@.len() ==> (#[trigger] self.log@[j]).index
                == self.snapshot.last_included_index + j + 1
        &&& forall|j: int| 0 <= j < self.log@.len() ==> (#[trigger] self.log@[j]).term <= self.current_term
        &&& forall|j: int, k: int|
            0 <= j <= k < self.log@.len() ==> #[trigger] self.log@[j].term
                <= #[trigger] self.log@[k].term
        &&& (self.log@.len() > 0 ==> self.snapshot.last_included_term <= self.log@[0].term)
        &&& self.snapshot.last_included_term <= self.current_term
        &&& (self.snapshot.last_included_index == 0 ==> self.snapshot.last_included_term == 0)
        &&& self.snapshot.last_included_index <= self.last_applied
        &&& self.last_applied <= self.commit_index
        &&& self.commit_index <= self.spec_last_index()
        &&& (self.node_type == RaftNodeType::Leader ==> self.leader_wf())
        &&& self.snapshot.chunks_received <= self.snapshot.total_chunks
        &&& (self.snapshot.total_chunks == 0 ==> self.snapshot.chunks_received == 0
            && self.pending_data@.len() == 0)
    }

    /// A fresh node: Follower at term 0 with an empty log.
    pub fn new(endpoint: NodeId, peers: Vec<NodeId>) -> (r: RaftNode)
        requires
            peers@.len() < 0x7fffffff,
        ensures
            r.well_formed(),
            r.endpoint == endpoint,
            r.peers == peers,
            r.node_type == RaftNodeType::Follower,
            r.current_term == 0,
            r.current_voted_for is None,
            r.current_leader is None,
            r.commit_index == 0,
            r.last_applied == 0,
            r.log@.len() == 0,
            r.snapshot.last_included_index == 0,
    {
        let n = peers.len();
        let mut next_index: Vec<u64> = Vec::new();
        let mut match_index: Vec<u64> = Vec::new();
        let mut votes_granted: Vec<bool> = Vec::new();
        let mut i: usize = 0;
        while i < n
            invariant
                i <= n,
                next_index@.len() == i,
                match_index@.len() == i,
                votes_granted@.len() == i,
            decreases n - i,
        {
            next_index.push(1);
            match_index.push(0);
            votes_granted.push(false);
            i = i + 1;
        }
        RaftNode {
            endpoint,
            node_type: RaftNodeType::Follower,
            current_term: 0,
            current_voted_for: None,
            current_leader: None,
            commit_index: 0,
            last_applied: 0,
            peers,
            next_index,
            match_index,
            votes_granted,
            log: Vec::new(),
            snapshot: SnapshotState {
                last_included_index: 0,
                last_included_term: 0,
                total_chunks: 0,
                chunks_received: 0,
            },
            pending_start: (0, 0),
            pending_end: (0, 0),
            pending_data: Vec::new(),
            snapshot_data: Vec::new(),
        }
    }

    /// Rebuild a node from persisted state after a restart. The persisted
    /// term, vote and log survive the crash; volatile progress does not.
    pub fn restore(
        endpoint: NodeId,
        peers: Vec<NodeId>,
        term: u64,
        voted_for: Option<NodeId>,
        log: Vec<LogEntry>,
    ) -> (r: RaftNode)
        requires
            peers@.len() < 0x7fffffff,
            log@.len() <= u64::MAX,
            forall|j: int| 0 <= j < log@.len() ==> (#[trigger] log@[j]).index == j + 1,
            forall|j: int| 0 <= j < log@.len() ==> (#[trigger] log@[j]).term <= term,
            forall|j: int, k: int|
                0 <= j <= k < log@.len() ==> #[trigger] log@[j].term <= #[trigger] log@[k].term,
        ensures
            r.well_formed(),
            r.endpoint == endpoint,
            r.peers == peers,
            r.node_type == RaftNodeType::Follower,
            r.current_term == term,
            r.current_voted_for == voted_for,
            r.current_leader is None,
            r.log == log,
            r.commit_index == 0,
            r.last_applied == 0,
    {
        let mut r = RaftNode::new(endpoint, peers);
        r.current_term = term;
        r.current_voted_for = voted_for;
        r.log = log;
        r
    }

    /// The global index of the last log entry.
    pub fn last_log_index(&self) -> (r: u64)
        requires
            self.well_formed(),
        ensures
            r as int == self.spec_last_index(),
    {
        self.snapshot.last_included_index + self.log.len() as u64
    }

    /// The term recorded at global index `gi`.
    pub fn term_at_index(&self, gi: u64) -> (r: u64)
        requires
            self.well_formed(),
            self.snapshot.last_included_index <= gi,
            gi as int <= self.spec_last_index(),
        ensures
            r == self.spec_term_at(gi as int),
    {
        if gi == self.snapshot.last_included_index {
            self.snapshot.last_included_term
        } else {
            let n: usize = self.log.len();
            let off: u64 = gi - self.snapshot.last_included_index - 1;
            proof {
                assert(off < n);
            }
            let j = off as usize;
            self.log[j].term
        }
    }

    /// The term of the last log entry.
    pub fn last_log_term(&self) -> (r: u64)
        requires
            self.well_formed(),
        ensures
            r == self.spec_last_term(),
    {
        self.term_at_index(self.last_log_index())
    }
}

} // verus!
