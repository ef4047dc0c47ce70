//! Election coordinator: role transitions, vote solicitation and counting.
//!
//! Every handler here (and in the other coordinator modules) must be called
//! through one serialization point per node: one logical writer at a time.
//! Durability rule: the caller must make the term and vote durable
//! ([`crate::persistent::FullPersistent`]) before sending any response or
//! request produced by these functions to a peer.

use vstd::prelude::*;
use crate::NodeId;
use crate::network::{VoteRequest, VoteResponse};
use crate::node::{RaftNode, RaftNodeType, count_true, is_majority, lex_geq};

verus! {

/// A vector of `n` copies of `x`.
pub(crate) fn fill_u64(n: usize, x: u64) -> (v: Vec<u64>)
    ensures
        v@.len() == n,
        forall|i: int| 0 <= i < n ==> v@[i] == x,
{
    let mut v: Vec<u64> = Vec::new();
    let mut i: usize = 0;
    while i < n
        invariant
            i <= n,
            v@.len() == i,
            forall|j: int| 0 <= j < i ==> v@[j] == x,
        decreases n - i,
    {
        v.push(x);
        i = i + 1;
    }
    v
}

/// A vector of `n` copies of `false`.
pub(crate) fn fill_false(n: usize) -> (v: Vec<bool>)
    ensures
        v@.len() == n,
        forall|i: int| 0 <= i < n ==> !v@[i],
{
    let mut v: Vec<bool> = Vec::new();
    let mut i: usize = 0;
    while i < n
        invariant
            i <= n,
            v@.len() == i,
            forall|j: int| 0 <= j < i ==> !v@[j],
        decreases n - i,
    {
        v.push(false);
        i = i + 1;
    }
    v
}

/// Stepping a prefix of a sequence extends the count by the element crossed.
pub(crate) proof fn lemma_count_true_step(s: Seq<bool>, i: int)
    requires
        0 <= i < s.len(),
    ensures
        count_true(s.subrange(0, i + 1)) == count_true(s.subrange(0, i)) + if s[i] {
            1int
        } else {
            0int
        },
{
    assert(s.subrange(0, i + 1).drop_last() =~= s.subrange(0, i));
    assert(s.subrange(0, i + 1).last() == s[i]);
}

impl RaftNode {
    /// The rule by which stale leaders and candidates relinquish authority:
    /// any observed term above `current_term` forces the term up, clears
    /// the vote, and demotes the node to Follower. A term at or below the
    /// current one changes nothing.
    pub fn observe_term(&mut self, term: u64)
        requires
            old(self).well_formed(),
        ensures
            final(self).well_formed(),
            final(self).current_term >= old(self).current_term,
            term > old(self).current_term ==> final(self).current_term == term && final(self).node_type
                == RaftNodeType::Follower && final(self).current_voted_for is None
                && final(self).current_leader is None,
            term <= old(self).current_term ==> *final(self) == *old(self),
            final(self).endpoint == old(self).endpoint,
            final(self).peers == old(self).peers,
            final(self).log == old(self).log,
            final(self).commit_index == old(self).commit_index,
            final(self).last_applied == old(self).last_applied,
            final(self).snapshot == old(self).snapshot,
            final(self).pending_start == old(self).pending_start,
            final(self).pending_end == old(self).pending_end,
            final(self).pending_data == old(self).pending_data,
            final(self).snapshot_data == old(self).snapshot_data,
            final(self).next_index == old(self).next_index,
            final(self).match_index == old(self).match_index,
            final(self).votes_granted == old(self).votes_granted,
            final(self).current_term == if term > old(self).current_term {
                term
            } else {
                old(self).current_term
            },
    {
        if term > self.current_term {
            self.current_term = term;
            self.current_voted_for = None;
            self.current_leader = None;
            self.node_type = RaftNodeType::Follower;
        }
    }

    /// The election timer fired with no leader contact: become Candidate
    /// for the next term, vote for self, and return the request to
    /// broadcast to every peer. A Candidate whose timer fires again (split
    /// vote) calls this again and restarts at a higher term.
    pub fn handle_election_timeout(&mut self) -> (req: VoteRequest)
        requires
            old(self).well_formed(),
            old(self).node_type != RaftNodeType::Leader,
            old(self).current_term < u64::MAX,
        ensures
            final(self).well_formed(),
            final(self).node_type == RaftNodeType::Candidate,
            final(self).current_term == old(self).current_term + 1,
            final(self).current_voted_for == Some(final(self).endpoint),
            final(self).current_leader is None,
            final(self).endpoint == old(self).endpoint,
            final(self).peers == old(self).peers,
            final(self).log == old(self).log,
            final(self).commit_index == old(self).commit_index,
            final(self).last_applied == old(self).last_applied,
            final(self).snapshot == old(self).snapshot,
            final(self).snapshot_data == old(self).snapshot_data,
            forall|p: int| 0 <= p < final(self).votes_granted@.len() ==> !(#[trigger] final(self).votes_granted@[p]),
            req.candidate_endpoint == final(self).endpoint,
            req.term == final(self).current_term,
            req.last_log_index as int == final(self).spec_last_index(),
            req.last_log_term == final(self).spec_last_term(),
    {
        self.current_term = self.current_term + 1;
        self.node_type = RaftNodeType::Candidate;
        self.current_voted_for = Some(self.endpoint);
        self.current_leader = None;
        let n = self.peers.len();
        self.votes_granted = fill_false(n);
        VoteRequest {
            candidate_endpoint: self.endpoint,
            term: self.current_term,
            last_log_index: self.last_log_index(),
            last_log_term: self.last_log_term(),
        }
    }

    /// Whether this node, at its current term and vote, grants `req`.
    /// The vote is granted iff the requester's term is current (after the
    /// term observation), no conflicting vote was cast in that term, and
    /// the requester's last log position is at least ours under the
    /// (term, index) lexicographic order.
    pub open spec fn spec_grants(self, req: VoteRequest) -> bool {
        &&& req.term == self.current_term
        &&& (self.current_voted_for is None || self.current_voted_for == Some(
            req.candidate_endpoint,
        ))
        &&& lex_geq(
            req.last_log_term,
            req.last_log_index,
            self.spec_last_term(),
            self.spec_last_index() as u64,
        )
    }

    /// Handle an inbound RequestVote. Granting records the vote, so a node
    /// casts at most one vote per term; a duplicate request from the same
    /// candidate is granted again (idempotent), which is what a restarted
    /// candidate relies on. The caller must persist term and vote durably
    /// before sending the response.
    pub fn handle_vote_request(&mut self, req: &VoteRequest) -> (resp: VoteResponse)
        requires
            old(self).well_formed(),
        ensures
            final(self).well_formed(),
            final(self).current_term >= old(self).current_term,
            final(self).current_term == if req.term > old(self).current_term {
                req.term
            } else {
                old(self).current_term
            },
            // what the grant means, stated over the state before the call
            resp.vote_granted <==> (req.term >= old(self).current_term && (req.term > old(
                self,
            ).current_term || old(self).current_voted_for is None || old(self).current_voted_for
                == Some(req.candidate_endpoint)) && lex_geq(
                req.last_log_term,
                req.last_log_index,
                old(self).spec_last_term(),
                old(self).spec_last_index() as u64,
            )),
            resp.vote_granted ==> final(self).current_voted_for == Some(req.candidate_endpoint)
                && final(self).spec_grants(*req),
            !resp.vote_granted ==> final(self).current_voted_for == if req.term > old(
                self,
            ).current_term {
                None::<NodeId>
            } else {
                old(self).current_voted_for
            },
            // the voter reports its own last log position
            resp.last_log_index as int == old(self).spec_last_index(),
            resp.last_log_term == old(self).spec_last_term(),
            // a vote changes no log or commit state
            final(self).log == old(self).log,
            final(self).commit_index == old(self).commit_index,
            final(self).last_applied == old(self).last_applied,
            final(self).snapshot == old(self).snapshot,
            final(self).snapshot_data == old(self).snapshot_data,
            final(self).endpoint == old(self).endpoint,
            final(self).peers == old(self).peers,
            req.term > old(self).current_term ==> final(self).node_type == RaftNodeType::Follower,
            req.term <= old(self).current_term ==> final(self).node_type == old(self).node_type,
    {
        let my_last_index = self.last_log_index();
        let my_last_term = self.last_log_term();
        self.observe_term(req.term);
        let grant = if req.term < self.current_term {
            false
        } else {
            let no_conflict = match self.current_voted_for {
                None => true,
                Some(v) => v == req.candidate_endpoint,
            };
            let up_to_date = req.last_log_term > my_last_term || (req.last_log_term == my_last_term
                && req.last_log_index >= my_last_index);
            no_conflict && up_to_date
        };
        if grant {
            self.current_voted_for = Some(req.candidate_endpoint);
        }
        VoteResponse { last_log_index: my_last_index, last_log_term: my_last_term, vote_granted: grant }
    }

    /// How many vote grants this candidate has recorded from peers.
    pub fn count_votes(&self) -> (c: usize)
        requires
            self.well_formed(),
        ensures
            c == count_true(self.votes_granted@),
            c <= self.votes_granted@.len(),
    {
        let n = self.votes_granted.len();
        let mut c: usize = 0;
        let mut i: usize = 0;
        while i < n
            invariant
                i <= n,
                n == self.votes_granted@.len(),
                c == count_true(self.votes_granted@.subrange(0, i as int)),
                c <= i,
            decreases n - i,
        {
            proof {
                lemma_count_true_step(self.votes_granted@, i as int);
            }
            if self.votes_granted[i] {
                c = c + 1;
            }
            i = i + 1;
        }
        proof {
            assert(self.votes_granted@.subrange(0, n as int) =~= self.votes_granted@);
        }
        c
    }

    /// Handle a vote response for the solicitation sent at `term` from the
    /// peer in slot `peer_slot`. Responses for any other term, or arriving
    /// when no longer Candidate, are discarded (term fencing). The first
    /// majority of grants (self included) wins: the node becomes Leader,
    /// every peer's `next_index` starts at `last + 1` and `match_index` at
    /// zero. Returns whether this response made the node Leader.
    pub fn handle_vote_response(&mut self, peer_slot: usize, term: u64, resp: &VoteResponse) -> (became:
        bool)
        requires
            old(self).well_formed(),
            peer_slot < old(self).peers@.len(),
            old(self).spec_last_index() < u64::MAX,
        ensures
            final(self).well_formed(),
            // discarded outright
            (old(self).node_type != RaftNodeType::Candidate || term != old(self).current_term)
                ==> (*final(self) == *old(self) && !became),
            // nothing here moves the term, the log, or the commit point
            final(self).current_term == old(self).current_term,
            final(self).log == old(self).log,
            final(self).commit_index == old(self).commit_index,
            final(self).last_applied == old(self).last_applied,
            final(self).snapshot == old(self).snapshot,
            final(self).snapshot_data == old(self).snapshot_data,
            final(self).endpoint == old(self).endpoint,
            final(self).peers == old(self).peers,
            final(self).current_voted_for == old(self).current_voted_for,
            // grants are recorded per peer slot, so a duplicate response
            // cannot be counted twice
            resp.vote_granted && old(self).node_type == RaftNodeType::Candidate && term == old(
                self,
            ).current_term ==> final(self).votes_granted@ == old(self).votes_granted@.update(
                peer_slot as int,
                true,
            ),
            !resp.vote_granted ==> final(self).votes_granted == old(self).votes_granted,
            // leadership requires a strict majority, counting the self-vote
            // leadership is owed exactly when this grant completes a
            // strict majority, counting the self-vote
            became <==> (old(self).node_type == RaftNodeType::Candidate && term == old(
                self,
            ).current_term && resp.vote_granted && is_majority(
                1 + count_true(old(self).votes_granted@.update(peer_slot as int, true)),
                old(self).spec_cluster_size(),
            )),
            became ==> final(self).node_type == RaftNodeType::Leader && is_majority(
                1 + count_true(final(self).votes_granted@),
                final(self).spec_cluster_size(),
            ),
            became ==> forall|p: int|
                0 <= p < final(self).peers@.len() ==> (#[trigger] final(self).next_index@[p]) as int
                    == final(self).spec_last_index() + 1 && final(self).match_index@[p] == 0,
            !became ==> final(self).node_type == old(self).node_type && final(self).next_index == old(
                self,
            ).next_index && final(self).match_index == old(self).match_index,
    {
        if !(matches!(self.node_type, RaftNodeType::Candidate)) || term != self.current_term {
            return false;
        }
        if !resp.vote_granted {
            return false;
        }
        self.votes_granted[peer_slot] = true;
        let c = self.count_votes();
        let n = self.peers.len();
        if 2 * (1 + c) > n + 1 {
            let next = self.last_log_index() + 1;
            self.node_type = RaftNodeType::Leader;
            self.current_leader = Some(self.endpoint);
            self.next_index = fill_u64(n, next);
            self.match_index = fill_u64(n, 0);
            true
        } else {
            false
        }
    }
}

} // verus!
