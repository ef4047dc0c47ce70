//! Snapshot coordinator: chunked, resumable transfer of the compacted
//! state to a follower that has fallen behind the leader's log horizon.
//!
//! The receiver's progress is the pair (chunks received, buffered bytes);
//! one delivery moves it by [`snap_step`]. The laws module proves that an
//! interrupted and resumed transfer ends in the same state as an
//! uninterrupted one.

use vstd::prelude::*;
use crate::network::{InstallSnapshotRequest, InstallSnapshotResponse};
use crate::node::{RaftNode, RaftNodeType, SnapshotState};

verus! {

/// Well-formedness of an InstallSnapshot request as a correct leader
/// builds it: at least one chunk, a chunk number within the transfer, a
/// snapshot term no later than the leader's, and a non-empty compacted
/// range.
pub open spec fn wf_install_request(req: InstallSnapshotRequest) -> bool {
    &&& 1 <= req.total
    &&& 1 <= req.sent <= req.total
    &&& req.end_log.0 <= req.term
    &&& 1 <= req.end_log.1
}

/// One delivery at the receiver: a chunk numbered exactly one past the
/// received count is appended to the buffer; any other number changes
/// nothing (a duplicate is acknowledged, a gap is refused).
pub open spec fn snap_step(received: u64, buf: Seq<u8>, sent: u64, chunk: Seq<u8>) -> (u64, Seq<
    u8,
>) {
    if sent == received + 1 {
        (sent, buf + chunk)
    } else {
        (received, buf)
    }
}


/// Append the bytes of `src` to `dst`.
pub(crate) fn append_bytes(dst: &mut Vec<u8>, src: &Vec<u8>)
    ensures
        final(dst)@ == old(dst)@ + src@,
{
    let m = src.len();
    let mut i: usize = 0;
    proof {
        assert(dst@ =~= old(dst)@ + src@.subrange(0, 0));
    }
    while i < m
        invariant
            i <= m,
            m == src@.len(),
            dst@ == old(dst)@ + src@.subrange(0, i as int),
        decreases m - i,
    {
        dst.push(src[i]);
        proof {
            assert(dst@ =~= old(dst)@ + src@.subrange(0, i as int + 1));
        }
        i = i + 1;
    }
    proof {
        assert(src@.subrange(0, m as int) =~= src@);
    }
}

impl RaftNode {
    /// Whether `req` continues the transfer this node is buffering.
    pub open spec fn spec_same_transfer(&self, req: InstallSnapshotRequest) -> bool {
        &&& self.snapshot.total_chunks != 0
        &&& self.pending_start == req.start_log
        &&& self.pending_end == req.end_log
        &&& self.snapshot.total_chunks == req.total
    }

    /// Build the InstallSnapshot request for chunk `sent` of `total`. The
    /// compacted range always starts at the log origin; its end is the
    /// snapshot horizon. The chunk bytes travel beside the request: see
    /// [`RaftNode::snapshot_chunk`].
    pub fn build_install_snapshot(&self, total: u64, sent: u64) -> (req: InstallSnapshotRequest)
        requires
            self.well_formed(),
            self.node_type == RaftNodeType::Leader,
            self.snapshot.last_included_index >= 1,
            1 <= sent <= total,
        ensures
            req.leader_endpoint == self.endpoint,
            req.term == self.current_term,
            req.start_log == (0u64, 0u64),
            req.end_log == (self.snapshot.last_included_term, self.snapshot.last_included_index),
            req.total == total,
            req.sent == sent,
            wf_install_request(req),
    {
        InstallSnapshotRequest {
            leader_endpoint: self.endpoint,
            term: self.current_term,
            start_log: (0, 0),
            end_log: (self.snapshot.last_included_term, self.snapshot.last_included_index),
            total,
            sent,
        }
    }

    /// The bytes of the compacted state from `start`, `count` bytes long:
    /// the payload accompanying one chunk of a transfer. The caller (the
    /// per-peer replication stream) chooses the chunk boundaries; sending
    /// consecutive ranges that tile the data reproduces it exactly.
    pub fn snapshot_chunk(&self, start: usize, count: usize) -> (r: Vec<u8>)
        requires
            start + count <= self.snapshot_data@.len(),
        ensures
            r@ == self.snapshot_data@.subrange(start as int, start + count),
    {
        let n = self.snapshot_data.len();
        proof {
            assert(start + count <= n);
        }
        let mut r: Vec<u8> = Vec::new();
        let mut i: usize = 0;
        while i < count
            invariant
                i <= count,
                start + count <= n,
                n == self.snapshot_data@.len(),
                r@.len() == i,
                forall|q: int| 0 <= q < i ==> r@[q] == self.snapshot_data@[start + q],
            decreases count - i,
        {
            r.push(self.snapshot_data[start + i]);
            i = i + 1;
        }
        proof {
            assert(r@ =~= self.snapshot_data@.subrange(start as int, start + count));
        }
        r
    }

    /// Handle one chunk of an inbound snapshot transfer. A stale term is
    /// rejected outright; otherwise the sender is acknowledged as leader.
    /// A chunk numbered one past the received count is buffered (adopting
    /// the transfer, if it is a new one arriving at its first chunk); a
    /// duplicate is re-acknowledged without change; a gap is refused with
    /// the resume point; a chunk of a foreign transfer that is not its
    /// first is refused with zero. When the last chunk arrives the
    /// snapshot is installed atomically: the buffered bytes replace the
    /// compacted state, the log prefix up to the snapshot horizon is
    /// dropped (the whole log, if it disagrees with the horizon), and
    /// commit and apply indices move up to the horizon.
    #[verifier::rlimit(100)]
    pub fn handle_install_snapshot(&mut self, req: &InstallSnapshotRequest, chunk: &Vec<u8>) -> (resp:
        InstallSnapshotResponse)
        requires
            old(self).well_formed(),
            wf_install_request(*req),
        ensures
            final(self).well_formed(),
            final(self).current_term >= old(self).current_term,
            final(self).commit_index >= old(self).commit_index,
            final(self).current_term == if req.term > old(self).current_term {
                req.term
            } else {
                old(self).current_term
            },
            final(self).endpoint == old(self).endpoint,
            final(self).peers == old(self).peers,
            final(self).next_index == old(self).next_index,
            final(self).match_index == old(self).match_index,
            final(self).votes_granted == old(self).votes_granted,
            // a stale term changes nothing
            req.term < old(self).current_term ==> *final(self) == *old(self) && !resp.success
                && resp.received == old(self).snapshot.chunks_received,
            // any other request asserts the sender's authority
            req.term >= old(self).current_term ==> final(self).node_type
                == RaftNodeType::Follower && final(self).current_leader == Some(
                req.leader_endpoint,
            ) && final(self).current_voted_for == (if req.term > old(self).current_term {
                None::<crate::NodeId>
            } else {
                old(self).current_voted_for
            }),
            // a transfer that does not advance the horizon is refused
            (req.term >= old(self).current_term && req.end_log.1 <= old(
                self,
            ).snapshot.last_included_index) ==> !resp.success && resp.received == old(
                self,
            ).snapshot.chunks_received && final(self).snapshot == old(self).snapshot && final(self).pending_data == old(self).pending_data && final(self).log == old(self).log && final(self).commit_index == old(self).commit_index && final(self).snapshot_data == old(
                self,
            ).snapshot_data && final(self).last_applied == old(self).last_applied,
            // a chunk of a foreign transfer that is not its first chunk is
            // refused; the running transfer is kept
            (req.term >= old(self).current_term && req.end_log.1 > old(
                self,
            ).snapshot.last_included_index && !old(self).spec_same_transfer(*req) && req.sent != 1)
                ==> !resp.success && resp.received == 0 && final(self).snapshot == old(
                self,
            ).snapshot && final(self).pending_data == old(self).pending_data && final(self).pending_start == old(self).pending_start && final(self).pending_end == old(
                self,
            ).pending_end && final(self).log == old(self).log && final(self).commit_index == old(
                self,
            ).commit_index && final(self).snapshot_data == old(self).snapshot_data,
            // with a valid transfer context (the running transfer, or a new
            // one at its first chunk), a non-final chunk moves the receiver
            // by exactly one snap_step; success is owed iff the chunk is
            // not beyond the resume point
            (req.term >= old(self).current_term && req.end_log.1 > old(
                self,
            ).snapshot.last_included_index && (old(self).spec_same_transfer(*req) || req.sent == 1)
                && req.sent < req.total) ==> ({
                let prior: u64 = if old(self).spec_same_transfer(*req) {
                    old(self).snapshot.chunks_received
                } else {
                    0
                };
                let pbuf: Seq<u8> = if old(self).spec_same_transfer(*req) {
                    old(self).pending_data@
                } else {
                    Seq::empty()
                };
                let stepped = snap_step(prior, pbuf, req.sent, chunk@);
                &&& final(self).snapshot.chunks_received == stepped.0
                &&& final(self).pending_data@ == stepped.1
                &&& final(self).snapshot.total_chunks == req.total
                &&& final(self).pending_start == req.start_log
                &&& final(self).pending_end == req.end_log
                &&& final(self).snapshot.last_included_index == old(
                    self,
                ).snapshot.last_included_index
                &&& final(self).snapshot.last_included_term == old(
                    self,
                ).snapshot.last_included_term
                &&& final(self).log == old(self).log
                &&& final(self).commit_index == old(self).commit_index
                &&& final(self).last_applied == old(self).last_applied
                &&& final(self).snapshot_data == old(self).snapshot_data
                &&& resp.received == stepped.0
                &&& (resp.success <==> req.sent <= prior + 1)
            }),
            // the final chunk: a duplicate is re-acknowledged, a gap
            // refused, and the expected one installs unless that would
            // discard committed entries (unreachable in a safe execution)
            (req.term >= old(self).current_term && req.end_log.1 > old(
                self,
            ).snapshot.last_included_index && (old(self).spec_same_transfer(*req) || req.sent == 1)
                && req.sent == req.total) ==> ({
                let prior: u64 = if old(self).spec_same_transfer(*req) {
                    old(self).snapshot.chunks_received
                } else {
                    0
                };
                let pbuf: Seq<u8> = if old(self).spec_same_transfer(*req) {
                    old(self).pending_data@
                } else {
                    Seq::empty()
                };
                let ei = req.end_log.1;
                let et = req.end_log.0;
                let keep = ei as int <= old(self).spec_last_index() && old(self).spec_term_at(
                    ei as int,
                ) == et;
                let unchanged = final(self).snapshot == old(self).snapshot && final(self).pending_data == old(self).pending_data && final(self).log == old(self).log
                    && final(self).commit_index == old(self).commit_index && final(self).snapshot_data == old(self).snapshot_data && final(self).last_applied == old(
                    self,
                ).last_applied;
                &&& (req.sent <= prior ==> resp.success && resp.received == prior && unchanged)
                &&& (req.sent > prior + 1 ==> !resp.success && resp.received == prior && unchanged)
                &&& (req.sent == prior + 1 ==> {
                    &&& (resp.success <==> !(!keep && old(self).commit_index > ei))
                    &&& (!resp.success ==> resp.received == prior && unchanged)
                    &&& (resp.success ==> {
                        &&& resp.received == req.total
                        &&& final(self).snapshot_data@ == pbuf + chunk@
                        &&& final(self).snapshot.last_included_index == ei
                        &&& final(self).snapshot.last_included_term == et
                        &&& final(self).snapshot.total_chunks == 0
                        &&& final(self).snapshot.chunks_received == 0
                        &&& final(self).pending_data@.len() == 0
                        &&& final(self).commit_index == (if old(self).commit_index >= ei {
                            old(self).commit_index
                        } else {
                            ei
                        })
                        &&& final(self).last_applied == (if old(self).last_applied >= ei {
                            old(self).last_applied
                        } else {
                            ei
                        })
                        &&& (keep ==> final(self).log@ == old(self).log@.subrange(
                            ei - old(self).snapshot.last_included_index,
                            old(self).log@.len() as int,
                        ))
                        &&& (!keep ==> final(self).log@.len() == 0)
                    })
                })
            }),
    {
        if req.term < self.current_term {
            return InstallSnapshotResponse {
                success: false,
                received: self.snapshot.chunks_received,
            };
        }
        self.observe_term(req.term);
        self.node_type = RaftNodeType::Follower;
        self.current_leader = Some(req.leader_endpoint);
        let (et, ei) = (req.end_log.0, req.end_log.1);
        if ei <= self.snapshot.last_included_index {
            return InstallSnapshotResponse {
                success: false,
                received: self.snapshot.chunks_received,
            };
        }
        let same = self.snapshot.total_chunks != 0 && self.pending_start.0 == req.start_log.0
            && self.pending_start.1 == req.start_log.1 && self.pending_end.0 == req.end_log.0
            && self.pending_end.1 == req.end_log.1 && self.snapshot.total_chunks == req.total;
        if !same && req.sent != 1 {
            return InstallSnapshotResponse { success: false, received: 0 };
        }
        let prior = if same {
            self.snapshot.chunks_received
        } else {
            0
        };
        if req.sent <= prior {
            // duplicate: acknowledge without change
            return InstallSnapshotResponse { success: true, received: prior };
        }
        if req.sent > prior + 1 {
            // gap: refuse with the resume point
            return InstallSnapshotResponse { success: false, received: prior };
        }
        // the next expected chunk
        if req.sent == req.total {
            // completing chunk: install, unless doing so would discard
            // committed entries (unreachable in a safe execution)
            let last = self.last_log_index();
            let keep = ei <= last && self.term_at_index(ei) == et;
            if !keep && self.commit_index > ei {
                return InstallSnapshotResponse { success: false, received: prior };
            }
            if !same {
                self.pending_data = Vec::new();
            }
            append_bytes(&mut self.pending_data, chunk);
            let h = self.snapshot.last_included_index;
            if keep {
                let nlen = self.log.len();
                proof {
                    assert(ei - h <= nlen);
                }
                let k = (ei - h) as usize;
                let tail = self.log.split_off(k);
                self.log = tail;
            } else {
                self.log = Vec::new();
            }
            self.snapshot_data = self.pending_data.split_off(0);
            self.snapshot = SnapshotState {
                last_included_index: ei,
                last_included_term: et,
                total_chunks: 0,
                chunks_received: 0,
            };
            if self.commit_index < ei {
                self.commit_index = ei;
            }
            if self.last_applied < ei {
                self.last_applied = ei;
            }
            proof {
                let li = self.log@;
                let ol = old(self).log@;
                if li.len() > 0 {
                    let k = ei - old(self).snapshot.last_included_index;
                    assert forall|q: int| 0 <= q < li.len() implies (#[trigger] li[q]).index == ei
                        + q + 1 by {
                        assert(li[q] == ol[k + q]);
                    }
                    assert forall|q: int| 0 <= q < li.len() implies (#[trigger] li[q]).term
                        <= self.current_term by {
                        assert(li[q] == ol[k + q]);
                    }
                    assert forall|a: int, b: int| 0 <= a <= b < li.len() implies #[trigger] li[a].term
                        <= #[trigger] li[b].term by {
                        assert(li[a] == ol[k + a] && li[b] == ol[k + b]);
                    }
                    assert(li[0] == ol[k as int]);
                    if k > 0 {
                        assert(ol[k - 1].term <= ol[k as int].term);
                    }
                }
                assert(self.well_formed());
            }
            return InstallSnapshotResponse { success: true, received: req.total };
        }
        // an intermediate chunk: adopt the transfer if it is new, buffer
        if !same {
            self.pending_start = req.start_log;
            self.pending_end = req.end_log;
            self.pending_data = Vec::new();
        }
        append_bytes(&mut self.pending_data, chunk);
        self.snapshot = SnapshotState {
            last_included_index: self.snapshot.last_included_index,
            last_included_term: self.snapshot.last_included_term,
            total_chunks: req.total,
            chunks_received: req.sent,
        };
        InstallSnapshotResponse { success: true, received: req.sent }
    }

    /// Handle the acknowledgment of chunk `resp.received` of a transfer of
    /// `total` chunks sent at term `req_term`. A stale or misdirected
    /// acknowledgment is discarded; the sending stream resumes at
    /// `resp.received + 1`. When the follower has the whole snapshot, its
    /// progress moves to the snapshot horizon and ordinary log shipping
    /// resumes from there.
    pub fn handle_install_snapshot_response(
        &mut self,
        peer_slot: usize,
        req_term: u64,
        total: u64,
        resp: &InstallSnapshotResponse,
    )
        requires
            old(self).well_formed(),
            peer_slot < old(self).peers@.len(),
            old(self).spec_last_index() < u64::MAX,
            old(self).snapshot.last_included_index <= old(self).commit_index,
        ensures
            final(self).well_formed(),
            // fencing: only a current-term acknowledgment moves progress
            (old(self).node_type != RaftNodeType::Leader || req_term != old(self).current_term
                || !resp.success || resp.received < total) ==> *final(self) == *old(self),
            (old(self).node_type == RaftNodeType::Leader && req_term == old(self).current_term
                && resp.success && resp.received >= total) ==> ({
                let p = peer_slot as int;
                let h = old(self).snapshot.last_included_index;
                let m: u64 = if old(self).match_index@[p] >= h {
                    old(self).match_index@[p]
                } else {
                    h
                };
                &&& final(self).match_index@ == old(self).match_index@.update(p, m)
                &&& final(self).next_index@ == old(self).next_index@.update(p, (m + 1) as u64)
                &&& final(self).log == old(self).log
                &&& final(self).commit_index == old(self).commit_index
                &&& final(self).current_term == old(self).current_term
                &&& final(self).node_type == old(self).node_type
                &&& final(self).current_voted_for == old(self).current_voted_for
                &&& final(self).current_leader == old(self).current_leader
                &&& final(self).snapshot == old(self).snapshot
                &&& final(self).snapshot_data == old(self).snapshot_data
                &&& final(self).last_applied == old(self).last_applied
            }),
    {
        if !(matches!(self.node_type, RaftNodeType::Leader)) || req_term != self.current_term
            || !resp.success || resp.received < total {
            return;
        }
        let p = peer_slot;
        let h = self.snapshot.last_included_index;
        let m = if self.match_index[p] >= h {
            self.match_index[p]
        } else {
            h
        };
        proof {
            assert(self.next_index@[p as int] <= self.spec_last_index() + 1);
        }
        self.match_index[p] = m;
        self.next_index[p] = m + 1;
    }
}

} // verus!
