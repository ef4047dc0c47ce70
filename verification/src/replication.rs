//! Replication manager: log shipping, conflict resolution with the
//! fast-backtrack hint, and commit-index advancement.
//!
//! The follower-side consistency check and truncate-and-append merge are
//! modelled by [`divergence`] and [`merge_entries`]; the laws module proves
//! the log matching property over that model.

use vstd::prelude::*;
use crate::NodeId;
use crate::network::{AppendEntriesRequest, AppendEntriesResponse};
use crate::node::{LogEntry, RaftNode, RaftNodeType, count_ge, is_majority};

verus! {

/// Well-formedness of an AppendEntries request as a correct leader builds
/// it: the batch is contiguous from `prev_log_index + 1`, its terms do not
/// exceed the leader's term, are non-decreasing, and continue from
/// `prev_log_term`.
pub open spec fn wf_append_request(req: AppendEntriesRequest) -> bool {
    &&& req.prev_log_index + req.entries@.len() <= u64::MAX
    &&& forall|j: int|
        0 <= j < req.entries@.len() ==> (#[trigger] req.entries@[j]).index == req.prev_log_index
            + 1 + j
    &&& forall|j: int| 0 <= j < req.entries@.len() ==> (#[trigger] req.entries@[j]).term <= req.term
    &&& forall|j: int, k: int|
        0 <= j <= k < req.entries@.len() ==> #[trigger] req.entries@[j].term
            <= #[trigger] req.entries@[k].term
    &&& (req.entries@.len() > 0 ==> req.prev_log_term <= req.entries@[0].term)
}

/// How many leading entries of `new` agree, term for term, with the log
/// entries from position `pos` on. An entry past the end of the log, or
/// one whose term differs, stops the scan: that is where the follower
/// truncates and appends.
pub open spec fn divergence(log: Seq<LogEntry>, pos: int, new: Seq<LogEntry>) -> int
    decreases new.len(),
{
    if new.len() == 0 {
        0
    } else if 0 <= pos < log.len() && log[pos].term == new[0].term {
        1 + divergence(log, pos + 1, new.subrange(1, new.len() as int))
    } else {
        0
    }
}

pub proof fn lemma_divergence_bounds(log: Seq<LogEntry>, pos: int, new: Seq<LogEntry>)
    ensures
        0 <= divergence(log, pos, new) <= new.len(),
    decreases new.len(),
{
    if new.len() == 0 {
    } else if 0 <= pos < log.len() && log[pos].term == new[0].term {
        lemma_divergence_bounds(log, pos + 1, new.subrange(1, new.len() as int));
    }
}


/// Stepping a prefix of a sequence extends the count by the element crossed.
pub(crate) proof fn lemma_count_ge_step(s: Seq<u64>, i: int, x: u64)
    requires
        0 <= i < s.len(),
    ensures
        count_ge(s.subrange(0, i + 1), x) == count_ge(s.subrange(0, i), x) + if s[i] >= x {
            1int
        } else {
            0int
        },
{
    assert(s.subrange(0, i + 1).drop_last() =~= s.subrange(0, i));
    assert(s.subrange(0, i + 1).last() == s[i]);
}

/// The position of the last entry of `log` carrying term `t`, or -1.
pub open spec fn last_pos_of_term(log: Seq<LogEntry>, t: u64) -> int
    decreases log.len(),
{
    if log.len() == 0 {
        -1
    } else if log.last().term == t {
        log.len() - 1
    } else {
        last_pos_of_term(log.drop_last(), t)
    }
}

/// The follower's log after a successful AppendEntries: entries that agree
/// with the batch are kept, the first conflicting suffix is truncated, and
/// the remainder of the batch is appended. A batch that is wholly
/// contained leaves the log unchanged.
pub open spec fn merge_entries(log: Seq<LogEntry>, pos: int, new: Seq<LogEntry>) -> Seq<LogEntry> {
    let d = divergence(log, pos, new);
    if d == new.len() {
        log
    } else {
        log.subrange(0, pos + d) + new.subrange(d, new.len() as int)
    }
}

/// Whether the follower `n` accepts the request `req`: the term is
/// current, the sender is not clashing with a standing leader of the same
/// term, the previous entry lies within the follower's log and matches
/// `prev_log_term`, and the merge would not truncate a committed entry
/// (the last case cannot arise in a safe execution; the handler rejects
/// it rather than lose committed entries).
pub open spec fn spec_append_accepted(n: RaftNode, req: AppendEntriesRequest) -> bool {
    let h = n.snapshot.last_included_index;
    let pos = req.prev_log_index - h;
    let d = divergence(n.log@, pos as int, req.entries@);
    &&& req.term >= n.current_term
    &&& !(req.term == n.current_term && n.node_type == RaftNodeType::Leader)
    &&& h <= req.prev_log_index
    &&& req.prev_log_index <= n.spec_last_index()
    &&& n.spec_term_at(req.prev_log_index as int) == req.prev_log_term
    &&& (d == req.entries@.len() || pos + d >= n.log@.len() || req.prev_log_index + d + 1
        > n.commit_index)
}

impl RaftNode {
    /// The leader accepts a client payload: append it to the own log under
    /// the current term, at the next index. Replication to the peers
    /// starts with the next scheduled AppendEntries.
    pub fn client_append(&mut self, payload: Vec<u8>) -> (idx: u64)
        requires
            old(self).well_formed(),
            old(self).node_type == RaftNodeType::Leader,
            old(self).spec_last_index() < u64::MAX,
        ensures
            final(self).well_formed(),
            idx as int == old(self).spec_last_index() + 1,
            final(self).log@ == old(self).log@.push(
                (LogEntry { term: old(self).current_term, index: idx, payload }),
            ),
            final(self).node_type == old(self).node_type,
            final(self).current_term == old(self).current_term,
            final(self).current_voted_for == old(self).current_voted_for,
            final(self).commit_index == old(self).commit_index,
            final(self).last_applied == old(self).last_applied,
            final(self).snapshot == old(self).snapshot,
            final(self).snapshot_data == old(self).snapshot_data,
            final(self).endpoint == old(self).endpoint,
            final(self).peers == old(self).peers,
            final(self).next_index == old(self).next_index,
            final(self).match_index == old(self).match_index,
            final(self).spec_last_index() == old(self).spec_last_index() + 1,
    {
        let idx = self.last_log_index() + 1;
        let entry = LogEntry { term: self.current_term, index: idx, payload };
        self.log.push(entry);
        idx
    }

    /// Build the AppendEntries for one peer: the batch from
    /// `next_index[peer]` through the end of the leader's log, preceded by
    /// `prev_log_index`/`prev_log_term`. Returns nothing when the peer's
    /// `next_index` predates the compacted horizon: that peer must be
    /// redirected to the snapshot coordinator.
    pub fn build_append_entries(&self, peer_slot: usize) -> (r: Option<AppendEntriesRequest>)
        requires
            self.well_formed(),
            self.node_type == RaftNodeType::Leader,
            peer_slot < self.peers@.len(),
        ensures
            (r is None) <==> self.next_index@[peer_slot as int]
                <= self.snapshot.last_included_index,
            r matches Some(req) ==> ({
                let h = self.snapshot.last_included_index;
                let prev = self.next_index@[peer_slot as int] - 1;
                &&& req.term == self.current_term
                &&& req.leader_endpoint == self.endpoint
                &&& req.prev_log_index == prev
                &&& req.prev_log_term == self.spec_term_at(prev as int)
                &&& req.leader_commit == self.commit_index
                &&& req.entries@.len() == self.spec_last_index() - prev
                &&& forall|j: int|
                    0 <= j < req.entries@.len() ==> (#[trigger] req.entries@[j])@ == self.log@[prev
                        - h + j]@
                &&& wf_append_request(req)
            }),
    {
        let ni = self.next_index[peer_slot];
        let h = self.snapshot.last_included_index;
        if ni <= h {
            return None;
        }
        let prev = ni - 1;
        let prev_term = self.term_at_index(prev);
        let n = self.log.len();
        let pos = (prev - h) as usize;
        let mut entries: Vec<LogEntry> = Vec::new();
        let mut j: usize = pos;
        while j < n
            invariant
                pos <= j <= n,
                n == self.log@.len(),
                entries@.len() == j - pos,
                forall|i: int| 0 <= i < entries@.len() ==> (#[trigger] entries@[i])@ == self.log@[pos
                    + i]@,
            decreases n - j,
        {
            entries.push(self.log[j].clone());
            j = j + 1;
        }
        let req = AppendEntriesRequest {
            leader_endpoint: self.endpoint,
            term: self.current_term,
            prev_log_index: prev,
            prev_log_term: prev_term,
            leader_commit: self.commit_index,
            entries,
        };
        proof {
            assert forall|i: int| 0 <= i < req.entries@.len() implies (#[trigger] req.entries@[i]).index
                == req.prev_log_index + 1 + i by {
                assert(req.entries@[i]@ == self.log@[pos + i]@);
            }
            assert forall|i: int| 0 <= i < req.entries@.len() implies (#[trigger] req.entries@[i]).term
                <= req.term by {
                assert(req.entries@[i]@ == self.log@[pos + i]@);
            }
            assert forall|a: int, b: int| 0 <= a <= b < req.entries@.len() implies #[trigger] req.entries@[a].term
                <= #[trigger] req.entries@[b].term by {
                assert(req.entries@[a]@ == self.log@[pos + a]@);
                assert(req.entries@[b]@ == self.log@[pos + b]@);
                assert(self.log@[pos + a].term <= self.log@[pos + b].term);
            }
            if req.entries@.len() > 0 {
                assert(req.entries@[0]@ == self.log@[pos as int]@);
            }
        }
        Some(req)
    }

    /// Handle an inbound AppendEntries. A stale term is rejected without
    /// any state change; any other request is an authority assertion by
    /// the sender, so the node acknowledges it as the current leader and
    /// becomes Follower. On acceptance the batch is merged
    /// (truncate-and-append) and the commit index advances toward the
    /// leader's; on a consistency failure the reply carries the
    /// fast-backtrack hint: the term of the conflicting entry and the
    /// first index held at that term. The caller must make the merged
    /// entries durable before sending the response.
    #[verifier::rlimit(100)]
    pub fn handle_append_entries(&mut self, req: AppendEntriesRequest) -> (resp:
        AppendEntriesResponse)
        requires
            old(self).well_formed(),
            wf_append_request(req),
            old(self).spec_last_index() < u64::MAX,
        ensures
            final(self).well_formed(),
            final(self).current_term >= old(self).current_term,
            final(self).commit_index >= old(self).commit_index,
            final(self).last_applied == old(self).last_applied,
            final(self).snapshot == old(self).snapshot,
            final(self).snapshot_data == old(self).snapshot_data,
            final(self).endpoint == old(self).endpoint,
            final(self).peers == old(self).peers,
            resp.term == final(self).current_term,
            final(self).current_term == if req.term > old(self).current_term {
                req.term
            } else {
                old(self).current_term
            },
            // a stale term, or a clash with a standing leader of the same
            // term, is a pure rejection: no state change beyond the reply
            req.term < old(self).current_term ==> *final(self) == *old(self),
            (req.term == old(self).current_term && old(self).node_type == RaftNodeType::Leader)
                ==> *final(self) == *old(self),
            // any other request asserts the sender's authority: the node
            // becomes Follower and records the sender as leader
            (req.term >= old(self).current_term && !(req.term == old(self).current_term && old(
                self,
            ).node_type == RaftNodeType::Leader)) ==> final(self).node_type
                == RaftNodeType::Follower && final(self).current_leader == Some(
                req.leader_endpoint,
            ) && final(self).current_voted_for == (if req.term > old(self).current_term {
                None::<NodeId>
            } else {
                old(self).current_voted_for
            }),
            final(self).next_index == old(self).next_index,
            final(self).match_index == old(self).match_index,
            final(self).votes_granted == old(self).votes_granted,
            final(self).pending_start == old(self).pending_start,
            final(self).pending_end == old(self).pending_end,
            final(self).pending_data == old(self).pending_data,
            resp.success <==> spec_append_accepted(*old(self), req),
            !resp.success ==> final(self).log == old(self).log && final(self).commit_index == old(
                self,
            ).commit_index,
            resp.success ==> ({
                let h = old(self).snapshot.last_included_index;
                let pos = req.prev_log_index - h;
                let nl = final(self).spec_last_index();
                let lc: int = if req.leader_commit as int <= nl {
                    req.leader_commit as int
                } else {
                    nl
                };
                &&& final(self).node_type == RaftNodeType::Follower
                &&& final(self).current_leader == Some(req.leader_endpoint)
                &&& final(self).log@ == merge_entries(old(self).log@, pos as int, req.entries@)
                &&& final(self).commit_index as int == if lc > old(self).commit_index as int {
                    lc
                } else {
                    old(self).commit_index as int
                }
            }),
            // the follower's log is too short: point the leader at its end
            (req.term >= old(self).current_term && !(req.term == old(self).current_term && old(
                self,
            ).node_type == RaftNodeType::Leader) && req.prev_log_index > old(self).spec_last_index())
                ==> resp.conflict_index as int == old(self).spec_last_index() + 1
                && resp.conflict_term == 0,
            // a term conflict names the first index held at the conflicting term
            (req.term >= old(self).current_term && !(req.term == old(self).current_term && old(
                self,
            ).node_type == RaftNodeType::Leader) && old(self).snapshot.last_included_index
                < req.prev_log_index && req.prev_log_index <= old(self).spec_last_index() && old(
                self,
            ).spec_term_at(req.prev_log_index as int) != req.prev_log_term) ==> ({
                let h = old(self).snapshot.last_included_index;
                &&& resp.conflict_term == old(self).spec_term_at(req.prev_log_index as int)
                &&& h < resp.conflict_index
                &&& resp.conflict_index <= req.prev_log_index
                &&& old(self).spec_term_at(resp.conflict_index as int) == resp.conflict_term
                &&& (resp.conflict_index as int == h + 1 || old(self).spec_term_at(
                    resp.conflict_index - 1,
                ) != resp.conflict_term)
            }),
    {
        if req.term < self.current_term {
            return AppendEntriesResponse {
                term: self.current_term,
                success: false,
                conflict_index: 0,
                conflict_term: 0,
            };
        }
        if req.term == self.current_term && matches!(self.node_type, RaftNodeType::Leader) {
            return AppendEntriesResponse {
                term: self.current_term,
                success: false,
                conflict_index: 0,
                conflict_term: 0,
            };
        }
        self.observe_term(req.term);
        self.node_type = RaftNodeType::Follower;
        self.current_leader = Some(req.leader_endpoint);
        let h = self.snapshot.last_included_index;
        let last = self.last_log_index();
        let prev = req.prev_log_index;
        if prev > last {
            return AppendEntriesResponse {
                term: self.current_term,
                success: false,
                conflict_index: last + 1,
                conflict_term: 0,
            };
        }
        if prev < h {
            return AppendEntriesResponse {
                term: self.current_term,
                success: false,
                conflict_index: h + 1,
                conflict_term: 0,
            };
        }
        let my_prev_term = self.term_at_index(prev);
        if my_prev_term != req.prev_log_term {
            if prev == h {
                // the sender disagrees with the committed snapshot horizon;
                // unreachable in a safe execution
                return AppendEntriesResponse {
                    term: self.current_term,
                    success: false,
                    conflict_index: h + 1,
                    conflict_term: 0,
                };
            }
            // scan back to the first entry of the conflicting term
            let mut p: u64 = prev;
            while p > h + 1 && self.term_at_index(p - 1) == my_prev_term
                invariant
                    self.well_formed(),
                    h == self.snapshot.last_included_index,
                    h < p <= prev,
                    prev <= self.spec_last_index(),
                    self.spec_term_at(p as int) == my_prev_term,
                decreases p,
            {
                p = p - 1;
            }
            return AppendEntriesResponse {
                term: self.current_term,
                success: false,
                conflict_index: p,
                conflict_term: my_prev_term,
            };
        }
        // consistency check passed: merge the batch
        let leader_commit = req.leader_commit;
        let ok = self.merge_batch(req);
        if !ok {
            // the merge would truncate a committed entry; unreachable in a
            // safe execution
            return AppendEntriesResponse {
                term: self.current_term,
                success: false,
                conflict_index: 0,
                conflict_term: 0,
            };
        }
        let new_last = self.last_log_index();
        let lc = if leader_commit <= new_last {
            leader_commit
        } else {
            new_last
        };
        if lc > self.commit_index {
            self.commit_index = lc;
        }
        AppendEntriesResponse {
            term: self.current_term,
            success: true,
            conflict_index: 0,
            conflict_term: 0,
        }
    }

    /// Merge an accepted batch into the log: keep agreeing entries,
    /// truncate the first conflicting suffix, and append the remainder.
    /// Returns false, changing nothing, when the truncation would reach a
    /// committed entry; that cannot arise in a safe execution.
    #[verifier::rlimit(100)]
    fn merge_batch(&mut self, req: AppendEntriesRequest) -> (ok: bool)
        requires
            old(self).well_formed(),
            old(self).node_type != RaftNodeType::Leader,
            wf_append_request(req),
            req.term <= old(self).current_term,
            old(self).snapshot.last_included_index <= req.prev_log_index,
            req.prev_log_index as int <= old(self).spec_last_index(),
            old(self).spec_term_at(req.prev_log_index as int) == req.prev_log_term,
        ensures
            final(self).well_formed(),
            ({
                let h = old(self).snapshot.last_included_index;
                let pos = req.prev_log_index - h;
                let d = divergence(old(self).log@, pos as int, req.entries@);
                &&& (ok <==> (d == req.entries@.len() || pos + d >= old(self).log@.len()
                    || req.prev_log_index + d + 1 > old(self).commit_index))
                &&& (ok ==> final(self).log@ == merge_entries(
                    old(self).log@,
                    pos as int,
                    req.entries@,
                ))
                &&& (ok ==> final(self).spec_last_index() == if d == req.entries@.len() {
                    old(self).spec_last_index()
                } else {
                    req.prev_log_index + req.entries@.len()
                })
            }),
            !ok ==> final(self).log == old(self).log,
            final(self).node_type == old(self).node_type,
            final(self).current_term == old(self).current_term,
            final(self).current_voted_for == old(self).current_voted_for,
            final(self).current_leader == old(self).current_leader,
            final(self).commit_index == old(self).commit_index,
            final(self).last_applied == old(self).last_applied,
            final(self).snapshot == old(self).snapshot,
            final(self).snapshot_data == old(self).snapshot_data,
            final(self).endpoint == old(self).endpoint,
            final(self).peers == old(self).peers,
            final(self).next_index == old(self).next_index,
            final(self).match_index == old(self).match_index,
            final(self).votes_granted == old(self).votes_granted,
            final(self).pending_start == old(self).pending_start,
            final(self).pending_end == old(self).pending_end,
            final(self).pending_data == old(self).pending_data,
    {
        let h = self.snapshot.last_included_index;
        let prev = req.prev_log_index;
        let ghost old_log = self.log@;
        let ghost entries0 = req.entries@;
        let n = req.entries.len();
        let log_len = self.log.len();
        let pos = (prev - h) as usize;
        proof {
            assert(entries0.subrange(0, n as int) =~= entries0);
        }
        let mut j: usize = 0;
        while j < n && pos + j < log_len && self.log[pos + j].term == req.entries[j].term
            invariant
                j <= n,
                pos + j <= log_len,
                n == entries0.len(),
                entries0 == req.entries@,
                log_len == self.log@.len(),
                pos == prev - h,
                forall|i: int|
                    0 <= i < j ==> 0 <= pos + i < self.log@.len() && self.log@[pos + i].term
                        == (#[trigger] entries0[i]).term,
                divergence(self.log@, pos as int, entries0) == j + divergence(
                    self.log@,
                    pos + j,
                    entries0.subrange(j as int, n as int),
                ),
            decreases n - j,
        {
            proof {
                let sub = entries0.subrange(j as int, n as int);
                assert(sub[0] == entries0[j as int]);
                assert(sub.subrange(1, sub.len() as int) =~= entries0.subrange(
                    j as int + 1,
                    n as int,
                ));
                assert(divergence(self.log@, pos + j, sub) == 1 + divergence(
                    self.log@,
                    pos + j + 1,
                    entries0.subrange(j as int + 1, n as int),
                ));
            }
            j = j + 1;
        }
        proof {
            let sub = entries0.subrange(j as int, n as int);
            if j < n {
                assert(sub[0] == entries0[j as int]);
            }
            assert(divergence(self.log@, pos as int + j as int, sub) == 0);
            assert(divergence(self.log@, pos as int, entries0) == j);
        }
        if j < n {
            if pos + j < log_len {
                // a conflicting suffix exists
                let conflict_global = prev + (j as u64) + 1;
                if conflict_global <= self.commit_index {
                    return false;
                }
                self.log.truncate(pos + j);
            } else {
                proof {
                    assert(self.log@ =~= old_log.subrange(0, (pos + j) as int));
                }
            }
            let mut batch = req;
            let mut tail = batch.entries.split_off(j);
            self.log.append(&mut tail);
            proof {
                assert(self.log@ == old_log.subrange(0, (pos + j) as int) + entries0.subrange(
                    j as int,
                    n as int,
                ));
            }
        }
        proof {
            assert(self.log@ =~= merge_entries(old_log, pos as int, entries0));
            let hi = self.snapshot.last_included_index as int;
            let cut = pos + j;
            let li = self.log@;
            if j < n {
                assert(li.len() == pos + n);
                assert(hi + li.len() == req.prev_log_index + n <= u64::MAX);
                assert forall|q: int| 0 <= q < li.len() implies (#[trigger] li[q]).index == hi + q
                    + 1 by {
                    if q < cut {
                        assert(li[q] == old_log[q]);
                    } else {
                        assert(li[q] == entries0[q - pos]);
                        assert(entries0[q - pos].index == req.prev_log_index + 1 + (q - pos));
                    }
                }
                assert forall|q: int| 0 <= q < li.len() implies (#[trigger] li[q]).term
                    <= self.current_term by {
                    if q < cut {
                        assert(li[q] == old_log[q]);
                    } else {
                        assert(li[q] == entries0[q - pos]);
                    }
                }
                assert forall|a: int, b: int| 0 <= a <= b < li.len() implies #[trigger] li[a].term
                    <= #[trigger] li[b].term by {
                    if b < cut {
                        assert(li[a] == old_log[a] && li[b] == old_log[b]);
                    } else if a >= cut {
                        assert(li[a] == entries0[a - pos] && li[b] == entries0[b - pos]);
                    } else {
                        // a is a kept entry, b a shipped one
                        assert(li[a] == old_log[a]);
                        assert(li[b] == entries0[b - pos]);
                        if j > 0 {
                            assert(old_log[a].term <= old_log[cut - 1].term);
                            assert(old_log[cut - 1].term == entries0[j - 1].term);
                            assert(entries0[j - 1].term <= entries0[b - pos].term);
                        } else {
                            // a < cut == pos, so pos > 0 and the junction
                            // runs through prev_log_term
                            assert(old_log[a].term <= old_log[pos - 1].term);
                            assert(old_log[pos - 1].term == req.prev_log_term);
                            assert(req.prev_log_term <= entries0[0].term);
                            assert(entries0[0].term <= entries0[b - pos].term);
                        }
                    }
                }
                if li.len() > 0 {
                    if cut > 0 {
                        assert(li[0] == old_log[0]);
                    } else {
                        assert(li[0] == entries0[0]);
                        assert(self.snapshot.last_included_term == req.prev_log_term);
                    }
                }
                assert(self.commit_index <= hi + li.len());
            } else {
                assert(li == old_log);
            }
            assert(self.well_formed());
        }
        true
    }


    /// Whether the entry at global index `gi` may be committed by this
    /// leader: it lies in the log, a strict majority of the cluster holds
    /// it (the leader counts itself), and — the leader-completeness
    /// safeguard — it was appended in the leader's current term.
    pub open spec fn spec_committable(&self, gi: int) -> bool {
        &&& self.snapshot.last_included_index < gi <= self.spec_last_index()
        &&& self.spec_term_at(gi) == self.current_term
        &&& is_majority(count_ge(self.match_index@, gi as u64) + 1, self.spec_cluster_size())
    }

    /// How many peers are known to hold the entry at global index `x`.
    fn count_match_at_least(&self, x: u64) -> (c: usize)
        requires
            self.well_formed(),
        ensures
            c == count_ge(self.match_index@, x),
            c <= self.match_index@.len(),
    {
        let n = self.match_index.len();
        let mut c: usize = 0;
        let mut i: usize = 0;
        while i < n
            invariant
                i <= n,
                n == self.match_index@.len(),
                c == count_ge(self.match_index@.subrange(0, i as int), x),
                c <= i,
            decreases n - i,
        {
            proof {
                lemma_count_ge_step(self.match_index@, i as int, x);
            }
            if self.match_index[i] >= x {
                c = c + 1;
            }
            i = i + 1;
        }
        proof {
            assert(self.match_index@.subrange(0, n as int) =~= self.match_index@);
        }
        c
    }

    /// The highest committable index, or the current commit index when no
    /// higher one is committable.
    fn compute_commit(&self) -> (c: u64)
        requires
            self.well_formed(),
            self.node_type == RaftNodeType::Leader,
        ensures
            self.commit_index <= c,
            c as int <= self.spec_last_index(),
            c > self.commit_index ==> self.spec_committable(c as int),
            forall|g: int| c < g <= self.spec_last_index() ==> !self.spec_committable(g),
    {
        let last = self.last_log_index();
        let h = self.snapshot.last_included_index;
        let n = self.peers.len();
        let mut idx = last;
        while idx > self.commit_index
            invariant
                self.well_formed(),
                self.node_type == RaftNodeType::Leader,
                self.commit_index <= idx,
                idx <= last,
                last as int == self.spec_last_index(),
                h == self.snapshot.last_included_index,
                n == self.peers@.len(),
                forall|g: int| idx < g <= self.spec_last_index() ==> !self.spec_committable(g),
            decreases idx,
        {
            if idx > h {
                let t = self.term_at_index(idx);
                if t == self.current_term {
                    let c = self.count_match_at_least(idx);
                    if 2 * (c + 1) > n + 1 {
                        return idx;
                    }
                }
            } else {
                proof {
                    assert forall|g: int| self.commit_index < g <= self.spec_last_index() implies
                        !self.spec_committable(g) by {
                        if g <= idx {
                            assert(g <= h);
                        }
                    }
                }
                return self.commit_index;
            }
            idx = idx - 1;
        }
        self.commit_index
    }

    /// Each time a peer acknowledges more of the log, recompute the commit
    /// index: it advances to the highest index held by a strict majority,
    /// but only if that entry carries the leader's current term. The commit
    /// index never moves backwards.
    pub fn advance_commit(&mut self)
        requires
            old(self).well_formed(),
            old(self).node_type == RaftNodeType::Leader,
        ensures
            final(self).well_formed(),
            final(self).commit_index >= old(self).commit_index,
            final(self).commit_index > old(self).commit_index ==> old(self).spec_committable(
                final(self).commit_index as int,
            ),
            forall|g: int|
                final(self).commit_index < g <= old(self).spec_last_index() ==> !old(
                    self,
                ).spec_committable(g),
            final(self).node_type == old(self).node_type,
            final(self).current_term == old(self).current_term,
            final(self).current_voted_for == old(self).current_voted_for,
            final(self).current_leader == old(self).current_leader,
            final(self).last_applied == old(self).last_applied,
            final(self).log == old(self).log,
            final(self).snapshot == old(self).snapshot,
            final(self).snapshot_data == old(self).snapshot_data,
            final(self).endpoint == old(self).endpoint,
            final(self).peers == old(self).peers,
            final(self).next_index == old(self).next_index,
            final(self).match_index == old(self).match_index,
            final(self).votes_granted == old(self).votes_granted,
            final(self).pending_start == old(self).pending_start,
            final(self).pending_end == old(self).pending_end,
            final(self).pending_data == old(self).pending_data,
    {
        let c = self.compute_commit();
        self.commit_index = c;
    }

    /// Handle the response to the AppendEntries built from `req` for the
    /// peer in slot `peer_slot`. A response carrying a higher term demotes
    /// the node; one for a stale term, or arriving when no longer Leader,
    /// is discarded. Success moves the peer's progress to the end of the
    /// acknowledged batch (never backwards) and recomputes the commit
    /// index. A rejection moves `next_index` back in one step: to just past
    /// the leader's last entry of the conflicting term if it has any, else
    /// to the follower's hinted `conflict_index`.
    pub fn handle_append_response(
        &mut self,
        peer_slot: usize,
        req: &AppendEntriesRequest,
        resp: &AppendEntriesResponse,
    )
        requires
            old(self).well_formed(),
            peer_slot < old(self).peers@.len(),
            old(self).spec_last_index() < u64::MAX,
            old(self).node_type == RaftNodeType::Leader && req.term == old(self).current_term
                ==> req.prev_log_index + req.entries@.len() <= old(self).spec_last_index(),
        ensures
            final(self).well_formed(),
            final(self).current_term >= old(self).current_term,
            final(self).commit_index >= old(self).commit_index,
            final(self).log == old(self).log,
            final(self).last_applied == old(self).last_applied,
            final(self).snapshot == old(self).snapshot,
            final(self).snapshot_data == old(self).snapshot_data,
            final(self).endpoint == old(self).endpoint,
            final(self).peers == old(self).peers,
            // a higher term in the reply demotes the leader
            resp.term > old(self).current_term ==> final(self).current_term == resp.term
                && final(self).node_type == RaftNodeType::Follower,
            // a reply at or below the current term never changes the role,
            // the term, the vote, or the known leader
            resp.term <= old(self).current_term ==> final(self).node_type == old(self).node_type
                && final(self).current_term == old(self).current_term && final(self).current_voted_for == old(self).current_voted_for && final(self).current_leader == old(
                self,
            ).current_leader && final(self).votes_granted == old(self).votes_granted,
            // term fencing: stale or misdirected responses change nothing
            resp.term <= old(self).current_term && (old(self).node_type != RaftNodeType::Leader
                || req.term != old(self).current_term) ==> *final(self) == *old(self),
            // success: progress is monotone and commit may advance
            (resp.term <= old(self).current_term && old(self).node_type == RaftNodeType::Leader
                && req.term == old(self).current_term && resp.success) ==> ({
                let p = peer_slot as int;
                let m: int = req.prev_log_index + req.entries@.len();
                &&& (m > old(self).match_index@[p] ==> final(self).match_index@ == old(
                    self,
                ).match_index@.update(p, (req.prev_log_index + req.entries@.len() as u64) as u64)
                    && final(self).next_index@[p] == m + 1 && (final(self).commit_index > old(
                    self,
                ).commit_index ==> final(self).spec_committable(final(self).commit_index as int))
                    && (forall|g: int|
                    final(self).commit_index < g <= final(self).spec_last_index() ==> !final(self).spec_committable(g)))
                &&& (m <= old(self).match_index@[p] ==> final(self).match_index == old(
                    self,
                ).match_index && final(self).next_index == old(self).next_index && final(self).commit_index == old(self).commit_index)
                &&& final(self).current_term == old(self).current_term
                &&& final(self).node_type == RaftNodeType::Leader
            }),
            // rejection: one-step backtrack of next_index
            (resp.term <= old(self).current_term && old(self).node_type == RaftNodeType::Leader
                && req.term == old(self).current_term && !resp.success && !(resp.conflict_index
                == 0 && resp.conflict_term == 0)) ==> ({
                let p = peer_slot as int;
                let h = old(self).snapshot.last_included_index;
                let lp = last_pos_of_term(old(self).log@, resp.conflict_term);
                let raw: int = if resp.conflict_term > 0 && lp >= 0 {
                    h + lp + 2
                } else {
                    resp.conflict_index as int
                };
                let lo: int = if raw > old(self).match_index@[p] + 1 {
                    raw
                } else {
                    old(self).match_index@[p] + 1
                };
                let tgt: int = if lo < old(self).spec_last_index() + 1 {
                    lo
                } else {
                    old(self).spec_last_index() + 1
                };
                &&& final(self).next_index@ == old(self).next_index@.update(p, tgt as u64)
                &&& final(self).match_index == old(self).match_index
                &&& final(self).commit_index == old(self).commit_index
            }),
    {
        if resp.term > self.current_term {
            self.observe_term(resp.term);
            return;
        }
        if !(matches!(self.node_type, RaftNodeType::Leader)) || req.term != self.current_term {
            return;
        }
        let p = peer_slot;
        if resp.success {
            let m = req.prev_log_index + req.entries.len() as u64;
            if m > self.match_index[p] {
                self.match_index[p] = m;
                self.next_index[p] = m + 1;
                let ghost mid = *self;
                self.advance_commit();
                proof {
                    assert forall|g: int|
                        self.commit_index < g <= self.spec_last_index() implies !self.spec_committable(
                        g,
                    ) by {
                        assert(!mid.spec_committable(g));
                    }
                }
            }
        } else {
            if resp.conflict_index == 0 && resp.conflict_term == 0 {
                // a defensive rejection carries no hint; retry unchanged
                return;
            }
            let h = self.snapshot.last_included_index;
            let mut nxt: u64;
            if resp.conflict_term > 0 {
                match self.find_last_of_term(resp.conflict_term) {
                    Some(k) => {
                        nxt = h + (k as u64) + 2;
                    },
                    None => {
                        nxt = resp.conflict_index;
                    },
                }
            } else {
                nxt = resp.conflict_index;
            }
            let m = self.match_index[p];
            proof {
                assert(self.next_index@[p as int] <= self.spec_last_index() + 1);
            }
            if nxt < m + 1 {
                nxt = m + 1;
            }
            let last = self.last_log_index();
            if nxt > last + 1 {
                nxt = last + 1;
            }
            self.next_index[p] = nxt;
        }
    }

    /// The position of the last log entry carrying term `t`, if any.
    fn find_last_of_term(&self, t: u64) -> (r: Option<usize>)
        requires
            self.well_formed(),
        ensures
            r matches Some(k) ==> last_pos_of_term(self.log@, t) == k && k < self.log@.len(),
            r is None ==> last_pos_of_term(self.log@, t) == -1,
    {
        let n = self.log.len();
        proof {
            assert(self.log@.subrange(0, n as int) =~= self.log@);
        }
        let mut k = n;
        while k > 0
            invariant
                k <= n,
                n == self.log@.len(),
                last_pos_of_term(self.log@, t) == last_pos_of_term(
                    self.log@.subrange(0, k as int),
                    t,
                ),
            decreases k,
        {
            proof {
                let s = self.log@.subrange(0, k as int);
                assert(s.last() == self.log@[k - 1]);
                assert(s.drop_last() =~= self.log@.subrange(0, k as int - 1));
            }
            if self.log[k - 1].term == t {
                return Some(k - 1);
            }
            k = k - 1;
        }
        proof {
            assert(self.log@.subrange(0, 0) =~= Seq::<LogEntry>::empty());
        }
        None
    }

    /// Hand out the entries between `last_applied` and `commit_index`, in
    /// strictly increasing index order with no gaps, and mark them
    /// applied. The caller invokes the application callback on each entry
    /// in the order of this vector, exactly once.
    pub fn take_applicable(&mut self) -> (out: Vec<LogEntry>)
        requires
            old(self).well_formed(),
        ensures
            final(self).well_formed(),
            final(self).last_applied == old(self).commit_index,
            out@.len() == old(self).commit_index - old(self).last_applied,
            forall|i: int|
                0 <= i < out@.len() ==> (#[trigger] out@[i])@ == old(self).log@[old(
                    self,
                ).last_applied - old(self).snapshot.last_included_index + i]@,
            forall|i: int|
                0 <= i < out@.len() ==> (#[trigger] out@[i]).index == old(self).last_applied + 1
                    + i,
            final(self).node_type == old(self).node_type,
            final(self).current_term == old(self).current_term,
            final(self).current_voted_for == old(self).current_voted_for,
            final(self).current_leader == old(self).current_leader,
            final(self).commit_index == old(self).commit_index,
            final(self).log == old(self).log,
            final(self).snapshot == old(self).snapshot,
            final(self).snapshot_data == old(self).snapshot_data,
            final(self).endpoint == old(self).endpoint,
            final(self).peers == old(self).peers,
            final(self).next_index == old(self).next_index,
            final(self).match_index == old(self).match_index,
    {
        let h = self.snapshot.last_included_index;
        let nlen = self.log.len();
        proof {
            assert(self.commit_index - h <= nlen);
        }
        let start = (self.last_applied - h) as usize;
        let end = (self.commit_index - h) as usize;
        let mut out: Vec<LogEntry> = Vec::new();
        let mut i: usize = start;
        while i < end
            invariant
                start <= i <= end,
                end <= self.log@.len(),
                self.well_formed(),
                start == self.last_applied - self.snapshot.last_included_index,
                end == self.commit_index - self.snapshot.last_included_index,
                out@.len() == i - start,
                forall|q: int| 0 <= q < out@.len() ==> (#[trigger] out@[q])@ == self.log@[start + q]@,
            decreases end - i,
        {
            out.push(self.log[i].clone());
            i = i + 1;
        }
        self.last_applied = self.commit_index;
        proof {
            assert forall|q: int| 0 <= q < out@.len() implies (#[trigger] out@[q]).index == old(
                self,
            ).last_applied + 1 + q by {
                assert(out@[q]@ == old(self).log@[start + q]@);
                assert(old(self).log@[start + q].index == old(self).snapshot.last_included_index
                    + (start + q) + 1);
            }
        }
        out
    }

    /// Replace the log prefix up to `gi` (which must already be applied)
    /// with the compacted state `state_bytes`, moving the snapshot horizon
    /// to `gi`. Replication to peers that still need older entries goes
    /// through the snapshot coordinator afterwards.
    pub fn compact_to(&mut self, gi: u64, state_bytes: Vec<u8>)
        requires
            old(self).well_formed(),
            old(self).snapshot.last_included_index <= gi,
            gi <= old(self).last_applied,
        ensures
            final(self).well_formed(),
            final(self).snapshot.last_included_index == gi,
            final(self).snapshot.last_included_term == old(self).spec_term_at(gi as int),
            final(self).log@ == old(self).log@.subrange(
                gi - old(self).snapshot.last_included_index,
                old(self).log@.len() as int,
            ),
            final(self).snapshot_data == state_bytes,
            final(self).spec_last_index() == old(self).spec_last_index(),
            final(self).node_type == old(self).node_type,
            final(self).current_term == old(self).current_term,
            final(self).current_voted_for == old(self).current_voted_for,
            final(self).commit_index == old(self).commit_index,
            final(self).last_applied == old(self).last_applied,
            final(self).endpoint == old(self).endpoint,
            final(self).peers == old(self).peers,
            final(self).next_index == old(self).next_index,
            final(self).match_index == old(self).match_index,
    {
        let t = self.term_at_index(gi);
        let h = self.snapshot.last_included_index;
        let nlen = self.log.len();
        proof {
            assert(gi - h <= nlen);
        }
        let k = (gi - h) as usize;
        let tail = self.log.split_off(k);
        self.log = tail;
        self.snapshot = crate::node::SnapshotState {
            last_included_index: gi,
            last_included_term: t,
            total_chunks: self.snapshot.total_chunks,
            chunks_received: self.snapshot.chunks_received,
        };
        self.snapshot_data = state_bytes;
        proof {
            let li = self.log@;
            let ol = old(self).log@;
            assert forall|q: int| 0 <= q < li.len() implies (#[trigger] li[q]).index == gi + q
                + 1 by {
                assert(li[q] == ol[k + q]);
            }
            assert forall|q: int| 0 <= q < li.len() implies (#[trigger] li[q]).term
                <= self.current_term by {
                assert(li[q] == ol[k + q]);
            }
            assert forall|a: int, b: int| 0 <= a <= b < li.len() implies #[trigger] li[a].term
                <= #[trigger] li[b].term by {
                assert(li[a] == ol[k + a] && li[b] == ol[k + b]);
            }
            if li.len() > 0 {
                assert(li[0] == ol[k as int]);
                if k > 0 {
                    assert(ol[k - 1].term <= ol[k as int].term);
                }
            }
            assert(self.well_formed());
        }
    }
}

} // verus!
