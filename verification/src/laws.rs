//! The safety laws of the protocol, proved over the models that the
//! handlers' contracts are stated in.
//!
//! Commit monotonicity and apply-in-order are stated directly as `ensures`
//! of the transition functions (`commit_index` never decreases in any
//! handler; `take_applicable` hands out a gap-free, strictly increasing
//! run of indices). The laws here are the ones that relate several nodes
//! or several calls.

use vstd::prelude::*;
use vstd::set_lib::lemma_len_subset;
use crate::NodeId;
use crate::node::{lex_geq, LogEntry};
use crate::replication::{divergence, lemma_divergence_bounds, merge_entries};
use crate::snapshot::snap_step;

verus! {

/// Two disjoint finite sets contribute their sizes to their union.
proof fn lemma_disjoint_union_len(s1: Set<NodeId>, s2: Set<NodeId>)
    requires
        s1.finite(),
        s2.finite(),
        s1.disjoint(s2),
    ensures
        s1.union(s2).len() == s1.len() + s2.len(),
    decreases s1.len(),
{
    if s1.is_empty() {
        assert(s1.union(s2) =~= s2);
    } else {
        let a = s1.choose();
        assert(s1.remove(a).union(s2) =~= s1.union(s2).remove(a));
        lemma_disjoint_union_len(s1.remove(a), s2);
    }
}

/// Any two strict majorities of one finite cluster share a member. This
/// is the structural core of both election safety and leader
/// completeness: a commit quorum and a vote quorum always intersect.
pub proof fn lemma_quorums_intersect(cluster: Set<NodeId>, q1: Set<NodeId>, q2: Set<NodeId>) -> (w:
    NodeId)
    requires
        cluster.finite(),
        q1.subset_of(cluster),
        q2.subset_of(cluster),
        2 * q1.len() > cluster.len(),
        2 * q2.len() > cluster.len(),
    ensures
        q1.contains(w),
        q2.contains(w),
{
    lemma_len_subset(q1, cluster);
    lemma_len_subset(q2, cluster);
    let inter = q1.intersect(q2);
    assert(inter.subset_of(q1));
    lemma_len_subset(inter, q1);
    if inter.len() == 0 {
        inter.lemma_len0_is_empty();
        assert forall|x: NodeId| #[trigger] q1.contains(x) implies !q2.contains(x) by {
            if q2.contains(x) {
                assert(inter.contains(x));
            }
        }
        assert(q1.disjoint(q2));
        lemma_disjoint_union_len(q1, q2);
        assert(q1.union(q2).subset_of(cluster));
        lemma_len_subset(q1.union(q2), cluster);
        assert(false);
    }
    let w = inter.choose();
    assert(inter.contains(w));
    w
}

/// Election safety: at most one node becomes Leader in any term. In one
/// term, each voter grants at most one candidate (`handle_vote_request`
/// records the vote and refuses a conflicting one, and the vote survives
/// restarts); `votes` maps each voter to the candidate it granted. A
/// candidate wins only with a strict majority of grants
/// (`handle_vote_response`), so two winners would need two majorities
/// whose common voter granted both: the winners are the same node.
pub proof fn lemma_election_safety(
    cluster: Set<NodeId>,
    votes: Map<NodeId, NodeId>,
    a: NodeId,
    b: NodeId,
    qa: Set<NodeId>,
    qb: Set<NodeId>,
)
    requires
        cluster.finite(),
        qa.subset_of(cluster),
        qb.subset_of(cluster),
        2 * qa.len() > cluster.len(),
        2 * qb.len() > cluster.len(),
        forall|v: NodeId| qa.contains(v) ==> votes.dom().contains(v) && votes[v] == a,
        forall|v: NodeId| qb.contains(v) ==> votes.dom().contains(v) && votes[v] == b,
    ensures
        a == b,
{
    let w = lemma_quorums_intersect(cluster, qa, qb);
    assert(votes[w] == a && votes[w] == b);
}


/// The term of the last entry of a log, with 0 for the empty log.
pub open spec fn last_term_of(log: Seq<LogEntry>) -> u64 {
    if log.len() == 0 {
        0
    } else {
        log.last().term
    }
}

/// One step of the leader completeness argument: an entry committed by a
/// quorum is held by some voter of any later winner, and the winner's
/// last log position is at least that voter's under the (term, index)
/// order — exactly the facts that `handle_vote_request` establishes when
/// it grants. The full property — the committed entry appears in the
/// winner's own log — follows from these steps by induction over
/// elections.
pub proof fn lemma_leader_completeness_step(
    cluster: Set<NodeId>,
    commit_q: Set<NodeId>,
    vote_q: Set<NodeId>,
    logs: Map<NodeId, Seq<LogEntry>>,
    e_term: u64,
    e_index: int,
    cand_last_term: u64,
    cand_last_index: u64,
) -> (w: NodeId)
    requires
        cluster.finite(),
        commit_q.subset_of(cluster),
        vote_q.subset_of(cluster),
        2 * commit_q.len() > cluster.len(),
        2 * vote_q.len() > cluster.len(),
        forall|v: NodeId|
            #[trigger] commit_q.contains(v) ==> logs.dom().contains(v) && 1 <= e_index
                <= logs[v].len() && logs[v][e_index - 1].term == e_term,
        forall|v: NodeId|
            #[trigger] vote_q.contains(v) ==> logs.dom().contains(v) && lex_geq(
                cand_last_term,
                cand_last_index,
                last_term_of(logs[v]),
                logs[v].len() as u64,
            ),
    ensures
        commit_q.contains(w),
        vote_q.contains(w),
        1 <= e_index <= logs[w].len(),
        logs[w][e_index - 1].term == e_term,
        lex_geq(cand_last_term, cand_last_index, last_term_of(logs[w]), logs[w].len() as u64),
{
    let w = lemma_quorums_intersect(cluster, commit_q, vote_q);
    assert(1 <= e_index <= logs[w].len() && logs[w][e_index - 1].term == e_term);
    assert(lex_geq(cand_last_term, cand_last_index, last_term_of(logs[w]), logs[w].len() as u64));
    w
}

/// Log matching, as a relation between two logs: wherever they hold the
/// same term at the same position, they agree on that entry and every
/// preceding one.
pub open spec fn logs_match(l1: Seq<LogEntry>, l2: Seq<LogEntry>) -> bool {
    forall|i: int|
        0 <= i < l1.len() && i < l2.len() && (#[trigger] l1[i]).term == (#[trigger] l2[i]).term
            ==> l1.subrange(0, i + 1) == l2.subrange(0, i + 1)
}

/// Every position the divergence scan passes agrees on its term.
proof fn lemma_divergence_agree(log: Seq<LogEntry>, pos: int, new: Seq<LogEntry>, i: int)
    requires
        0 <= i < divergence(log, pos, new),
    ensures
        i < new.len(),
        0 <= pos + i < log.len(),
        log[pos + i].term == new[i].term,
    decreases i,
{
    lemma_divergence_bounds(log, pos, new);
    if i == 0 {
    } else {
        lemma_divergence_agree(log, pos + 1, new.subrange(1, new.len() as int), i - 1);
    }
}

/// Log matching is preserved by the follower's truncate-and-append merge:
/// if matching held between the leader's log and the follower's, and the
/// follower accepts the leader's whole suffix after an agreed previous
/// position, the merged log extends the leader's log exactly — so the two
/// match afterwards as well, position by position.
pub proof fn lemma_log_matching_preserved(
    leader: Seq<LogEntry>,
    follower: Seq<LogEntry>,
    pos: int,
    batch: Seq<LogEntry>,
)
    requires
        logs_match(leader, follower),
        0 <= pos <= leader.len(),
        pos <= follower.len(),
        batch == leader.subrange(pos, leader.len() as int),
        pos > 0 ==> pos - 1 < follower.len() && follower[pos - 1].term == leader[pos - 1].term,
    ensures
        merge_entries(follower, pos, batch).len() >= leader.len(),
        merge_entries(follower, pos, batch).subrange(0, leader.len() as int) == leader,
        logs_match(leader, merge_entries(follower, pos, batch)),
{
    let d = divergence(follower, pos, batch);
    lemma_divergence_bounds(follower, pos, batch);
    if d > 0 {
        lemma_divergence_agree(follower, pos, batch, d - 1);
    }
    assert(pos + d <= follower.len());
    let merged = merge_entries(follower, pos, batch);
    // the logs agree up to `pos`
    if pos > 0 {
        assert(leader[pos - 1].term == follower[pos - 1].term);
        assert(leader.subrange(0, pos) == follower.subrange(0, pos));
    } else {
        assert(leader.subrange(0, 0) =~= follower.subrange(0, 0));
    }
    // every scanned position already holds the leader's entry
    assert forall|i: int| 0 <= i < d implies follower[pos + i] == batch[i] by {
        lemma_divergence_agree(follower, pos, batch, i);
        assert(batch[i] == leader[pos + i]);
        assert(follower.subrange(0, pos + i + 1) == leader.subrange(0, pos + i + 1));
        assert(follower.subrange(0, pos + i + 1)[pos + i] == follower[pos + i]);
    }
    if d == batch.len() {
        assert(merged == follower);
        assert forall|q: int| 0 <= q < leader.len() implies follower[q] == leader[q] by {
            if q < pos {
                assert(follower.subrange(0, pos)[q] == follower[q]);
                assert(leader.subrange(0, pos)[q] == leader[q]);
            } else {
                assert(follower[pos + (q - pos)] == batch[q - pos]);
                assert(batch[q - pos] == leader[q]);
            }
        }
        assert(merged.subrange(0, leader.len() as int) =~= leader);
    } else {
        assert(merged == follower.subrange(0, pos + d) + batch.subrange(d, batch.len() as int));
        assert(merged.len() == leader.len());
        assert forall|q: int| 0 <= q < leader.len() implies merged[q] == leader[q] by {
            if q < pos {
                assert(merged[q] == follower[q]);
                assert(follower.subrange(0, pos)[q] == follower[q]);
                assert(leader.subrange(0, pos)[q] == leader[q]);
            } else if q < pos + d {
                assert(merged[q] == follower[q]);
                assert(follower[pos + (q - pos)] == batch[q - pos]);
                assert(batch[q - pos] == leader[q]);
            } else {
                assert(merged[q] == batch.subrange(d, batch.len() as int)[q - pos - d]);
                assert(batch[q - pos] == leader[q]);
            }
        }
        assert(merged.subrange(0, leader.len() as int) =~= leader);
        assert(merged =~= leader);
    }
    // matching afterwards: the merged log carries the leader's log as its
    // prefix, so any agreement below the leader's length is agreement
    // between identical prefixes
    assert forall|i: int|
        0 <= i < leader.len() && i < merged.len() && (#[trigger] leader[i]).term == (
        #[trigger] merged[i]).term implies leader.subrange(0, i + 1) == merged.subrange(
        0,
        i + 1,
    ) by {
        assert(merged.subrange(0, leader.len() as int).subrange(0, i + 1) =~= merged.subrange(
            0,
            i + 1,
        ));
        assert(leader.subrange(0, i + 1) =~= merged.subrange(0, leader.len() as int).subrange(
            0,
            i + 1,
        ));
    }
}

/// The fold of the receiver's transfer steps over the chunks numbered
/// `from + 1 ..= to`, starting from `received` chunks and buffer `buf`.
pub open spec fn snap_run(
    received: u64,
    buf: Seq<u8>,
    chunks: Seq<Seq<u8>>,
    from: int,
    to: int,
) -> (u64, Seq<u8>)
    decreases to - from,
{
    if from >= to {
        (received, buf)
    } else {
        let s = snap_step(received, buf, (from + 1) as u64, chunks[from]);
        snap_run(s.0, s.1, chunks, from + 1, to)
    }
}

/// A run over a range of chunks is the run over any split of it.
proof fn lemma_snap_run_split(
    received: u64,
    buf: Seq<u8>,
    chunks: Seq<Seq<u8>>,
    a: int,
    b: int,
    c: int,
)
    requires
        a <= b <= c,
    ensures
        snap_run(received, buf, chunks, a, c) == ({
            let m = snap_run(received, buf, chunks, a, b);
            snap_run(m.0, m.1, chunks, b, c)
        }),
    decreases b - a,
{
    if a < b {
        let s = snap_step(received, buf, (a + 1) as u64, chunks[a]);
        lemma_snap_run_split(s.0, s.1, chunks, a + 1, b, c);
    }
}

/// Snapshot resumability: interrupting a transfer after chunk `k` and
/// resuming from the acknowledged count yields exactly the state of an
/// uninterrupted transfer. An interruption does not move the receiver's
/// state, and `handle_install_snapshot` ignores replayed chunks, so the
/// resumed run continues the same fold.
pub proof fn lemma_snapshot_resumable(chunks: Seq<Seq<u8>>, k: int)
    requires
        0 <= k <= chunks.len(),
    ensures
        ({
            let mid = snap_run(0, Seq::empty(), chunks, 0, k);
            snap_run(mid.0, mid.1, chunks, k, chunks.len() as int) == snap_run(
                0,
                Seq::empty(),
                chunks,
                0,
                chunks.len() as int,
            )
        }),
{
    lemma_snap_run_split(0, Seq::empty(), chunks, 0, k, chunks.len() as int);
}

/// A replayed chunk, numbered at or below the received count, leaves the
/// receiver's state unchanged: re-sending after a lost acknowledgment is
/// idempotent.
pub proof fn lemma_snapshot_duplicate_ignored(
    received: u64,
    buf: Seq<u8>,
    sent: u64,
    chunk: Seq<u8>,
)
    requires
        sent <= received,
    ensures
        snap_step(received, buf, sent, chunk) == (received, buf),
{
}

/// The concatenation of the first `upto` chunks.
pub open spec fn concat_chunks(chunks: Seq<Seq<u8>>, upto: int) -> Seq<u8>
    decreases upto,
{
    if upto <= 0 {
        Seq::empty()
    } else {
        concat_chunks(chunks, upto - 1) + chunks[upto - 1]
    }
}

/// From `k` chunks received with their bytes buffered, an in-order run of
/// the remaining chunks ends with all of them received and all bytes
/// buffered, in order.
proof fn lemma_snap_run_content(chunks: Seq<Seq<u8>>, k: int, t: int)
    requires
        0 <= k <= t <= chunks.len(),
        chunks.len() <= u64::MAX,
    ensures
        snap_run(k as u64, concat_chunks(chunks, k), chunks, k, t) == ((
            t as u64,
            concat_chunks(chunks, t),
        )),
    decreases t - k,
{
    if k < t {
        assert(snap_step(k as u64, concat_chunks(chunks, k), (k + 1) as u64, chunks[k]) == ((
            (k + 1) as u64,
            concat_chunks(chunks, k + 1),
        )));
        lemma_snap_run_content(chunks, k + 1, t);
    }
}

/// An uninterrupted transfer ends with every chunk received and exactly
/// the concatenation of all chunk bytes buffered: the installed state is,
/// byte for byte, the state that was sent.
pub proof fn lemma_snapshot_transfer_complete(chunks: Seq<Seq<u8>>)
    requires
        chunks.len() <= u64::MAX,
    ensures
        snap_run(0, Seq::empty(), chunks, 0, chunks.len() as int) == ((
            chunks.len() as u64,
            concat_chunks(chunks, chunks.len() as int),
        )),
{
    assert(concat_chunks(chunks, 0) == Seq::<u8>::empty());
    lemma_snap_run_content(chunks, 0, chunks.len() as int);
}

} // verus!
