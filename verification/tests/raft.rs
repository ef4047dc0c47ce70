use raft_core::node::{LogEntry, RaftNode, RaftNodeType, SnapshotState};
use raft_core::RaftFault;

fn entry(term: u64, index: u64, payload: &[u8]) -> LogEntry {
    LogEntry { term, index, payload: payload.to_vec() }
}

#[test]
fn first_election_makes_a_leader() {
    // 3-node cluster, empty logs; A's timer fires first
    let mut a = RaftNode::new(1, vec![2, 3]);
    let mut b = RaftNode::new(2, vec![1, 3]);
    let mut c = RaftNode::new(3, vec![1, 2]);

    let req = a.handle_election_timeout();
    assert_eq!(a.node_type, RaftNodeType::Candidate);
    assert_eq!(a.current_term, 1);
    assert_eq!(req.term, 1);
    assert_eq!(req.candidate_endpoint, 1);

    let resp_b = b.handle_vote_request(&req);
    let resp_c = c.handle_vote_request(&req);
    assert!(resp_b.vote_granted);
    assert!(resp_c.vote_granted);
    assert_eq!(b.current_voted_for, Some(1));
    assert_eq!(c.current_voted_for, Some(1));

    let became = a.handle_vote_response(0, 1, &resp_b);
    assert!(became);
    assert_eq!(a.node_type, RaftNodeType::Leader);
    assert_eq!(a.current_term, 1);
    // a late grant is ignored once the role has changed
    let became_again = a.handle_vote_response(1, 1, &resp_c);
    assert!(!became_again);
    assert_eq!(a.node_type, RaftNodeType::Leader);
}

#[test]
fn replicated_entry_commits_and_applies_once() {
    let mut a = RaftNode::new(1, vec![2, 3]);
    let mut b = RaftNode::new(2, vec![1, 3]);
    let mut c = RaftNode::new(3, vec![1, 2]);
    let req = a.handle_election_timeout();
    let resp_b = b.handle_vote_request(&req);
    let resp_c = c.handle_vote_request(&req);
    a.handle_vote_response(0, 1, &resp_b);
    a.handle_vote_response(1, 1, &resp_c);
    assert_eq!(a.node_type, RaftNodeType::Leader);

    // leader appends (term=1, index=1, payload="x") and replicates
    let idx = a.client_append(b"x".to_vec());
    assert_eq!(idx, 1);
    let req_b = a.build_append_entries(0).unwrap();
    assert_eq!(req_b.prev_log_index, 0);
    assert_eq!(req_b.entries.len(), 1);
    let ack_b = b.handle_append_entries(req_b);
    assert!(ack_b.success);
    let req_c = a.build_append_entries(1).unwrap();
    let ack_c = c.handle_append_entries(req_c);
    assert!(ack_c.success);

    let probe_b = a.build_append_entries(0).unwrap();
    a.handle_append_response(0, &probe_b, &ack_b);
    assert_eq!(a.match_index[0], 1);
    assert_eq!(a.commit_index, 1);

    // apply("x") fires exactly once on the leader
    let applied = a.take_applicable();
    assert_eq!(applied.len(), 1);
    assert_eq!(applied[0].index, 1);
    assert_eq!(applied[0].payload, b"x".to_vec());
    assert!(a.take_applicable().is_empty());

    // the follower's commit index catches up with the next heartbeat
    let beat = a.build_append_entries(0).unwrap();
    assert_eq!(beat.leader_commit, 1);
    let ack = b.handle_append_entries(beat);
    assert!(ack.success);
    assert_eq!(b.commit_index, 1);
    let applied_b = b.take_applicable();
    assert_eq!(applied_b.len(), 1);
    assert_eq!(applied_b[0].payload, b"x".to_vec());
    assert!(b.take_applicable().is_empty());
}

#[test]
fn fast_backtrack_skips_in_one_round_trip() {
    // A leads term 2 with log 1..=4 at term 1 and 5 at term 2.
    let mut a = RaftNode::new(1, vec![2, 3]);
    a.current_term = 2;
    a.node_type = RaftNodeType::Leader;
    a.current_leader = Some(1);
    a.log = vec![
        entry(1, 1, b"a"),
        entry(1, 2, b"b"),
        entry(1, 3, b"c"),
        entry(1, 4, b"d"),
        entry(2, 5, b"e"),
    ];
    a.next_index = vec![6, 6];
    a.match_index = vec![0, 0];

    // B agrees through 4 (compacted behind a snapshot) but holds a stale
    // entry (term=1, index=5)
    let mut b = RaftNode::new(2, vec![1, 3]);
    b.current_term = 2;
    b.snapshot = SnapshotState {
        last_included_index: 4,
        last_included_term: 1,
        total_chunks: 0,
        chunks_received: 0,
    };
    b.log = vec![entry(1, 5, b"stale")];
    b.commit_index = 4;
    b.last_applied = 4;

    // A probes with prev_log_index = 5; B reports the first index of the
    // conflicting term
    let req = a.build_append_entries(0).unwrap();
    assert_eq!(req.prev_log_index, 5);
    assert_eq!(req.prev_log_term, 2);
    let resp = b.handle_append_entries(req);
    assert!(!resp.success);
    assert_eq!(resp.conflict_term, 1);
    assert_eq!(resp.conflict_index, 5);

    // A moves next_index[B] to 5 in one step, not one-by-one
    let probe = a.build_append_entries(0).unwrap();
    a.handle_append_response(0, &probe, &resp);
    assert_eq!(a.next_index[0], 5);

    // the retry from 5 now succeeds and replaces the stale entry
    let retry = a.build_append_entries(0).unwrap();
    assert_eq!(retry.prev_log_index, 4);
    assert_eq!(retry.prev_log_term, 1);
    let ack = b.handle_append_entries(retry);
    assert!(ack.success);
    assert_eq!(b.log.len(), 1);
    assert_eq!(b.log[0].term, 2);
    assert_eq!(b.log[0].payload, b"e".to_vec());
}

#[test]
fn persisted_vote_survives_restart() {
    // A votes for candidate 2 in term 3 and crashes before replying
    let mut a = RaftNode::new(1, vec![2, 3]);
    let req2 = raft_core::network::VoteRequest {
        candidate_endpoint: 2,
        term: 3,
        last_log_index: 0,
        last_log_term: 0,
    };
    let resp = a.handle_vote_request(&req2);
    assert!(resp.vote_granted);
    assert_eq!(a.current_voted_for, Some(2));

    // restart from the persisted term and vote
    let mut a = RaftNode::restore(1, vec![2, 3], a.current_term, a.current_voted_for, Vec::new());
    assert_eq!(a.current_term, 3);
    assert_eq!(a.current_voted_for, Some(2));

    // the duplicate request from the same candidate is granted again
    let again = a.handle_vote_request(&req2);
    assert!(again.vote_granted);

    // a different candidate's request for term 3 is rejected
    let req3 = raft_core::network::VoteRequest {
        candidate_endpoint: 3,
        term: 3,
        last_log_index: 0,
        last_log_term: 0,
    };
    let other = a.handle_vote_request(&req3);
    assert!(!other.vote_granted);
    assert_eq!(a.current_voted_for, Some(2));
}

fn snapshot_leader() -> RaftNode {
    let mut a = RaftNode::new(1, vec![2, 3]);
    a.current_term = 1;
    a.node_type = RaftNodeType::Leader;
    a.current_leader = Some(1);
    a.snapshot = SnapshotState {
        last_included_index: 5,
        last_included_term: 1,
        total_chunks: 0,
        chunks_received: 0,
    };
    a.snapshot_data = vec![10, 11, 12, 13, 14, 15, 16, 17, 18, 19];
    a.commit_index = 5;
    a.last_applied = 5;
    a.next_index = vec![1, 1];
    a.match_index = vec![0, 0];
    a
}

#[test]
fn interrupted_snapshot_resumes_identically() {
    let a = snapshot_leader();
    let total = 5u64;

    // an uninterrupted 5-chunk transfer
    let mut b1 = RaftNode::new(2, vec![1, 3]);
    for k in 1..=total {
        let req = a.build_install_snapshot(total, k);
        let chunk = a.snapshot_chunk((2 * (k - 1)) as usize, 2);
        let resp = b1.handle_install_snapshot(&req, &chunk);
        assert!(resp.success);
        assert_eq!(resp.received, if k == total { total } else { k });
    }

    // the same transfer interrupted after chunk 3, then resumed at 4
    let mut b2 = RaftNode::new(2, vec![1, 3]);
    let mut acked = 0u64;
    for k in 1..=3u64 {
        let req = a.build_install_snapshot(total, k);
        let chunk = a.snapshot_chunk((2 * (k - 1)) as usize, 2);
        let resp = b2.handle_install_snapshot(&req, &chunk);
        assert!(resp.success);
        acked = resp.received;
    }
    assert_eq!(acked, 3);
    // connection drops here; the transfer resumes at acked + 1
    for k in (acked + 1)..=total {
        let req = a.build_install_snapshot(total, k);
        let chunk = a.snapshot_chunk((2 * (k - 1)) as usize, 2);
        let resp = b2.handle_install_snapshot(&req, &chunk);
        assert!(resp.success);
    }

    // byte-for-byte identical final state
    assert_eq!(b1.snapshot_data, b2.snapshot_data);
    assert_eq!(b1.snapshot_data, a.snapshot_data);
    assert_eq!(b1.snapshot, b2.snapshot);
    assert_eq!(b2.snapshot.last_included_index, 5);
    assert_eq!(b2.snapshot.last_included_term, 1);
    assert_eq!(b1.commit_index, b2.commit_index);
    assert_eq!(b1.last_applied, b2.last_applied);
}

#[test]
fn replayed_and_gapped_chunks_are_handled() {
    let a = snapshot_leader();
    let total = 5u64;
    let mut b = RaftNode::new(2, vec![1, 3]);
    for k in 1..=2u64 {
        let req = a.build_install_snapshot(total, k);
        let chunk = a.snapshot_chunk((2 * (k - 1)) as usize, 2);
        assert!(b.handle_install_snapshot(&req, &chunk).success);
    }
    // a replayed chunk is re-acknowledged without change
    let req = a.build_install_snapshot(total, 2);
    let chunk = a.snapshot_chunk(2, 2);
    let dup = b.handle_install_snapshot(&req, &chunk);
    assert!(dup.success);
    assert_eq!(dup.received, 2);
    assert_eq!(b.pending_data.len(), 4);
    // a gap is refused with the resume point
    let req = a.build_install_snapshot(total, 5);
    let chunk = a.snapshot_chunk(8, 2);
    let gap = b.handle_install_snapshot(&req, &chunk);
    assert!(!gap.success);
    assert_eq!(gap.received, 2);
}

#[test]
fn snapshot_redirect_when_peer_is_behind_horizon() {
    let a = snapshot_leader();
    // next_index[0] = 1 predates the horizon at 5: no log shipping
    assert!(a.build_append_entries(0).is_none());
    // after a completed transfer the peer resumes at the horizon
    let mut a = snapshot_leader();
    let resp = raft_core::network::InstallSnapshotResponse { success: true, received: 5 };
    a.handle_install_snapshot_response(0, 1, 5, &resp);
    assert_eq!(a.match_index[0], 5);
    assert_eq!(a.next_index[0], 6);
    assert!(a.build_append_entries(0).is_some());
}

#[test]
fn commit_requires_current_term_entry() {
    // the leader-completeness safeguard: an old-term entry held by a
    // majority is not committed directly
    let mut a = RaftNode::new(1, vec![2, 3]);
    a.current_term = 2;
    a.node_type = RaftNodeType::Leader;
    a.current_leader = Some(1);
    a.log = vec![entry(1, 1, b"old")];
    a.next_index = vec![2, 2];
    a.match_index = vec![1, 1];
    a.advance_commit();
    assert_eq!(a.commit_index, 0);

    // replicating one current-term entry commits both
    a.client_append(b"new".to_vec());
    a.next_index = vec![3, 3];
    a.match_index = vec![2, 2];
    a.advance_commit();
    assert_eq!(a.commit_index, 2);
}

#[test]
fn stale_term_is_rejected_without_state_change() {
    let mut b = RaftNode::new(2, vec![1, 3]);
    b.current_term = 5;
    let req = raft_core::network::AppendEntriesRequest {
        leader_endpoint: 1,
        term: 4,
        prev_log_index: 0,
        prev_log_term: 0,
        leader_commit: 0,
        entries: Vec::new(),
    };
    let resp = b.handle_append_entries(req);
    assert!(!resp.success);
    assert_eq!(resp.term, 5);
    assert_eq!(b.current_term, 5);
    assert_eq!(b.log.len(), 0);
}

#[test]
fn higher_term_demotes_leader_and_clears_vote() {
    let mut a = RaftNode::new(1, vec![2, 3]);
    a.current_term = 2;
    a.node_type = RaftNodeType::Leader;
    a.current_voted_for = Some(1);
    a.observe_term(7);
    assert_eq!(a.current_term, 7);
    assert_eq!(a.node_type, RaftNodeType::Follower);
    assert_eq!(a.current_voted_for, None);
}

#[test]
fn vote_denied_to_outdated_log() {
    // the up-to-date check: a candidate whose last log is behind loses
    let mut b = RaftNode::new(2, vec![1, 3]);
    b.log = vec![entry(2, 1, b"x")];
    b.current_term = 2;
    let req = raft_core::network::VoteRequest {
        candidate_endpoint: 1,
        term: 3,
        last_log_index: 0,
        last_log_term: 0,
    };
    let resp = b.handle_vote_request(&req);
    assert!(!resp.vote_granted);
    // the term was still observed
    assert_eq!(b.current_term, 3);
    // an up-to-date candidate wins: equal term, longer log
    let req = raft_core::network::VoteRequest {
        candidate_endpoint: 1,
        term: 4,
        last_log_index: 2,
        last_log_term: 2,
    };
    let resp = b.handle_vote_request(&req);
    assert!(resp.vote_granted);
}

#[test]
fn commit_index_is_monotone_across_handlers() {
    let mut b = RaftNode::new(2, vec![1, 3]);
    let req = raft_core::network::AppendEntriesRequest {
        leader_endpoint: 1,
        term: 1,
        prev_log_index: 0,
        prev_log_term: 0,
        leader_commit: 2,
        entries: vec![entry(1, 1, b"a"), entry(1, 2, b"b")],
    };
    let resp = b.handle_append_entries(req);
    assert!(resp.success);
    assert_eq!(b.commit_index, 2);
    // a later heartbeat with a smaller leader_commit cannot move it back
    let beat = raft_core::network::AppendEntriesRequest {
        leader_endpoint: 1,
        term: 1,
        prev_log_index: 2,
        prev_log_term: 1,
        leader_commit: 1,
        entries: Vec::new(),
    };
    let resp = b.handle_append_entries(beat);
    assert!(resp.success);
    assert_eq!(b.commit_index, 2);
}

#[test]
fn compaction_keeps_the_suffix_and_indices() {
    let mut a = RaftNode::new(1, vec![2, 3]);
    a.current_term = 1;
    a.log = vec![entry(1, 1, b"a"), entry(1, 2, b"b"), entry(1, 3, b"c")];
    a.commit_index = 2;
    a.last_applied = 2;
    a.compact_to(2, vec![9, 9]);
    assert_eq!(a.snapshot.last_included_index, 2);
    assert_eq!(a.snapshot.last_included_term, 1);
    assert_eq!(a.log.len(), 1);
    assert_eq!(a.log[0].index, 3);
    assert_eq!(a.snapshot_data, vec![9, 9]);
}

#[test]
fn fault_taxonomy_recoverability() {
    assert!(RaftFault::TransportFailure.recoverable());
    assert!(RaftFault::LogConflict.recoverable());
    assert!(RaftFault::SnapshotTransferIncomplete.recoverable());
    assert!(!RaftFault::PersistenceFailure.recoverable());
    assert!(!RaftFault::StaleTerm.recoverable());
}

#[test]
fn role_labels() {
    assert_eq!(RaftNodeType::Follower.label(), "Follower");
    assert_eq!(RaftNodeType::Candidate.label(), "Candidate");
    assert_eq!(RaftNodeType::Leader.label(), "Leader");
    assert_eq!(RaftNodeType::default(), RaftNodeType::Follower);
}

#[test]
fn duplicate_append_is_idempotent() {
    // the merge keeps entries whose terms agree: re-delivery of the same
    // batch leaves the log unchanged
    let mut b = RaftNode::new(2, vec![1, 3]);
    let mk = || raft_core::network::AppendEntriesRequest {
        leader_endpoint: 1,
        term: 1,
        prev_log_index: 0,
        prev_log_term: 0,
        leader_commit: 0,
        entries: vec![entry(1, 1, b"a"), entry(1, 2, b"b")],
    };
    assert!(b.handle_append_entries(mk()).success);
    assert!(b.handle_append_entries(mk()).success);
    assert_eq!(b.log.len(), 2);
    assert_eq!(b.log[0].payload, b"a".to_vec());
    assert_eq!(b.log[1].payload, b"b".to_vec());
}

#[test]
fn split_vote_restarts_at_higher_term() {
    let mut a = RaftNode::new(1, vec![2, 3, 4, 5]);
    let first = a.handle_election_timeout();
    assert_eq!(first.term, 1);
    // only one grant arrives: no majority of 5
    let granted = raft_core::network::VoteResponse {
        last_log_index: 0,
        last_log_term: 0,
        vote_granted: true,
    };
    let became = a.handle_vote_response(0, 1, &granted);
    assert!(!became);
    assert_eq!(a.node_type, RaftNodeType::Candidate);
    // the timer fires again: term increments, votes reset
    let second = a.handle_election_timeout();
    assert_eq!(second.term, 2);
    assert_eq!(a.current_term, 2);
    assert_eq!(a.current_voted_for, Some(1));
}
