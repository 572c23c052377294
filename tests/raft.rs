use raft_kv::entry::{KeyValue, KvCommand, LogEntry};
use raft_kv::error::RaftError;
use raft_kv::message::{AppendEntriesArgs, AppendEntriesReply, RequestVoteArgs, RequestVoteReply};
use raft_kv::node::{Node, Role};
use raft_kv::router::{select_read_replica, Gateway, ReadRoute, WriteOutcome, WriteStep, MAX_WRITE_ATTEMPTS};
use raft_kv::session::SessionTracker;

fn set(key: &str, value: &str) -> KvCommand {
    KvCommand { key: key.to_string(), value: Some(value.to_string()) }
}

fn terms(node: &Node) -> Vec<u64> {
    node.log.entries.iter().map(|e| e.term).collect()
}

fn keys(node: &Node) -> Vec<String> {
    node.log.entries.iter().map(|e| e.command.key.clone()).collect()
}

/// Runs an election for `candidate`, asking the nodes in `voters`.
fn elect(nodes: &mut Vec<Node>, candidate: usize, voters: &[usize]) {
    let args = nodes[candidate].on_election_timeout().expect("not a leader yet");
    for &v in voters {
        let reply = nodes[v].handle_request_vote(&args);
        nodes[candidate].handle_vote_reply(v as u64, &reply);
    }
}

/// Sends one replication round from `leader` to `peer` and delivers the reply.
fn replicate(nodes: &mut Vec<Node>, leader: usize, peer: usize) -> bool {
    let args = nodes[leader].make_append_entries(peer as u64).expect("leader");
    let reply = nodes[peer].handle_append_entries(&args);
    nodes[leader].handle_append_reply(peer as u64, &reply);
    reply.success
}

fn cluster(n: u64) -> Vec<Node> {
    (0..n).map(|i| Node::new(i, n)).collect()
}

#[test]
fn leader_crash_mid_replication_converges() {
    let mut nodes = cluster(3);
    elect(&mut nodes, 0, &[1, 2]);
    assert!(nodes[0].is_leader());
    assert_eq!(nodes[0].current_term, 1);

    // The leader takes a write and reaches only node 1 before it crashes.
    assert_eq!(nodes[0].propose(set("k", "v1")), Ok(1));
    assert!(replicate(&mut nodes, 0, 1));
    assert_eq!(nodes[0].commit_index, 1);
    assert_eq!(nodes[1].log.entries.len(), 1);
    assert_eq!(nodes[2].log.entries.len(), 0);

    // Node 2 cannot win: its log is behind node 1's.
    let args = nodes[2].on_election_timeout().unwrap();
    let reply = nodes[1].handle_request_vote(&args);
    assert!(!reply.vote_granted);

    // Node 1 wins term 3 with node 2's vote.
    elect(&mut nodes, 1, &[2]);
    assert!(nodes[1].is_leader());
    assert_eq!(nodes[1].current_term, 3);
    assert_eq!(nodes[1].propose(set("k2", "v2")), Ok(2));

    // Node 2 first refuses (it lacks entry 1), then catches up.
    assert!(!replicate(&mut nodes, 1, 2));
    assert!(replicate(&mut nodes, 1, 2));
    assert_eq!(nodes[1].commit_index, 2);

    // The old leader recovers and follows the new one.
    assert!(replicate(&mut nodes, 1, 0));
    assert!(!nodes[0].is_leader());
    assert_eq!(nodes[0].current_term, 3);
    for i in 0..3 {
        assert_eq!(terms(&nodes[i]), vec![1, 3]);
        assert_eq!(keys(&nodes[i]), vec!["k".to_string(), "k2".to_string()]);
    }
    // A heartbeat carries the commit index to the followers.
    assert!(replicate(&mut nodes, 1, 0));
    assert!(replicate(&mut nodes, 1, 2));
    for i in 0..3 {
        assert_eq!(nodes[i].commit_index, 2);
        assert_eq!(nodes[i].apply_committed(), 2);
        assert_eq!(nodes[i].read(&"k".to_string()), Some("v1".to_string()));
        assert_eq!(nodes[i].read(&"k2".to_string()), Some("v2".to_string()));
    }
    let leaders = nodes.iter().filter(|n| n.is_leader()).count();
    assert_eq!(leaders, 1);
}

#[test]
fn read_after_write_sees_the_write() {
    let mut nodes = cluster(3);
    elect(&mut nodes, 0, &[1, 2]);
    let mut gw = Gateway::new(3);
    let client = 42;

    let target = gw.write_target();
    let kv = KeyValue { key: "k".to_string(), value: "v1".to_string() };
    let ts = nodes[target as usize].propose(kv.to_command()).unwrap();
    assert!(replicate(&mut nodes, 0, 1));
    assert_eq!(nodes[0].commit_index, ts);
    assert_eq!(gw.on_write_outcome(client, target, 1, WriteOutcome::Committed { ts }), WriteStep::Done { ts });
    assert_eq!(gw.sessions.get(client).last_write_ts, 1);

    // Node 2 lags: it has applied nothing. Node 1 has the entry but has not applied it.
    gw.report_applied(2, nodes[2].last_applied);
    gw.report_applied(1, nodes[1].last_applied);
    assert_eq!(gw.route_read(client, false), ReadRoute::Wait);
    assert_eq!(gw.route_read(client, true), ReadRoute::Leader { node: 0 });

    // Once the leader applies and reports, it is a valid replica for the read.
    nodes[0].apply_committed();
    gw.report_applied(0, nodes[0].last_applied);
    let route = gw.route_read(client, false);
    assert_eq!(route, ReadRoute::Replica { node: 0 });
    assert_eq!(nodes[0].read(&"k".to_string()), Some("v1".to_string()));
    gw.complete_read(client, nodes[0].last_applied);
    assert_eq!(gw.sessions.get(client).last_read_ts, 1);

    // The lagging node never serves this client a stale value.
    assert_eq!(nodes[2].read(&"k".to_string()), None);
    assert_ne!(route, ReadRoute::Replica { node: 2 });
}

#[test]
fn concurrent_candidates_get_one_vote_per_term() {
    let mut follower = Node::new(0, 3);
    let a = RequestVoteArgs { term: 1, candidate_id: 1, last_log_index: 0, last_log_term: 0 };
    let b = RequestVoteArgs { term: 1, candidate_id: 2, last_log_index: 0, last_log_term: 0 };
    let ra = follower.handle_request_vote(&a);
    let rb = follower.handle_request_vote(&b);
    assert!(ra.vote_granted);
    assert!(!rb.vote_granted);
    assert_eq!(follower.voted_for, Some(1));
    assert_eq!(rb.term, 1);
}

#[test]
fn prev_index_beyond_log_fails() {
    let mut follower = Node::new(1, 3);
    let args = AppendEntriesArgs {
        term: 1,
        leader_id: 0,
        prev_log_index: 5,
        prev_log_term: 1,
        entries: vec![LogEntry { index: 6, term: 1, command: set("k", "v") }],
        leader_commit: 6,
    };
    let reply = follower.handle_append_entries(&args);
    assert!(!reply.success);
    assert_eq!(reply.match_index, 0);
    assert_eq!(reply.term, 1);
    assert_eq!(follower.log.entries.len(), 0);
    assert_eq!(follower.commit_index, 0);
    assert_eq!(follower.leader_hint, Some(0));
}

#[test]
fn stale_term_append_is_refused() {
    let mut follower = Node::new(1, 3);
    let vote = RequestVoteArgs { term: 4, candidate_id: 2, last_log_index: 0, last_log_term: 0 };
    follower.handle_request_vote(&vote);
    let args = AppendEntriesArgs {
        term: 3,
        leader_id: 0,
        prev_log_index: 0,
        prev_log_term: 0,
        entries: vec![LogEntry { index: 1, term: 3, command: set("k", "v") }],
        leader_commit: 0,
    };
    let reply = follower.handle_append_entries(&args);
    assert!(!reply.success);
    assert_eq!(reply.term, 4);
    assert_eq!(follower.log.entries.len(), 0);
}

#[test]
fn stale_vote_request_is_refused() {
    let mut follower = Node::new(0, 3);
    follower.handle_request_vote(&RequestVoteArgs { term: 5, candidate_id: 1, last_log_index: 0, last_log_term: 0 });
    let reply = follower.handle_request_vote(&RequestVoteArgs { term: 4, candidate_id: 2, last_log_index: 9, last_log_term: 4 });
    assert!(!reply.vote_granted);
    assert_eq!(reply.term, 5);
}

#[test]
fn vote_refused_to_candidate_with_older_log() {
    let mut nodes = cluster(3);
    elect(&mut nodes, 0, &[1, 2]);
    nodes[0].propose(set("a", "1")).unwrap();
    assert!(replicate(&mut nodes, 0, 1));
    // Node 2 holds no entry; its request in a new term is refused by node 1.
    let args = RequestVoteArgs { term: 2, candidate_id: 2, last_log_index: 0, last_log_term: 0 };
    let reply = nodes[1].handle_request_vote(&args);
    assert!(!reply.vote_granted);
    assert_eq!(nodes[1].current_term, 2);
    assert_eq!(nodes[1].voted_for, None);
}

#[test]
fn follower_refuses_writes_with_leader_hint() {
    let mut nodes = cluster(3);
    elect(&mut nodes, 0, &[1, 2]);
    assert!(replicate(&mut nodes, 0, 1));
    assert_eq!(nodes[1].propose(set("k", "v")), Err(RaftError::NotLeader { leader_hint: Some(0) }));
    assert_eq!(nodes[2].propose(set("k", "v")), Err(RaftError::NotLeader { leader_hint: None }));
}

#[test]
fn single_node_cluster_leads_and_commits_alone() {
    let mut node = Node::new(0, 1);
    let args = node.on_election_timeout().unwrap();
    assert_eq!(args.term, 1);
    assert!(node.is_leader());
    assert!(node.on_election_timeout().is_none());
    assert_eq!(node.propose(set("x", "1")), Ok(1));
    assert_eq!(node.commit_index, 1);
    assert_eq!(node.apply_committed(), 1);
    assert_eq!(node.read(&"x".to_string()), Some("1".to_string()));
}

#[test]
fn tombstone_deletes_key() {
    let mut node = Node::new(0, 1);
    node.on_election_timeout();
    node.propose(set("x", "1")).unwrap();
    node.propose(KvCommand { key: "x".to_string(), value: None }).unwrap();
    node.propose(set("y", "2")).unwrap();
    assert_eq!(node.apply_committed(), 3);
    assert_eq!(node.read(&"x".to_string()), None);
    assert_eq!(node.read(&"y".to_string()), Some("2".to_string()));
}

#[test]
fn entries_of_an_older_term_are_not_committed_by_count() {
    let mut nodes = cluster(3);
    elect(&mut nodes, 0, &[1]);
    nodes[0].propose(set("a", "1")).unwrap();
    // Node 0 hears of term 2 and steps down, then wins term 3 with node 2's vote.
    let probe = RequestVoteArgs { term: 2, candidate_id: 1, last_log_index: 0, last_log_term: 0 };
    assert!(!nodes[0].handle_request_vote(&probe).vote_granted);
    elect(&mut nodes, 0, &[2]);
    assert!(nodes[0].is_leader());
    assert_eq!(nodes[0].current_term, 3);
    assert!(!replicate(&mut nodes, 0, 2));
    assert!(replicate(&mut nodes, 0, 2));
    // A majority holds entry 1, but it was created in term 1: it stays uncommitted.
    assert_eq!(nodes[0].commit_index, 0);
    nodes[0].propose(set("b", "2")).unwrap();
    assert!(replicate(&mut nodes, 0, 2));
    assert_eq!(nodes[0].commit_index, 2);
}

#[test]
fn conflicting_suffix_is_replaced() {
    let mut follower = Node::new(1, 3);
    let first = AppendEntriesArgs {
        term: 1,
        leader_id: 0,
        prev_log_index: 0,
        prev_log_term: 0,
        entries: vec![
            LogEntry { index: 1, term: 1, command: set("a", "1") },
            LogEntry { index: 2, term: 1, command: set("b", "1") },
        ],
        leader_commit: 1,
    };
    assert!(follower.handle_append_entries(&first).success);
    assert_eq!(follower.commit_index, 1);
    let second = AppendEntriesArgs {
        term: 2,
        leader_id: 2,
        prev_log_index: 1,
        prev_log_term: 1,
        entries: vec![LogEntry { index: 2, term: 2, command: set("c", "2") }],
        leader_commit: 1,
    };
    let reply = follower.handle_append_entries(&second);
    assert!(reply.success);
    assert_eq!(reply.match_index, 2);
    assert_eq!(terms(&follower), vec![1, 2]);
    assert_eq!(keys(&follower), vec!["a".to_string(), "c".to_string()]);
    // A late copy of the first request carries a stale term and changes nothing.
    let reply = follower.handle_append_entries(&first);
    assert!(!reply.success);
    assert_eq!(reply.term, 2);
    assert_eq!(terms(&follower), vec![1, 2]);
}

#[test]
fn committed_entries_are_never_truncated() {
    let mut follower = Node::new(1, 3);
    let first = AppendEntriesArgs {
        term: 1,
        leader_id: 0,
        prev_log_index: 0,
        prev_log_term: 0,
        entries: vec![LogEntry { index: 1, term: 1, command: set("a", "1") }],
        leader_commit: 1,
    };
    assert!(follower.handle_append_entries(&first).success);
    let bad = AppendEntriesArgs {
        term: 2,
        leader_id: 2,
        prev_log_index: 0,
        prev_log_term: 0,
        entries: vec![LogEntry { index: 1, term: 2, command: set("z", "9") }],
        leader_commit: 1,
    };
    assert!(!follower.handle_append_entries(&bad).success);
    assert_eq!(terms(&follower), vec![1]);
}

#[test]
fn misnumbered_entries_are_refused() {
    let mut follower = Node::new(1, 3);
    let args = AppendEntriesArgs {
        term: 1,
        leader_id: 0,
        prev_log_index: 0,
        prev_log_term: 0,
        entries: vec![LogEntry { index: 2, term: 1, command: set("a", "1") }],
        leader_commit: 0,
    };
    assert!(!follower.handle_append_entries(&args).success);
    assert_eq!(follower.log.entries.len(), 0);
}

#[test]
fn leader_steps_down_on_higher_term_reply() {
    let mut nodes = cluster(3);
    elect(&mut nodes, 0, &[1, 2]);
    nodes[0].handle_append_reply(1, &AppendEntriesReply { term: 7, success: false, match_index: 0 });
    assert!(!nodes[0].is_leader());
    assert_eq!(nodes[0].current_term, 7);
    assert!(matches!(nodes[0].role, Role::Follower));
}

#[test]
fn candidate_steps_down_on_higher_term_vote_reply() {
    let mut node = Node::new(0, 3);
    node.on_election_timeout();
    assert!(matches!(node.role, Role::Candidate { .. }));
    node.handle_vote_reply(1, &RequestVoteReply { term: 3, vote_granted: false });
    assert!(matches!(node.role, Role::Follower));
    assert_eq!(node.current_term, 3);
    assert_eq!(node.voted_for, None);
}

#[test]
fn one_leader_per_term_in_five_nodes() {
    let mut nodes = cluster(5);
    let a = nodes[0].on_election_timeout().unwrap();
    let b = nodes[4].on_election_timeout().unwrap();
    assert_eq!(a.term, b.term);
    for v in 1..4usize {
        let ra = nodes[v].handle_request_vote(&a);
        nodes[0].handle_vote_reply(v as u64, &ra);
        let rb = nodes[v].handle_request_vote(&b);
        nodes[4].handle_vote_reply(v as u64, &rb);
    }
    assert!(nodes[0].is_leader());
    assert!(!nodes[4].is_leader());
}

#[test]
fn watermarks_never_decrease() {
    let mut t = SessionTracker::new();
    t.record_write(1, 5);
    t.record_write(1, 3);
    assert_eq!(t.get(1).last_write_ts, 5);
    t.record_read(1, 4);
    t.record_read(1, 2);
    assert_eq!(t.get(1).last_read_ts, 4);
    t.record_write(2, 7);
    assert_eq!(t.get(1).last_write_ts, 5);
    assert_eq!(t.get(2).last_write_ts, 7);
    assert_eq!(t.get(3).last_write_ts, 0);
}

#[test]
fn select_read_replica_picks_first_recent_enough() {
    assert_eq!(select_read_replica(&vec![1, 4, 9], 3), Some(1));
    assert_eq!(select_read_replica(&vec![1, 2], 3), None);
    assert_eq!(select_read_replica(&vec![], 0), None);
}

#[test]
fn report_applied_never_lowers() {
    let mut gw = Gateway::new(2);
    gw.report_applied(1, 6);
    gw.report_applied(1, 2);
    gw.report_applied(5, 9);
    assert_eq!(gw.applied, vec![0, 6]);
}

#[test]
fn write_redirects_then_gives_up() {
    let mut gw = Gateway::new(3);
    assert_eq!(gw.write_target(), 0);
    let step = gw.on_write_outcome(1, 0, 1, WriteOutcome::NotLeader { hint: Some(2) });
    assert_eq!(step, WriteStep::Retry { target: 2 });
    assert_eq!(gw.leader, Some(2));
    let step = gw.on_write_outcome(1, 2, 2, WriteOutcome::Unreachable);
    assert_eq!(step, WriteStep::Retry { target: 0 });
    assert_eq!(gw.leader, None);
    let step = gw.on_write_outcome(1, 0, 3, WriteOutcome::NotLeader { hint: Some(9) });
    assert_eq!(step, WriteStep::Retry { target: 1 });
    let step = gw.on_write_outcome(1, 1, 4, WriteOutcome::QuorumTimeout);
    assert_eq!(step, WriteStep::Retry { target: 1 });
    assert_eq!(gw.leader, Some(1));
    let step = gw.on_write_outcome(1, 1, MAX_WRITE_ATTEMPTS, WriteOutcome::Unreachable);
    assert_eq!(step, WriteStep::Fail { error: RaftError::TransportFailure });
    assert_eq!(gw.sessions.get(1).last_write_ts, 0);
}

#[test]
fn write_failures_name_their_cause() {
    let mut gw = Gateway::new(3);
    let step = gw.on_write_outcome(1, 0, MAX_WRITE_ATTEMPTS, WriteOutcome::NotLeader { hint: Some(1) });
    assert_eq!(step, WriteStep::Fail { error: RaftError::NotLeader { leader_hint: Some(1) } });
    let step = gw.on_write_outcome(1, 2, MAX_WRITE_ATTEMPTS, WriteOutcome::Unreachable);
    assert_eq!(step, WriteStep::Fail { error: RaftError::TransportFailure });
}

#[test]
fn quorum_timeout_keeps_the_write_pending() {
    let mut gw = Gateway::new(3);
    for attempt in [1, MAX_WRITE_ATTEMPTS, MAX_WRITE_ATTEMPTS + 3] {
        let step = gw.on_write_outcome(7, 1, attempt, WriteOutcome::QuorumTimeout);
        assert_eq!(step, WriteStep::Retry { target: 1 });
        assert_eq!(gw.leader, Some(1));
        assert_eq!(gw.sessions.get(7).last_write_ts, 0);
    }
}

#[test]
fn append_refusals_name_their_cause() {
    let mut follower = Node::new(1, 3);
    follower.handle_request_vote(&RequestVoteArgs { term: 2, candidate_id: 2, last_log_index: 0, last_log_term: 0 });
    let stale = AppendEntriesArgs {
        term: 1,
        leader_id: 0,
        prev_log_index: 0,
        prev_log_term: 0,
        entries: vec![],
        leader_commit: 0,
    };
    assert_eq!(follower.check_append(&stale), Err(RaftError::StaleTerm));
    let gap = AppendEntriesArgs { term: 2, prev_log_index: 3, prev_log_term: 2, ..stale };
    assert_eq!(follower.check_append(&gap), Err(RaftError::LogInconsistency));
    let ok = AppendEntriesArgs {
        term: 2,
        leader_id: 2,
        prev_log_index: 0,
        prev_log_term: 0,
        entries: vec![LogEntry { index: 1, term: 2, command: set("a", "1") }],
        leader_commit: 0,
    };
    assert_eq!(follower.check_append(&ok), Ok(()));
}
