use bifrost::raft::state_machine::{ApplyError, MasterStateMachine};
use bifrost::raft::{
    AppendRequest, LogEntry, Membership, Options, RaftServer, Storage, TickAction, TIMEOUT_MAX,
    TIMEOUT_MIN,
};
use bifrost::raft::callback::CallbackBus;
use bifrost::store::number::{Number, GET, ON_CHANGED, SET};
use bifrost::utils::u8vec::prepend_u64;

const A: u64 = 1;
const B: u64 = 2;
const C: u64 = 3;

fn opts() -> Options {
    Options { storage: Storage::Default(), address: String::from("127.0.0.1:0") }
}

fn node(id: u64) -> RaftServer {
    let peers: Vec<u64> = [A, B, C].iter().copied().filter(|p| *p != id).collect();
    RaftServer::new(id, peers, opts(), 0)
}

fn deliver(to: &mut RaftServer, q: AppendRequest, now: u64) -> Result<u64, u64> {
    to.append_entries(
        q.term,
        q.leader_id,
        q.prev_log_id,
        q.prev_log_term,
        Some(q.entries),
        q.leader_commit,
        now,
    )
}

fn elect(a: &mut RaftServer, b: &mut RaftServer, now: u64) {
    let req = match a.tick(now) {
        TickAction::Election(r) => r,
        other => panic!("expected an election, got {:?}", other),
    };
    let (t, granted) = b.request_vote(req.term, req.candidate_id, req.last_log_id, req.last_log_term, now);
    assert!(granted);
    assert!(a.handle_vote_reply(b.id, t, granted, now));
}

fn value_of(s: &RaftServer, sm: u64) -> Result<Vec<u8>, ApplyError> {
    s.meta.state_machine.query(sm, GET, &vec![])
}

#[test]
fn storage_default_is_memory() {
    assert!(matches!(Storage::Default(), Storage::MEMORY));
}

#[test]
fn new_node_is_follower_with_random_timeout() {
    for _ in 0..50 {
        let s = node(A);
        assert_eq!(s.meta.term, 0);
        assert_eq!(s.meta.membership, Membership::FOLLOWER);
        assert!(TIMEOUT_MIN <= s.meta.timeout && s.meta.timeout <= TIMEOUT_MAX);
    }
}

#[test]
fn scenario_election() {
    let (mut a, mut b, mut c) = (node(A), node(B), node(C));
    assert_eq!(a.tick(1), TickAction::Idle);
    let req = match a.tick(1000) {
        TickAction::Election(r) => r,
        other => panic!("expected an election, got {:?}", other),
    };
    assert_eq!(a.meta.membership, Membership::CANDIDATE);
    assert_eq!((req.term, req.candidate_id), (1, A));
    let rb = b.request_vote(req.term, req.candidate_id, req.last_log_id, req.last_log_term, 1000);
    let rc = c.request_vote(req.term, req.candidate_id, req.last_log_id, req.last_log_term, 1000);
    assert_eq!(rb, (1, true));
    assert_eq!(rc, (1, true));
    assert!(a.handle_vote_reply(B, rb.0, rb.1, 1000));
    assert_eq!(a.meta.membership, Membership::LEADER);
    assert_eq!(a.meta.term, 1);
    assert!(!a.handle_vote_reply(C, rc.0, rc.1, 1000));
    assert_eq!(a.tick(1001), TickAction::Heartbeat);
}

#[test]
fn vote_granted_once_per_term() {
    let mut b = node(B);
    assert_eq!(b.request_vote(1, A, 0, 0, 5), (1, true));
    assert_eq!(b.request_vote(1, C, 0, 0, 5), (1, false));
    assert_eq!(b.request_vote(1, A, 0, 0, 5), (1, false));
    assert_eq!(b.request_vote(0, C, 0, 0, 5), (1, false));
    assert_eq!(b.request_vote(2, C, 0, 0, 5), (2, true));
}

#[test]
fn vote_refused_to_stale_log() {
    let mut b = node(B);
    b.append_entries(3, A, 0, 0, Some(vec![LogEntry { state_machine_id: 7, function_id: SET, term: 3, payload: vec![1] }]), 0, 1).unwrap();
    assert_eq!(b.request_vote(4, C, 5, 2, 2), (4, false));
    assert_eq!(b.request_vote(5, C, 1, 3, 2), (5, true));
}

#[test]
fn scenario_replication() {
    let (mut a, mut b, mut c) = (node(A), node(B), node(C));
    for s in [&mut a, &mut b, &mut c] {
        assert!(s.register(Number::new(7, 0)));
        assert!(!s.register(Number::new(7, 5)));
    }
    elect(&mut a, &mut b, 1000);
    assert_eq!(a.propose(7, SET, vec![42]), Some(1));
    assert_eq!(a.meta.commit, 0);
    let reqs = a.send_heartbeat(1001);
    for (p, q) in reqs.into_iter().enumerate() {
        let (prev, n) = (q.prev_log_id, q.entries.len() as u64);
        let r = if q.to == B { deliver(&mut b, q, 1001) } else { deliver(&mut c, q, 1001) };
        assert_eq!(r, Ok(1));
        a.handle_append_reply(p, r, prev, n, 1001);
        assert_eq!(a.meta.commit, 1);
    }
    assert_eq!(b.meta.commit, 0);
    let reqs = a.send_heartbeat(1100);
    for q in reqs {
        assert!(q.leader_commit >= 1);
        assert!(q.entries.is_empty());
        let r = if q.to == B { deliver(&mut b, q, 1100) } else { deliver(&mut c, q, 1100) };
        assert_eq!(r, Ok(1));
    }
    for s in [&mut a, &mut b, &mut c] {
        assert_eq!(s.meta.commit, 1);
        let applied = s.apply_committed();
        assert_eq!(applied.len(), 1);
        assert_eq!(applied[0].0, 1);
        assert_eq!(value_of(s, 7), Ok(vec![42]));
    }
}

#[test]
fn scenario_log_repair() {
    let (mut a, mut b, mut c) = (node(A), node(B), node(C));
    elect(&mut a, &mut c, 1000);
    for v in 1..=3u8 {
        a.propose(7, SET, vec![v]).unwrap();
    }
    // A loses leadership to a higher term and wins it back with its longer log.
    let _ = a.request_vote(2, C, 0, 0, 1100);
    assert_eq!(a.meta.membership, Membership::FOLLOWER);
    elect(&mut a, &mut c, 5000);
    assert_eq!(a.meta.term, 3);
    let mut rejections = 0;
    loop {
        let q = a.send_heartbeat(5001).into_iter().find(|q| q.to == B).unwrap();
        let (prev, n) = (q.prev_log_id, q.entries.len() as u64);
        let r = deliver(&mut b, q, 5001);
        a.handle_append_reply(0, r, prev, n, 5001);
        if r.is_ok() {
            break;
        }
        assert_eq!(r, Err(3));
        rejections += 1;
        assert!(rejections <= 3);
    }
    assert_eq!(rejections, 3);
    assert_eq!(b.meta.log, 3);
    assert_eq!(a.meta.match_index[0], 3);
    assert_eq!(b.meta.logs.iter().map(|e| e.payload[0]).collect::<Vec<u8>>(), vec![1, 2, 3]);
}

#[test]
fn append_rejects_stale_term_and_mismatch() {
    let mut b = node(B);
    b.append_entries(2, A, 0, 0, None, 0, 1).unwrap();
    assert_eq!(b.append_entries(1, C, 0, 0, None, 0, 2), Err(2));
    assert_eq!(b.append_entries(2, A, 4, 1, None, 0, 3), Err(2));
    assert_eq!(b.meta.leader_id, A);
}

#[test]
fn append_truncates_conflicting_suffix() {
    let e = |t: u64, v: u8| LogEntry { state_machine_id: 7, function_id: SET, term: t, payload: vec![v] };
    let mut b = node(B);
    b.append_entries(1, A, 0, 0, Some(vec![e(1, 1), e(1, 2), e(1, 3)]), 1, 1).unwrap();
    assert_eq!(b.meta.commit, 1);
    assert_eq!(b.append_entries(2, C, 1, 1, Some(vec![e(1, 2), e(2, 9)]), 1, 2), Ok(2));
    assert_eq!(b.meta.log, 3);
    assert_eq!(b.meta.logs[2].term, 2);
    assert_eq!(b.meta.logs[2].payload, vec![9]);
    assert_eq!(b.append_entries(2, C, 1, 1, Some(vec![e(1, 2)]), 3, 3), Ok(2));
    assert_eq!(b.meta.log, 3);
    assert_eq!(b.meta.commit, 2);
}

#[test]
fn commit_never_decreases() {
    let mut b = node(B);
    let e = |t: u64| LogEntry { state_machine_id: 7, function_id: SET, term: t, payload: vec![1] };
    b.append_entries(1, A, 0, 0, Some(vec![e(1), e(1)]), 2, 1).unwrap();
    assert_eq!(b.meta.commit, 2);
    b.append_entries(1, A, 0, 0, None, 0, 2).unwrap();
    assert_eq!(b.meta.commit, 2);
    assert_eq!(b.append_entries(1, A, 0, 0, Some(vec![e(2)]), 0, 3), Err(1));
    assert_eq!(b.meta.commit, 2);
}

#[test]
fn unregistered_entry_does_not_block_others() {
    let mut b = node(B);
    b.register(Number::new(7, 0));
    let entries = vec![
        LogEntry { state_machine_id: 99, function_id: SET, term: 1, payload: vec![5] },
        LogEntry { state_machine_id: 7, function_id: SET, term: 1, payload: vec![6] },
    ];
    b.append_entries(1, A, 0, 0, Some(entries), 2, 1).unwrap();
    let out = b.apply_committed();
    assert_eq!(out[0], (1, Err(ApplyError::Unregistered)));
    assert_eq!(out[1], (2, Ok(vec![])));
    assert_eq!(value_of(&b, 7), Ok(vec![6]));
    assert!(b.apply_committed().is_empty());
}

#[test]
fn install_snapshot_in_chunks() {
    let mut b = node(B);
    b.register(Number::new(7, 0));
    let payload = prepend_u64(7, vec![33]);
    assert_eq!(b.install_snapshot(1, A, 5, 1, payload[..4].to_vec(), false, 1), Ok(1));
    assert_eq!(b.meta.log, 0);
    assert_eq!(b.install_snapshot(1, A, 5, 1, payload[4..].to_vec(), true, 2), Ok(1));
    assert_eq!(b.meta.log, 5);
    assert_eq!(b.meta.commit, 5);
    assert_eq!(b.meta.applied, 5);
    assert_eq!(value_of(&b, 7), Ok(vec![33]));
}

#[test]
fn install_snapshot_failure_keeps_state() {
    let mut b = node(B);
    b.register(Number::new(7, 4));
    assert_eq!(b.install_snapshot(1, A, 5, 1, prepend_u64(8, vec![1]), true, 1), Err(1));
    assert_eq!(b.install_snapshot(1, A, 5, 1, prepend_u64(7, vec![]), true, 1), Err(1));
    assert_eq!(b.install_snapshot(1, A, 5, 1, vec![7, 0], true, 1), Err(1));
    assert_eq!(b.meta.log, 0);
    assert_eq!(value_of(&b, 7), Ok(vec![4]));
    assert_eq!(b.install_snapshot(0, A, 5, 1, vec![], true, 1), Err(1));
}

#[test]
fn offline_stops_ticker() {
    let mut a = node(A);
    a.shutdown();
    assert_eq!(a.meta.membership, Membership::OFFLINE);
    assert_eq!(a.tick(100_000), TickAction::Stop);
    assert_eq!(a.meta.term, 0);
    assert_eq!(a.append_entries(5, B, 0, 0, None, 0, 1), Err(0));
    assert_eq!(a.request_vote(5, B, 0, 0, 1), (0, false));
    assert_eq!(a.install_snapshot(5, B, 1, 1, vec![], true, 1), Err(0));
    assert!(!a.handle_vote_reply(B, 5, true, 1));
    assert_eq!(a.meta.membership, Membership::OFFLINE);
}

#[test]
fn single_node_leads_and_commits_alone() {
    let mut s = RaftServer::new(A, vec![], opts(), 0);
    s.register(Number::new(7, 0));
    assert!(matches!(s.tick(1000), TickAction::Election(_)));
    assert_eq!(s.meta.membership, Membership::LEADER);
    assert_eq!(s.propose(7, SET, vec![9]), Some(1));
    assert_eq!(s.meta.commit, 1);
    s.apply_committed();
    assert_eq!(value_of(&s, 7), Ok(vec![9]));
}

#[test]
fn registry_refuses_duplicate_ids() {
    let mut m = MasterStateMachine::new();
    assert!(m.register(Number::new(1, 0)));
    assert!(!m.register(Number::new(1, 3)));
    assert_eq!(m.query(1, GET, &vec![]), Ok(vec![0]));
    assert_eq!(m.query(2, GET, &vec![]), Err(ApplyError::Unregistered));
}

#[test]
fn bus_delivers_to_current_subscribers() {
    let mut bus = CallbackBus::new();
    assert!(bus.subscribe(7, ON_CHANGED, 100));
    assert!(bus.subscribe(7, ON_CHANGED, 101));
    assert!(!bus.subscribe(7, ON_CHANGED, 100));
    assert!(bus.subscribe(8, ON_CHANGED, 100));
    assert_eq!(bus.subscribers(7, ON_CHANGED), vec![100, 101]);
    bus.unsubscribe_all(100);
    assert_eq!(bus.subscribers(7, ON_CHANGED), vec![101]);
    assert!(bus.subscribers(8, ON_CHANGED).is_empty());
}

#[test]
fn followers_fed_by_one_leader_hold_the_same_log_and_state() {
    let (mut a, mut b, mut c) = (node(A), node(B), node(C));
    for s in [&mut a, &mut b, &mut c] {
        s.register(Number::new(7, 0));
    }
    elect(&mut a, &mut b, 1000);
    for v in [5u8, 6, 7] {
        a.propose(7, bifrost::store::number::ADD_AND_GET, vec![v]).unwrap();
    }
    for round in 0..2u64 {
        for (p, q) in a.send_heartbeat(1001 + round).into_iter().enumerate() {
            let (prev, n) = (q.prev_log_id, q.entries.len() as u64);
            let r = if q.to == B { deliver(&mut b, q, 1001) } else { deliver(&mut c, q, 1001) };
            a.handle_append_reply(p, r, prev, n, 1001);
        }
    }
    let view = |s: &RaftServer| s.meta.logs.iter().map(|e| (e.term, e.payload.clone())).collect::<Vec<_>>();
    assert_eq!(view(&b), view(&c));
    assert_eq!(view(&a), view(&b));
    for s in [&mut a, &mut b, &mut c] {
        assert_eq!(s.meta.commit, 3);
        s.apply_committed();
        assert_eq!(value_of(s, 7), Ok(vec![18]));
    }
}

#[test]
fn become_candidate_is_a_no_op_for_leader_and_offline() {
    let mut s = RaftServer::new(A, vec![], opts(), 0);
    let req = s.become_candidate(10, 200).unwrap();
    assert_eq!((req.term, req.candidate_id), (1, A));
    assert_eq!(s.meta.membership, Membership::LEADER);
    assert!(s.become_candidate(20, 300).is_none());
    assert_eq!((s.meta.term, s.meta.timeout), (1, 200));
    s.shutdown();
    assert!(s.become_candidate(30, 300).is_none());
    assert_eq!(s.meta.membership, Membership::OFFLINE);
}

#[test]
fn query_of_unknown_function_is_refused() {
    let mut m = MasterStateMachine::new();
    m.register(Number::new(1, 0));
    assert_eq!(
        m.query(1, SET, &vec![]),
        Err(ApplyError::Refused(bifrost::store::number::NumberError::UnknownFunction))
    );
}

#[test]
fn snapshot_overwrites_whatever_was_there() {
    for w in [-5i8, 0, 99] {
        let mut b = node(B);
        b.register(Number::new(7, w));
        let d = Number::new(7, -77).snapshot().unwrap();
        assert_eq!(b.install_snapshot(1, A, 3, 1, prepend_u64(7, d.clone()), true, 1), Ok(1));
        assert_eq!(value_of(&b, 7), Ok(vec![(-77i8) as u8]));
        assert_eq!(b.meta.state_machine.machines[0].snapshot(), Some(d));
    }
}
