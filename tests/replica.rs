use kek::configuration::{Address, Configuration};
use kek::message::{ClientRequest, IOMessage, Prepare, PrepareOk, ReplicaMessage, Reply};
use kek::operation::{OpResult, Operation};
use kek::replica::{Replica, ReplicaError, Status};

fn conf(n: usize) -> Configuration {
    let names: Vec<String> = (0..n).map(|i| format!("10.0.0.{}:7000", i + 1)).collect();
    Configuration::new(names.iter().map(|s| s.as_str()).collect()).unwrap()
}

fn cluster(n: usize) -> Vec<Replica> {
    (0..n).map(|i| Replica::new(conf(n), i).unwrap()).collect()
}

fn request(client_id: u64, request_number: u64, op: Operation) -> ClientRequest {
    ClientRequest { client_id, request_number, op }
}

fn add(key: &str, value: &str) -> Operation {
    Operation::Add { key: key.as_bytes().to_vec(), value: value.as_bytes().to_vec() }
}

fn drain_replica(r: &mut Replica) -> Vec<(usize, ReplicaMessage)> {
    let mut out = Vec::new();
    while let Some(m) = r.dequeue_replica_msg() {
        out.push(m);
    }
    out
}

fn drain_clients(r: &mut Replica) -> Vec<(u64, Reply)> {
    let mut out = Vec::new();
    while let Some(m) = r.dequeue_client_reply() {
        out.push(m);
    }
    out
}

/// Delivers every queued replica message until none is left.
fn settle(rs: &mut Vec<Replica>) {
    loop {
        let mut moved = false;
        for i in 0..rs.len() {
            for (to, m) in drain_replica(&mut rs[i]) {
                moved = true;
                rs[to].on_replica_message(m).unwrap();
            }
        }
        if !moved {
            break;
        }
    }
}

#[test]
fn new_replica_starts_normal_in_view_zero() {
    let r = Replica::new(conf(3), 2).unwrap();
    assert_eq!(r.status(), Status::Normal);
    assert_eq!(r.view_number(), 0);
    assert_eq!(r.commit_number(), 0);
    assert_eq!(r.last_op_number(), 0);
    assert_eq!(r.replica_id(), 2);
    assert!(r.is_backup());
    assert!(!r.is_primary());
    assert_eq!(r.configuration().replica_count(), 3);
}

#[test]
fn new_replica_out_of_range_is_unknown_replica() {
    assert!(matches!(Replica::new(conf(3), 3), Err(ReplicaError::UnknownReplica)));
    assert!(matches!(Replica::new(Configuration::empty(), 0), Err(ReplicaError::UnknownReplica)));
}

#[test]
fn end_to_end_join_on_three_replicas() {
    let mut rs = cluster(3);
    assert!(rs[0].is_primary());
    rs[0].on_client_request(request(0, 0, Operation::Join)).unwrap();
    assert_eq!(rs[0].last_op_number(), 1);

    let prepares = drain_replica(&mut rs[0]);
    assert_eq!(prepares.len(), 2);
    for (k, (to, m)) in prepares.iter().enumerate() {
        assert_eq!(*to, k + 1);
        assert_eq!(
            *m,
            ReplicaMessage::Prepare(Prepare {
                view_number: 0,
                request: request(0, 0, Operation::Join),
                op_number: 1,
                commit_number: 0,
            })
        );
    }

    let mut oks = Vec::new();
    for (to, m) in prepares {
        rs[to].on_replica_message(m).unwrap();
        assert_eq!(rs[to].last_op_number(), 1);
        assert_eq!(rs[to].commit_number(), 0);
        let out = drain_replica(&mut rs[to]);
        assert_eq!(
            out,
            vec![(0, ReplicaMessage::PrepareOk(PrepareOk { view_number: 0, op_number: 1, replica_number: to }))]
        );
        oks.extend(out);
    }

    for (to, m) in oks {
        assert_eq!(to, 0);
        rs[0].on_replica_message(m).unwrap();
    }
    assert_eq!(rs[0].commit_number(), 1);
    let replies = drain_clients(&mut rs[0]);
    assert_eq!(
        replies,
        vec![(0, Reply { view_number: 0, request_number: 0, result: OpResult::JoinResult(Ok(1)) })]
    );
    let entry = rs[0].client_entry(1).unwrap();
    assert_eq!(entry.last_result, Some(OpResult::JoinResult(Ok(1))));
}

#[test]
fn resubmitted_request_gets_identical_reply() {
    let mut rs = cluster(3);
    rs[0].on_client_request(request(0, 0, Operation::Join)).unwrap();
    settle(&mut rs);
    drain_clients(&mut rs[0]);

    rs[0].on_client_request(request(1, 1, add("k", "v"))).unwrap();
    settle(&mut rs);
    let first = drain_clients(&mut rs[0]);
    assert_eq!(first, vec![(1, Reply { view_number: 0, request_number: 1, result: OpResult::AddResult(Ok(())) })]);
    let log_len = rs[0].last_op_number();

    rs[0].on_client_request(request(1, 1, add("k", "v"))).unwrap();
    let second = drain_clients(&mut rs[0]);
    assert_eq!(second, first);
    assert_eq!(rs[0].last_op_number(), log_len);
    assert!(drain_replica(&mut rs[0]).is_empty());
}

#[test]
fn duplicate_of_pending_request_is_dropped() {
    let mut rs = cluster(3);
    rs[0].on_client_request(request(0, 0, Operation::Join)).unwrap();
    settle(&mut rs);
    drain_clients(&mut rs[0]);
    rs[0].on_client_request(request(1, 1, add("k", "v"))).unwrap();
    assert_eq!(rs[0].last_op_number(), 2);
    rs[0].on_client_request(request(1, 1, add("k", "v"))).unwrap();
    assert_eq!(rs[0].last_op_number(), 2);
    assert!(drain_clients(&mut rs[0]).is_empty());
}

#[test]
fn stale_prepare_ok_changes_nothing() {
    let mut rs = cluster(3);
    rs[0].on_client_request(request(0, 0, Operation::Join)).unwrap();
    settle(&mut rs);
    assert_eq!(rs[0].commit_number(), 1);
    drain_clients(&mut rs[0]);
    let late = PrepareOk { view_number: 0, op_number: 1, replica_number: 2 };
    assert_eq!(rs[0].on_prepare_ok(late), Ok(()));
    assert_eq!(rs[0].commit_number(), 1);
    assert!(drain_clients(&mut rs[0]).is_empty());
    let older = PrepareOk { view_number: 0, op_number: 0, replica_number: 1 };
    assert_eq!(rs[0].on_prepare_ok(older), Ok(()));
    assert_eq!(rs[0].commit_number(), 1);
}

#[test]
fn backups_commit_from_piggybacked_commit_number() {
    let mut rs = cluster(3);
    rs[0].on_client_request(request(0, 0, Operation::Join)).unwrap();
    settle(&mut rs);
    rs[0].on_client_request(request(1, 1, add("a", "1"))).unwrap();
    settle(&mut rs);
    assert_eq!(rs[0].commit_number(), 2);
    // The second Prepare carried commit number 1.
    assert_eq!(rs[1].commit_number(), 1);
    assert_eq!(rs[2].commit_number(), 1);
    assert!(rs[1].client_entry(1).is_some());
    assert!(rs[1].stored_value(&b"a".to_vec()).is_none());
    assert_eq!(rs[0].stored_value(&b"a".to_vec()), Some(&b"1".to_vec()));
    rs[0].on_client_request(request(1, 2, Operation::Remove { key: b"a".to_vec() })).unwrap();
    settle(&mut rs);
    assert_eq!(rs[1].commit_number(), 2);
    assert_eq!(rs[1].stored_value(&b"a".to_vec()), Some(&b"1".to_vec()));
    assert!(rs[0].stored_value(&b"a".to_vec()).is_none());
}

#[test]
fn single_replica_commits_at_once() {
    let mut rs = cluster(1);
    rs[0].on_client_request(request(0, 0, Operation::Join)).unwrap();
    assert_eq!(rs[0].commit_number(), 1);
    assert!(drain_replica(&mut rs[0]).is_empty());
    assert_eq!(
        drain_clients(&mut rs[0]),
        vec![(0, Reply { view_number: 0, request_number: 0, result: OpResult::JoinResult(Ok(1)) })]
    );
    rs[0].on_client_request(request(1, 1, add("x", "y"))).unwrap();
    rs[0].on_client_request(request(1, 2, add("x", "z"))).unwrap();
    assert_eq!(
        drain_clients(&mut rs[0]),
        vec![
            (1, Reply { view_number: 0, request_number: 1, result: OpResult::AddResult(Ok(())) }),
            (1, Reply { view_number: 0, request_number: 2, result: OpResult::AddResult(Err(())) }),
        ]
    );
}

#[test]
fn role_violations_are_errors() {
    let mut rs = cluster(3);
    assert_eq!(rs[1].on_client_request(request(0, 0, Operation::Join)), Err(ReplicaError::NotPrimary));
    let p = Prepare { view_number: 0, request: request(0, 0, Operation::Join), op_number: 1, commit_number: 0 };
    assert_eq!(rs[0].on_prepare(p), Err(ReplicaError::NotBackup));
    let ok = PrepareOk { view_number: 0, op_number: 1, replica_number: 0 };
    assert_eq!(rs[1].on_prepare_ok(ok), Err(ReplicaError::NotPrimary));
}

#[test]
fn unknown_client_is_rejected() {
    let mut rs = cluster(3);
    assert_eq!(rs[0].on_client_request(request(9, 1, add("k", "v"))), Err(ReplicaError::UnknownClient));
    assert_eq!(rs[0].last_op_number(), 0);
}

#[test]
fn prepare_checks_view_and_sequence() {
    let mut rs = cluster(3);
    let p = |op_number: u64, view_number: u64| Prepare {
        view_number,
        request: request(0, 0, Operation::Join),
        op_number,
        commit_number: 0,
    };
    assert_eq!(rs[1].on_prepare(p(2, 0)), Err(ReplicaError::LogSequenceViolation));
    assert_eq!(rs[1].on_prepare(p(1, 1)), Err(ReplicaError::FutureView));
    assert_eq!(rs[1].on_prepare(p(1, 0)), Ok(()));
    assert_eq!(rs[1].on_prepare(p(1, 0)), Err(ReplicaError::StaleMessage));
    assert_eq!(rs[1].last_op_number(), 1);
}

#[test]
fn prepare_ok_checks() {
    let mut rs = cluster(3);
    rs[0].on_client_request(request(0, 0, Operation::Join)).unwrap();
    let ok = |op_number: u64, view_number: u64, replica_number: usize| PrepareOk { view_number, op_number, replica_number };
    assert_eq!(rs[0].on_prepare_ok(ok(2, 0, 1)), Err(ReplicaError::UnknownOperation));
    assert_eq!(rs[0].on_prepare_ok(ok(1, 3, 1)), Err(ReplicaError::FutureView));
    assert_eq!(rs[0].on_prepare_ok(ok(1, 0, 3)), Err(ReplicaError::UnknownReplica));
    assert_eq!(rs[0].commit_number(), 0);
    assert_eq!(rs[0].on_prepare_ok(ok(1, 0, 0)), Ok(()));
    assert_eq!(rs[0].commit_number(), 0);
    assert_eq!(rs[0].on_prepare_ok(ok(1, 0, 2)), Ok(()));
    assert_eq!(rs[0].commit_number(), 1);
}

#[test]
fn replica_does_not_take_replies() {
    let mut rs = cluster(3);
    let reply = Reply { view_number: 0, request_number: 0, result: OpResult::Outdated };
    assert_eq!(rs[0].on_message(IOMessage::Reply(reply)), Err(ReplicaError::UnexpectedMessage));
    assert_eq!(rs[0].on_message(IOMessage::Client(request(0, 0, Operation::Join))), Ok(()));
    assert_eq!(rs[0].last_op_number(), 1);
}

#[test]
fn dequeue_replica_message_resolves_addresses() {
    let mut rs = cluster(3);
    rs[0].on_client_request(request(0, 0, Operation::Join)).unwrap();
    let (a1, m1) = rs[0].dequeue_replica_message().unwrap();
    let (a2, _) = rs[0].dequeue_replica_message().unwrap();
    assert!(rs[0].dequeue_replica_message().is_none());
    let base = (10u32 << 24) | 1;
    assert_eq!(a1, Address { ip: base + 1, port: 7000 });
    assert_eq!(a2, Address { ip: base + 2, port: 7000 });
    assert!(matches!(m1, ReplicaMessage::Prepare(p) if p.op_number == 1));
}

#[test]
fn committed_prefix_is_in_every_log() {
    let mut rs = cluster(3);
    rs[0].on_client_request(request(0, 0, Operation::Join)).unwrap();
    settle(&mut rs);
    for n in 1..=4u64 {
        rs[0].on_client_request(request(1, n, add(&format!("k{}", n), "v"))).unwrap();
        settle(&mut rs);
    }
    for r in &rs {
        let commit = r.commit_number();
        assert!(commit >= 4);
        for k in 1..=commit {
            assert_eq!(r.log().get_entry(k).unwrap().op_number, k);
        }
    }
    assert_eq!(rs[0].commit_number(), 5);
}

#[test]
fn join_from_joined_client_is_answered_from_cache() {
    let mut rs = cluster(3);
    rs[0].on_client_request(request(0, 0, Operation::Join)).unwrap();
    settle(&mut rs);
    drain_clients(&mut rs[0]);
    rs[0].on_client_request(request(1, 1, add("k", "v"))).unwrap();
    settle(&mut rs);
    let first = drain_clients(&mut rs[0]);
    let log_len = rs[0].last_op_number();
    rs[0].on_client_request(request(1, 1, Operation::Join)).unwrap();
    assert_eq!(rs[0].last_op_number(), log_len);
    assert_eq!(drain_clients(&mut rs[0]), first);
}

#[test]
fn backup_commit_never_outruns_its_log() {
    let mut rs = cluster(3);
    let p = Prepare { view_number: 0, request: request(0, 0, Operation::Join), op_number: 1, commit_number: 10 };
    assert_eq!(rs[1].on_prepare(p), Ok(()));
    assert_eq!(rs[1].commit_number(), 1);
    assert!(rs[1].client_entry(1).is_some());
}

#[test]
fn stale_prepare_ok_from_earlier_view_is_dropped() {
    let mut rs = cluster(3);
    rs[0].on_client_request(request(0, 0, Operation::Join)).unwrap();
    settle(&mut rs);
    let before = rs[0].commit_number();
    // Acknowledgements of committed operations are taken whatever their view.
    assert_eq!(rs[0].on_prepare_ok(PrepareOk { view_number: 7, op_number: 1, replica_number: 1 }), Ok(()));
    assert_eq!(rs[0].commit_number(), before);
}

#[test]
fn retried_join_is_answered_from_cache() {
    let mut rs = cluster(3);
    rs[0].on_client_request(request(50, 0, Operation::Join)).unwrap();
    settle(&mut rs);
    let first = drain_clients(&mut rs[0]);
    assert_eq!(first, vec![(50, Reply { view_number: 0, request_number: 0, result: OpResult::JoinResult(Ok(1)) })]);
    let log_len = rs[0].last_op_number();
    rs[0].on_client_request(request(50, 0, Operation::Join)).unwrap();
    assert_eq!(rs[0].last_op_number(), log_len);
    assert!(drain_replica(&mut rs[0]).is_empty());
    assert_eq!(drain_clients(&mut rs[0]), first);
    rs[0].on_client_request(request(60, 0, Operation::Join)).unwrap();
    settle(&mut rs);
    assert_eq!(
        drain_clients(&mut rs[0]),
        vec![(60, Reply { view_number: 0, request_number: 0, result: OpResult::JoinResult(Ok(2)) })]
    );
}

#[test]
fn retried_pending_join_is_dropped() {
    let mut rs = cluster(3);
    rs[0].on_client_request(request(50, 0, Operation::Join)).unwrap();
    rs[0].on_client_request(request(50, 0, Operation::Join)).unwrap();
    assert_eq!(rs[0].last_op_number(), 1);
    assert_eq!(drain_replica(&mut rs[0]).len(), 2);
}

#[test]
fn five_replicas_commit_on_second_backup_ack() {
    let mut rs = cluster(5);
    rs[0].on_client_request(request(9, 0, Operation::Join)).unwrap();
    let prepares = drain_replica(&mut rs[0]);
    assert_eq!(prepares.len(), 4);
    let mut oks = Vec::new();
    for (to, m) in prepares {
        rs[to].on_replica_message(m).unwrap();
        oks.extend(drain_replica(&mut rs[to]));
    }
    let mut commits = Vec::new();
    let mut replies = Vec::new();
    for (to, m) in oks {
        assert_eq!(to, 0);
        rs[0].on_replica_message(m).unwrap();
        commits.push(rs[0].commit_number());
        replies.push(drain_clients(&mut rs[0]).len());
    }
    assert_eq!(commits, vec![0, 1, 1, 1]);
    assert_eq!(replies, vec![0, 1, 0, 0]);
}
