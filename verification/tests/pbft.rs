use hybridconsensus::ccc::pbft::{
    digests_equal, Checkpoint, Commit, ConsensusError, NewView, PBFTConsensus, PBFTMessage,
    PbftAction, PrePrepare, Prepare, Reply, Request, ViewChange,
};
use hybridconsensus::HybridConsensusError;
use sha2::{Digest, Sha256};

fn request() -> Request {
    Request { timestamp: 1, client_id: "client1".to_string(), operation: vec![1, 2, 3] }
}

fn copy_request(r: &Request) -> Request {
    Request { timestamp: r.timestamp, client_id: r.client_id.clone(), operation: r.operation.clone() }
}

#[test]
fn test_pbft_consensus() {
    let mut pbft = PBFTConsensus::new("node1".to_string(), 1, 0);

    // Test request handling
    let request = request();
    pbft.handle_request(copy_request(&request)).unwrap();

    // Test pre-prepare handling
    let pre_prepare = PrePrepare {
        view: 0,
        sequence: 1,
        digest: pbft.compute_digest(&request),
        request: copy_request(&request),
    };
    let digest = pre_prepare.digest;
    pbft.handle_pre_prepare(pre_prepare).unwrap();

    // Test prepare handling
    let prepare = Prepare { view: 0, sequence: 1, digest, node_id: "node2".to_string() };
    pbft.handle_prepare(prepare).unwrap();

    // Test commit handling
    let commit = Commit { view: 0, sequence: 1, digest, node_id: "node2".to_string() };
    pbft.handle_commit(commit, 0).unwrap();

    // Assert that the request has been executed and a reply sent
    assert!(pbft.is_committed(1));
}

#[test]
fn digest_is_sha256_of_the_json_request() {
    let pbft = PBFTConsensus::new("0".to_string(), 1, 0);
    let digest = pbft.compute_digest(&request());
    let expected: [u8; 32] = Sha256::digest(
        br#"{"timestamp":1,"client_id":"client1","operation":[1,2,3]}"#,
    )
    .into();
    assert_eq!(digest, expected);
    assert_eq!(
        hex(&digest),
        "d918f0cae89bd598572fe75e802b3ec7fd7bf3f3866d014fa350a31b24b072c4"
    );
    assert_eq!(
        hex(&pbft.compute_state_digest(b"state")),
        "4ba69735ca53765ed6a709edb56c6ea236b7193a3b29a6b390c346f0f4340e4e"
    );
    assert!(digests_equal(&digest, &expected));
    let mut other = expected;
    other[31] ^= 1;
    assert!(!digests_equal(&digest, &other));
}

fn hex(bytes: &[u8]) -> String {
    bytes.iter().map(|b| format!("{:02x}", b)).collect()
}

#[test]
fn primary_orders_requests() {
    // "node1" is not a number: it counts as node 0, the primary of view 0.
    let mut primary = PBFTConsensus::new("node1".to_string(), 1, 0);
    assert!(primary.is_primary());
    let actions = primary.handle_request(request()).unwrap();
    assert_eq!(actions.len(), 1);
    match &actions[0] {
        PbftAction::Broadcast(PBFTMessage::PrePrepare(pp)) => {
            assert_eq!((pp.view, pp.sequence), (0, 0));
            assert_eq!(pp.digest, primary.compute_digest(&request()));
        }
        other => panic!("unexpected {:?}", other),
    }
    let actions = primary.handle_request(request()).unwrap();
    match &actions[0] {
        PbftAction::Broadcast(PBFTMessage::PrePrepare(pp)) => assert_eq!(pp.sequence, 1),
        other => panic!("unexpected {:?}", other),
    }

    let mut backup = PBFTConsensus::new("2".to_string(), 1, 0);
    assert!(!backup.is_primary());
    assert!(backup.handle_request(request()).unwrap().is_empty());
}

#[test]
fn pre_prepare_checks() {
    let mut pbft = PBFTConsensus::new("1".to_string(), 1, 0);
    let good = pbft.compute_digest(&request());
    let wrong_view = PrePrepare { view: 1, sequence: 1, digest: good, request: request() };
    assert!(matches!(pbft.handle_pre_prepare(wrong_view), Err(ConsensusError::InvalidMessage)));
    let at_checkpoint = PrePrepare { view: 0, sequence: 0, digest: good, request: request() };
    assert!(matches!(pbft.handle_pre_prepare(at_checkpoint), Err(ConsensusError::InvalidMessage)));
    let mut bad = good;
    bad[0] ^= 0xff;
    let wrong_digest = PrePrepare { view: 0, sequence: 1, digest: bad, request: request() };
    assert!(matches!(pbft.handle_pre_prepare(wrong_digest), Err(ConsensusError::InvalidDigest)));
    let ok = PrePrepare { view: 0, sequence: 1, digest: good, request: request() };
    let actions = pbft.handle_pre_prepare(ok).unwrap();
    match &actions[0] {
        PbftAction::Broadcast(PBFTMessage::Prepare(p)) => {
            assert_eq!((p.view, p.sequence, p.digest), (0, 1, good));
            assert_eq!(p.node_id, "1");
        }
        other => panic!("unexpected {:?}", other),
    }
}

fn prepared_replica(f: usize) -> (PBFTConsensus, [u8; 32]) {
    let mut pbft = PBFTConsensus::new("1".to_string(), f, 0);
    let digest = pbft.compute_digest(&request());
    pbft.handle_pre_prepare(PrePrepare { view: 0, sequence: 1, digest, request: request() })
        .unwrap();
    (pbft, digest)
}

#[test]
fn two_f_prepares_trigger_a_commit() {
    let (mut pbft, digest) = prepared_replica(1);
    let a = pbft
        .handle_prepare(Prepare { view: 0, sequence: 1, digest, node_id: "2".to_string() })
        .unwrap();
    assert!(a.is_empty());
    assert!(!pbft.is_prepared(1));
    let b = pbft
        .handle_prepare(Prepare { view: 0, sequence: 1, digest, node_id: "3".to_string() })
        .unwrap();
    assert!(pbft.is_prepared(1));
    match &b[0] {
        PbftAction::Broadcast(PBFTMessage::Commit(c)) => {
            assert_eq!((c.view, c.sequence, c.digest), (0, 1, digest));
            assert_eq!(c.node_id, "1");
        }
        other => panic!("unexpected {:?}", other),
    }
    // A prepare for a sequence number with no pre-prepare is ignored.
    let none = pbft
        .handle_prepare(Prepare { view: 0, sequence: 9, digest, node_id: "2".to_string() })
        .unwrap();
    assert!(none.is_empty());
    let mut bad = digest;
    bad[3] ^= 1;
    assert!(matches!(
        pbft.handle_prepare(Prepare { view: 0, sequence: 1, digest: bad, node_id: "2".to_string() }),
        Err(ConsensusError::InvalidDigest)
    ));
}

#[test]
fn commit_applies_replies_and_asks_for_checkpoints() {
    let (mut pbft, digest) = prepared_replica(1);
    // A commit without a prepared proof is ignored.
    let none = pbft
        .handle_commit(Commit { view: 0, sequence: 1, digest, node_id: "2".to_string() }, 5)
        .unwrap();
    assert!(none.is_empty());
    assert!(!pbft.is_committed(1));
    pbft.handle_prepare(Prepare { view: 0, sequence: 1, digest, node_id: "2".to_string() })
        .unwrap();
    let actions = pbft
        .handle_commit(Commit { view: 0, sequence: 1, digest, node_id: "2".to_string() }, 5)
        .unwrap();
    assert_eq!(actions.len(), 2);
    match &actions[0] {
        PbftAction::ApplyOperation(op) => assert_eq!(op, &vec![1, 2, 3]),
        other => panic!("unexpected {:?}", other),
    }
    match &actions[1] {
        PbftAction::SendToClient(Reply { view, timestamp, client_id, node_id, result }) => {
            assert_eq!((*view, *timestamp), (0, 1));
            assert_eq!(client_id, "client1");
            assert_eq!(node_id, "1");
            assert_eq!(result, &vec![1, 2, 3]);
        }
        other => panic!("unexpected {:?}", other),
    }
    let later = pbft
        .handle_commit(Commit { view: 0, sequence: 1, digest, node_id: "3".to_string() }, 100_000)
        .unwrap();
    assert_eq!(later.len(), 3);
    assert!(matches!(later[2], PbftAction::CreateCheckpoint));
}

#[test]
fn checkpoint_collects_old_entries() {
    let (mut pbft, digest) = prepared_replica(1);
    pbft.handle_prepare(Prepare { view: 0, sequence: 1, digest, node_id: "2".to_string() })
        .unwrap();
    pbft.handle_commit(Commit { view: 0, sequence: 1, digest, node_id: "2".to_string() }, 0)
        .unwrap();
    assert!(pbft.is_committed(1));
    // Move the sequence number past 1 with a new view, then checkpoint.
    pbft.handle_new_view(NewView { new_view: 1, view_change_proofs: vec![], new_sequence: 4 })
        .unwrap();
    let actions = pbft.create_checkpoint(b"state", 7);
    match &actions[0] {
        PbftAction::Broadcast(PBFTMessage::Checkpoint(Checkpoint { sequence, digest })) => {
            assert_eq!(*sequence, 4);
            assert_eq!(digest, &pbft.compute_state_digest(b"state"));
        }
        other => panic!("unexpected {:?}", other),
    }
    assert_eq!(pbft.last_stable_checkpoint(), 4);
    assert!(!pbft.is_committed(1));
    assert!(!pbft.is_prepared(1));
    // Messages at or below the checkpoint are now refused.
    assert!(matches!(
        pbft.handle_commit(Commit { view: 1, sequence: 4, digest, node_id: "2".to_string() }, 0),
        Err(ConsensusError::InvalidMessage)
    ));
}

#[test]
fn view_changes() {
    let mut pbft = PBFTConsensus::new("1".to_string(), 1, 0);
    let vc = |v: u64| ViewChange {
        new_view: v,
        last_sequence: 0,
        node_id: "2".to_string(),
        checkpoints: vec![],
        prepared_proofs: vec![],
    };
    assert!(matches!(pbft.handle_view_change(vc(0)), Err(ConsensusError::InvalidViewChange)));
    pbft.handle_view_change(vc(3)).unwrap();
    assert!(matches!(
        pbft.handle_new_view(NewView { new_view: 3, view_change_proofs: vec![], new_sequence: 0 }),
        Err(ConsensusError::InvalidNewView)
    ));
    // View 3 modulo 3 is 0, and node "1" is not its primary.
    assert!(!pbft.is_primary());
    let actions = pbft.start_view_change();
    match &actions[0] {
        PbftAction::Broadcast(PBFTMessage::ViewChange(v)) => {
            assert_eq!(v.new_view, 4);
            assert_eq!(v.node_id, "1");
            assert!(v.prepared_proofs.is_empty());
        }
        other => panic!("unexpected {:?}", other),
    }
    assert!(pbft.is_primary());
}

#[test]
fn completing_a_view_change() {
    let mut pbft = PBFTConsensus::new("1".to_string(), 1, 0);
    let vc = |v: u64, s: u64| ViewChange {
        new_view: v,
        last_sequence: s,
        node_id: "2".to_string(),
        checkpoints: vec![],
        prepared_proofs: vec![],
    };
    assert!(matches!(
        pbft.process_view_change(vec![vc(2, 1), vc(2, 2)]),
        Err(ConsensusError::InvalidViewChange)
    ));
    assert!(matches!(
        pbft.process_view_change(vec![vc(2, 1), vc(3, 2), vc(2, 3)]),
        Err(ConsensusError::InvalidViewChange)
    ));
    let actions = pbft.process_view_change(vec![vc(2, 1), vc(2, 7), vc(2, 3)]).unwrap();
    match &actions[0] {
        PbftAction::Broadcast(PBFTMessage::NewView(nv)) => {
            assert_eq!((nv.new_view, nv.new_sequence), (2, 8));
            assert_eq!(nv.view_change_proofs.len(), 3);
        }
        other => panic!("unexpected {:?}", other),
    }
}

#[test]
fn other_messages_through_the_dispatcher() {
    let mut pbft = PBFTConsensus::new("1".to_string(), 1, 0);
    let reply = Reply {
        view: 0,
        timestamp: 0,
        client_id: "c".to_string(),
        node_id: "n".to_string(),
        result: vec![],
    };
    assert!(pbft.handle_message(PBFTMessage::Reply(reply), 0).unwrap().is_empty());
    let cp = Checkpoint { sequence: 3, digest: [0; 32] };
    assert!(pbft.handle_message(PBFTMessage::Checkpoint(cp), 0).unwrap().is_empty());
    assert_eq!(pbft.last_stable_checkpoint(), 0);
    assert_eq!(pbft.view_change_timeout_ms(), 5000);
}

#[test]
fn error_texts() {
    assert_eq!(ConsensusError::InvalidMessage.message(), "Invalid message");
    assert_eq!(ConsensusError::InvalidDigest.message(), "Invalid digest");
    assert_eq!(ConsensusError::InvalidViewChange.message(), "Invalid view change");
    assert_eq!(ConsensusError::InvalidNewView.message(), "Invalid new view");
    assert_eq!(ConsensusError::NetworkError("x".to_string()).message(), "Network error: x");
    assert_eq!(ConsensusError::StorageError("y".to_string()).message(), "Storage error: y");
    match ConsensusError::InvalidDigest.into_hybrid() {
        HybridConsensusError::ConsensusError(m) => assert_eq!(m, "Invalid digest"),
        other => panic!("unexpected {:?}", other),
    }
}

#[test]
fn refused_prepares_need_no_fault_bound() {
    let mut pbft = PBFTConsensus::new("n".to_string(), usize::MAX, 0);
    let stale = Prepare { view: 3, sequence: 1, digest: [0u8; 32], node_id: "m".to_string() };
    assert!(!pbft.counts_prepare(&stale));
    assert!(matches!(pbft.handle_prepare(stale), Err(ConsensusError::InvalidMessage)));
    let unlogged = Prepare { view: 0, sequence: 1, digest: [0u8; 32], node_id: "m".to_string() };
    assert!(!pbft.counts_prepare(&unlogged));
    assert!(pbft.handle_prepare(unlogged).unwrap().is_empty());
}
