use hybridconsensus::ccc::pbft::{PBFTMessage, Request};
use hybridconsensus::ccc::{CCCError, CCCLayer, CCCMessage, CccAction, LayerCommunicationMessage};
use hybridconsensus::consensus::{ConsensusMessage, ConsensusState, RequestVote};
use hybridconsensus::node::{Node, NodeAction};
use hybridconsensus::HybridConsensusError;

#[test]
fn a_follower_tick_starts_an_election() {
    let mut node = Node::new("node_0".to_string());
    assert_eq!(node.state(), ConsensusState::Follower);
    let actions = node.check_timeouts();
    assert_eq!(node.state(), ConsensusState::Candidate);
    match &actions[..] {
        [NodeAction::Broadcast(ConsensusMessage::RequestVote(rv))] => {
            assert_eq!(rv.term, 1);
            assert_eq!(rv.candidate_id, "self_id");
        }
        other => panic!("unexpected {:?}", other),
    }
    // A candidate's tick starts another election in the next term.
    match &node.check_timeouts()[..] {
        [NodeAction::Broadcast(ConsensusMessage::RequestVote(rv))] => assert_eq!(rv.term, 2),
        other => panic!("unexpected {:?}", other),
    }
}

#[test]
fn vote_requests_are_answered_to_the_candidate() {
    let mut node = Node::new("node_1".to_string());
    let request = RequestVote {
        term: 3,
        candidate_id: "node_2".to_string(),
        last_log_index: 0,
        last_log_term: 0,
    };
    let actions = node.handle_message(ConsensusMessage::RequestVote(request));
    match &actions[..] {
        [NodeAction::SendTo(to, ConsensusMessage::VoteResponse(resp))] => {
            assert_eq!(to, "node_2");
            assert!(resp.vote_granted);
            assert_eq!(resp.term, 3);
        }
        other => panic!("unexpected {:?}", other),
    }
    assert_eq!(node.id(), "node_1");
}

#[test]
fn layer_broadcasts_along_its_links() {
    let mut layer = CCCLayer::new("a".to_string(), 1, 0);
    layer.update_communication_cost("a".to_string(), "b".to_string(), 1.5f64.to_bits());
    layer.update_communication_cost("c".to_string(), "a".to_string(), 2.0f64.to_bits());
    layer.update_communication_cost("a".to_string(), "d".to_string(), 3.0f64.to_bits());
    layer.update_communication_cost("a".to_string(), "b".to_string(), 0.5f64.to_bits());
    let out = layer.propose(vec![7], 42);
    assert_eq!(out.targets, vec!["b".to_string(), "d".to_string()]);
    match out.message {
        CCCMessage::PBFT(PBFTMessage::Request(Request { timestamp, client_id, operation })) => {
            assert_eq!(timestamp, 42);
            assert_eq!(client_id, "a");
            assert_eq!(operation, vec![7]);
        }
        other => panic!("unexpected {:?}", other),
    }
    assert_eq!(
        layer.get_optimal_path("x".to_string(), "y".to_string()),
        vec!["x".to_string(), "y".to_string()]
    );
}

#[test]
fn layer_dispatches_messages() {
    let mut layer = CCCLayer::new("0".to_string(), 1, 0);
    let msg = LayerCommunicationMessage {
        from: "p".to_string(),
        to: "q".to_string(),
        content: vec![1],
    };
    match &layer.handle_message(CCCMessage::LayerCommunication(msg), 0).unwrap()[..] {
        [CccAction::LayerCommunication(m)] => assert_eq!((m.from.as_str(), m.to.as_str()), ("p", "q")),
        other => panic!("unexpected {:?}", other),
    }
    let request = Request { timestamp: 1, client_id: "c".to_string(), operation: vec![] };
    let actions = layer.handle_message(CCCMessage::PBFT(PBFTMessage::Request(request)), 0).unwrap();
    assert_eq!(actions.len(), 1);
    assert!(matches!(actions[0], CccAction::Pbft(_)));
    assert_eq!(layer.pbft().view_change_timeout_ms(), 5000);
}

#[test]
fn layer_errors_convert() {
    match CCCError::NetworkError.into_hybrid() {
        HybridConsensusError::NetworkError(m) => assert_eq!(m, "CCC Network Error"),
        other => panic!("unexpected {:?}", other),
    }
    match CCCError::LayerCommunicationError("bad".to_string()).into_hybrid() {
        HybridConsensusError::CCCError(m) => assert_eq!(m, "bad"),
        other => panic!("unexpected {:?}", other),
    }
}
