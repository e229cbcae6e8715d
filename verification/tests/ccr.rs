use hybridconsensus::ccr::raft::RaftConsensus;
use hybridconsensus::ccr::CCRLayer;
use hybridconsensus::consensus::{AppendEntries, RequestVote};

fn vote(term: u64, candidate: &str, last_index: u64, last_term: u64) -> RequestVote {
    RequestVote {
        term,
        candidate_id: candidate.to_string(),
        last_log_index: last_index,
        last_log_term: last_term,
    }
}

#[test]
fn one_vote_per_term() {
    let mut layer = CCRLayer::new();
    let first = layer.handle_vote_request(vote(1, "a", 0, 0));
    assert!(first.vote_granted);
    assert_eq!(first.term, 1);
    assert_eq!(first.candidate_id, "a");
    let second = layer.handle_vote_request(vote(1, "b", 0, 0));
    assert!(!second.vote_granted);
    // The same candidate may ask again.
    assert!(layer.handle_vote_request(vote(1, "a", 0, 0)).vote_granted);
    // A later term frees the vote.
    let third = layer.handle_vote_request(vote(2, "b", 0, 0));
    assert!(third.vote_granted);
    assert_eq!(third.term, 2);
}

#[test]
fn stale_requests_are_refused() {
    let mut layer = CCRLayer::new();
    layer.handle_vote_request(vote(5, "a", 0, 0));
    let old = layer.handle_vote_request(vote(4, "b", 9, 9));
    assert!(!old.vote_granted);
    assert_eq!(old.term, 5);
    let append = AppendEntries {
        term: 3,
        leader_id: "l".to_string(),
        prev_log_index: 0,
        prev_log_term: 0,
        entries: vec![],
        leader_commit: 0,
    };
    let resp = layer.handle_append_entries(append);
    assert!(!resp.success);
    assert_eq!((resp.term, resp.match_index), (5, 0));
    assert_eq!(resp.leader_id, "l");
}

#[test]
fn vote_requests_and_timeouts() {
    let mut layer = CCRLayer::new();
    let request = layer.create_vote_request();
    assert_eq!((request.term, request.last_log_index, request.last_log_term), (0, 0, 0));
    assert_eq!(request.candidate_id, "self_id");
    layer.increment_term();
    assert_eq!(layer.create_vote_request().term, 1);
    assert!(layer.should_become_candidate());
    assert!(layer.election_timeout_elapsed());
    assert!(!layer.has_majority_votes());
}

#[test]
fn raft_timeouts() {
    let raft = RaftConsensus::new(1000);
    assert!(!raft.should_become_candidate(1000));
    assert!(!raft.election_timeout_elapsed(1100));
    assert!(!raft.should_become_candidate(500));
    assert!(raft.should_become_candidate(1300));
    assert!(raft.election_timeout_elapsed(1300));
}

#[test]
fn one_vote_per_term_across_other_calls() {
    let mut layer = CCRLayer::new();
    assert!(layer.handle_vote_request(vote(1, "a", 0, 0)).vote_granted);
    // Calls in between: a stale append, a term increment and a vote in the
    // new term.
    let append = AppendEntries {
        term: 0,
        leader_id: "l".to_string(),
        prev_log_index: 0,
        prev_log_term: 0,
        entries: vec![],
        leader_commit: 0,
    };
    assert!(!layer.handle_append_entries(append).success);
    layer.increment_term();
    assert!(!layer.handle_vote_request(vote(1, "b", 0, 0)).vote_granted);
    assert!(!layer.handle_vote_request(vote(2, "b", 0, 0)).vote_granted);
    assert!(layer.handle_vote_request(vote(2, "a", 0, 0)).vote_granted);
}
