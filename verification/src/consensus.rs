//! Messages of the leader-election and log-replication protocol.
use vstd::prelude::*;

pub use crate::ccr::log::LogEntry;

verus! {

/// The role a node plays in the replication protocol.
#[derive(Debug, Clone, Copy, PartialEq, Eq, Structural)]
pub enum ConsensusState {
    Follower,
    Candidate,
    Leader,
}

#[derive(Debug)]
pub struct RequestVote {
    pub term: u64,
    pub candidate_id: String,
    pub last_log_index: u64,
    pub last_log_term: u64,
}

#[derive(Debug)]
pub struct VoteResponse {
    pub term: u64,
    pub vote_granted: bool,
    pub candidate_id: String,
}

#[derive(Debug)]
pub struct AppendEntries {
    pub term: u64,
    pub leader_id: String,
    pub prev_log_index: u64,
    pub prev_log_term: u64,
    pub entries: Vec<LogEntry>,
    pub leader_commit: u64,
}

#[derive(Debug)]
pub struct AppendEntriesResponse {
    pub term: u64,
    pub success: bool,
    pub leader_id: String,
    pub match_index: u64,
}

#[derive(Debug)]
pub enum ConsensusMessage {
    RequestVote(RequestVote),
    VoteResponse(VoteResponse),
    AppendEntries(AppendEntries),
    AppendEntriesResponse(AppendEntriesResponse),
}

} // verus!
