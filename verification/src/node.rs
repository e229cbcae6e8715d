//! The decisions of a consensus node: what it does on a timer tick and on a
//! message, given its role and its replication state. The caller encrypts,
//! serialises and sends the messages this module returns.
use vstd::prelude::*;
use crate::ccr::{after_append, after_vote, append_answer, vote_answer, CCRLayer, CcrState};
use crate::consensus::{ConsensusMessage, ConsensusState};

verus! {

/// A message the node sends.
#[derive(Debug)]
pub enum NodeAction {
    /// Send the message to every peer.
    Broadcast(ConsensusMessage),
    /// Send the message to one node.
    SendTo(String, ConsensusMessage),
}

pub struct Node {
    id: String,
    state: ConsensusState,
    ccr_layer: CCRLayer,
}

/// The abstract state of a node.
pub struct NodeState {
    pub id: Seq<char>,
    pub state: ConsensusState,
    pub ccr: CcrState,
}

impl View for Node {
    type V = NodeState;

    closed spec fn view(&self) -> NodeState {
        NodeState { id: self.id@, state: self.state, ccr: self.ccr_layer@ }
    }
}

/// The outcome of starting an election: the node becomes a candidate, moves
/// to the next term and asks every peer for its vote.
pub open spec fn election_step(pre: NodeState, post: NodeState, actions: Seq<NodeAction>) -> bool {
    &&& post == NodeState {
        state: ConsensusState::Candidate,
        ccr: CcrState { current_term: (pre.ccr.current_term + 1) as u64, ..pre.ccr },
        ..pre
    }
    &&& actions.len() == 1
    &&& actions[0] matches NodeAction::Broadcast(ConsensusMessage::RequestVote(rv)) && {
        &&& rv.term == post.ccr.current_term
        &&& rv.candidate_id@ == crate::ccr::self_id()
        &&& rv.last_log_index == pre.ccr.log.len()
        &&& rv.last_log_term == crate::ccr::last_log_term(pre.ccr.log)
    }
}

/// A heartbeat to every peer: an empty append request from this node naming
/// the last entry and its term.
pub open spec fn heartbeat_sent(s: NodeState, actions: Seq<NodeAction>) -> bool {
    &&& actions.len() == 1
    &&& actions[0] matches NodeAction::Broadcast(ConsensusMessage::AppendEntries(ae)) && {
        &&& ae.term == s.ccr.current_term
        &&& ae.leader_id@ == crate::ccr::self_id()
        &&& ae.prev_log_index == s.ccr.log.len() - 1
        &&& ae.prev_log_term == crate::ccr::last_log_term(s.ccr.log)
        &&& ae.entries@.len() == 0
        &&& ae.leader_commit == s.ccr.commit_index
    }
}

/// The node can take a timer tick: it can move to a next term, and a leader
/// has a log entry to name in its heartbeat.
pub open spec fn can_tick(s: NodeState) -> bool {
    &&& s.state !is Leader ==> s.ccr.current_term < u64::MAX
    &&& s.state is Leader ==> s.ccr.log.len() > 0
}

/// The node can take a message: an append request of its term or later
/// needs a log entry to compare with.
pub open spec fn can_receive(s: NodeState, message: ConsensusMessage) -> bool {
    message matches ConsensusMessage::AppendEntries(ae) && ae.term >= s.ccr.current_term ==> s.ccr.log.len()
        > 0
}

/// The outcome of a message.
pub open spec fn receive_step(
    pre: NodeState,
    message: ConsensusMessage,
    post: NodeState,
    actions: Seq<NodeAction>,
) -> bool {
    match message {
        ConsensusMessage::RequestVote(rv) => {
            let resp = vote_answer(pre.ccr, rv);
            &&& post == NodeState { ccr: after_vote(pre.ccr, rv), ..pre }
            &&& actions == seq![
                NodeAction::SendTo(resp.candidate_id, ConsensusMessage::VoteResponse(resp)),
            ]
        },
        ConsensusMessage::AppendEntries(ae) => {
            let resp = append_answer(pre.ccr, ae);
            &&& post == NodeState { ccr: after_append(pre.ccr, ae), ..pre }
            &&& actions == seq![
                NodeAction::SendTo(resp.leader_id, ConsensusMessage::AppendEntriesResponse(resp)),
            ]
        },
        _ => post == pre && actions.len() == 0,
    }
}

impl Node {
    /// A follower with a fresh replication state.
    pub fn new(id: String) -> (r: Self)
        ensures
            r@.id == id@,
            r@.state == ConsensusState::Follower,
            r@.ccr == crate::ccr::initial_state(),
    {
        Node { id, state: ConsensusState::Follower, ccr_layer: CCRLayer::new() }
    }

    /// The node's identifier.
    pub fn id(&self) -> (r: &str)
        ensures
            r@ == self@.id,
    {
        self.id.as_str()
    }

    /// The node's role.
    pub fn state(&self) -> (r: ConsensusState)
        ensures
            r == self@.state,
    {
        self.state
    }

    /// Whether the node can take a timer tick (see `can_tick`).
    pub fn ready_for_tick(&self) -> (r: bool)
        ensures
            r == can_tick(self@),
    {
        match self.state {
            ConsensusState::Leader => self.ccr_layer.log_len() > 0,
            _ => self.ccr_layer.current_term() < u64::MAX,
        }
    }

    /// Whether the node can take the message (see `can_receive`).
    pub fn ready_for(&self, message: &ConsensusMessage) -> (r: bool)
        ensures
            r == can_receive(self@, *message),
    {
        match message {
            ConsensusMessage::AppendEntries(ae) => ae.term < self.ccr_layer.current_term()
                || self.ccr_layer.log_len() > 0,
            _ => true,
        }
    }

    /// A timer tick: a follower whose timer ran out, or a candidate whose
    /// election timed out, starts an election; a leader sends a heartbeat.
    pub fn check_timeouts(&mut self) -> (r: Vec<NodeAction>)
        requires
            can_tick(old(self)@),
        ensures
            match old(self)@.state {
                ConsensusState::Leader => final(self)@ == old(self)@ && heartbeat_sent(
                    old(self)@,
                    r@,
                ),
                _ => election_step(old(self)@, final(self)@, r@),
            },
    {
        match self.state {
            ConsensusState::Follower => {
                if self.ccr_layer.should_become_candidate() {
                    self.start_election()
                } else {
                    Vec::new()
                }
            },
            ConsensusState::Candidate => {
                if self.ccr_layer.election_timeout_elapsed() {
                    self.start_election()
                } else {
                    Vec::new()
                }
            },
            ConsensusState::Leader => self.send_heartbeat(),
        }
    }

    /// Becomes a candidate in the next term and asks every peer for a vote.
    fn start_election(&mut self) -> (r: Vec<NodeAction>)
        requires
            old(self)@.ccr.current_term < u64::MAX,
        ensures
            election_step(old(self)@, final(self)@, r@),
    {
        self.state = ConsensusState::Candidate;
        self.ccr_layer.increment_term();
        self.request_votes()
    }

    /// A vote request to every peer.
    fn request_votes(&self) -> (r: Vec<NodeAction>)
        ensures
            r@.len() == 1,
            r@[0] matches NodeAction::Broadcast(ConsensusMessage::RequestVote(rv)) && {
                &&& rv.term == self@.ccr.current_term
                &&& rv.candidate_id@ == crate::ccr::self_id()
                &&& rv.last_log_index == self@.ccr.log.len()
                &&& rv.last_log_term == crate::ccr::last_log_term(self@.ccr.log)
            },
    {
        let request = self.ccr_layer.create_vote_request();
        vec![NodeAction::Broadcast(ConsensusMessage::RequestVote(request))]
    }

    /// A heartbeat to every peer.
    fn send_heartbeat(&self) -> (r: Vec<NodeAction>)
        requires
            self@.ccr.log.len() > 0,
        ensures
            heartbeat_sent(self@, r@),
    {
        let heartbeat = self.ccr_layer.create_heartbeat();
        vec![NodeAction::Broadcast(ConsensusMessage::AppendEntries(heartbeat))]
    }

    /// Handles a message from a peer: vote and append requests are answered
    /// to their sender; responses change nothing (no majority is ever
    /// counted, so a vote response never makes the node leader).
    pub fn handle_message(&mut self, message: ConsensusMessage) -> (r: Vec<NodeAction>)
        requires
            can_receive(old(self)@, message),
        ensures
            receive_step(old(self)@, message, final(self)@, r@),
    {
        match message {
            ConsensusMessage::RequestVote(request) => self.handle_request_vote(request),
            ConsensusMessage::VoteResponse(response) => self.handle_vote_response(response),
            ConsensusMessage::AppendEntries(request) => self.handle_append_entries(request),
            ConsensusMessage::AppendEntriesResponse(response) => {
                self.handle_append_entries_response(response)
            },
        }
    }

    fn handle_request_vote(&mut self, request: crate::consensus::RequestVote) -> (r: Vec<
        NodeAction,
    >)
        ensures
            receive_step(old(self)@, ConsensusMessage::RequestVote(request), final(self)@, r@),
    {
        let ghost req = request;
        let response = self.ccr_layer.handle_vote_request(request);
        let ghost resp = response;
        let to = response.candidate_id.clone();
        let r = vec![NodeAction::SendTo(to, ConsensusMessage::VoteResponse(response))];
        assert(r@ =~= seq![NodeAction::SendTo(resp.candidate_id, ConsensusMessage::VoteResponse(resp))]);
        r
    }

    fn handle_vote_response(&mut self, response: crate::consensus::VoteResponse) -> (r: Vec<
        NodeAction,
    >)
        ensures
            final(self)@ == old(self)@,
            r@.len() == 0,
    {
        self.ccr_layer.handle_vote_response(response);
        if self.ccr_layer.has_majority_votes() {
            self.state = ConsensusState::Leader;
            return self.send_heartbeat();
        }
        Vec::new()
    }

    fn handle_append_entries(&mut self, request: crate::consensus::AppendEntries) -> (r: Vec<
        NodeAction,
    >)
        requires
            request.term >= old(self)@.ccr.current_term ==> old(self)@.ccr.log.len() > 0,
        ensures
            receive_step(old(self)@, ConsensusMessage::AppendEntries(request), final(self)@, r@),
    {
        let ghost req = request;
        let response = self.ccr_layer.handle_append_entries(request);
        let ghost resp = response;
        let to = response.leader_id.clone();
        let r = vec![NodeAction::SendTo(to, ConsensusMessage::AppendEntriesResponse(response))];
        assert(r@ =~= seq![NodeAction::SendTo(resp.leader_id, ConsensusMessage::AppendEntriesResponse(resp))]);
        r
    }

    fn handle_append_entries_response(
        &mut self,
        response: crate::consensus::AppendEntriesResponse,
    ) -> (r: Vec<NodeAction>)
        ensures
            final(self)@ == old(self)@,
            r@.len() == 0,
    {
        self.ccr_layer.handle_append_entries_response(response);
        Vec::new()
    }
}

} // verus!
