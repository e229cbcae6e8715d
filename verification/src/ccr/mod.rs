//! Cross-layer redundancy consensus: a Raft-style node state (term, vote, log
//! and commit index) and its handling of votes and log replication.
use vstd::prelude::*;
use vstd::string::StringExecFns;
use crate::consensus::{
    AppendEntries, AppendEntriesResponse, ConsensusState, LogEntry, RequestVote, VoteResponse,
};

pub mod log;
pub mod raft;

verus! {

pub struct CCRLayer {
    state: ConsensusState,
    current_term: u64,
    voted_for: Option<String>,
    log: Vec<LogEntry>,
    commit_index: u64,
    last_applied: u64,
}

/// The abstract state of a node.
pub struct CcrState {
    pub state: ConsensusState,
    pub current_term: u64,
    pub voted_for: Option<Seq<char>>,
    pub log: Seq<LogEntry>,
    pub commit_index: u64,
    pub last_applied: u64,
}

impl View for CCRLayer {
    type V = CcrState;

    closed spec fn view(&self) -> CcrState {
        CcrState {
            state: self.state,
            current_term: self.current_term,
            voted_for: match self.voted_for {
                Some(c) => Some(c@),
                None => None,
            },
            log: self.log@,
            commit_index: self.commit_index,
            last_applied: self.last_applied,
        }
    }
}

/// The term of the last log entry, 0 for an empty log.
pub open spec fn last_log_term(log: Seq<LogEntry>) -> u64 {
    if log.len() == 0 {
        0
    } else {
        log.last().term
    }
}

/// A follower in term 0 that has not voted, with an empty log.
pub open spec fn initial_state() -> CcrState {
    CcrState {
        state: ConsensusState::Follower,
        current_term: 0,
        voted_for: None,
        log: Seq::empty(),
        commit_index: 0,
        last_applied: 0,
    }
}

/// The name a node gives itself in the messages it sends.
pub open spec fn self_id() -> Seq<char> {
    "self_id"@
}

impl CcrState {
    /// The term after seeing a message of term `term`.
    pub open spec fn term_after(self, term: u64) -> u64 {
        if term > self.current_term {
            term
        } else {
            self.current_term
        }
    }

    /// The vote after seeing a message of term `term`: a later term clears it.
    pub open spec fn vote_after(self, term: u64) -> Option<Seq<char>> {
        if term > self.current_term {
            None
        } else {
            self.voted_for
        }
    }

    /// The candidate's log is at least as up to date as this node's: a later
    /// last term, or the same last term and at least as many entries.
    pub open spec fn candidate_up_to_date(self, last_index: u64, last_term: u64) -> bool {
        last_term > last_log_term(self.log) || (last_term == last_log_term(self.log) && last_index
            >= self.log.len())
    }
}

/// Whether a vote request of the node's term or later is granted: the vote
/// (after adopting a later term) is free or already this candidate's, and the
/// candidate's log is at least as up to date.
pub open spec fn grants_vote(pre: CcrState, req: RequestVote) -> bool {
    let vote = pre.vote_after(req.term);
    &&& req.term >= pre.current_term
    &&& (vote is None || vote == Some(req.candidate_id@))
    &&& pre.candidate_up_to_date(req.last_log_index, req.last_log_term)
}

/// The node's state after a vote request.
pub open spec fn after_vote(pre: CcrState, req: RequestVote) -> CcrState {
    if req.term < pre.current_term {
        pre
    } else {
        CcrState {
            current_term: req.term,
            voted_for: if grants_vote(pre, req) {
                Some(req.candidate_id@)
            } else {
                pre.vote_after(req.term)
            },
            ..pre
        }
    }
}

/// The answer to a vote request: the node's term afterwards and whether the
/// vote was granted, addressed to the candidate.
pub open spec fn vote_answer(pre: CcrState, req: RequestVote) -> VoteResponse {
    VoteResponse {
        term: after_vote(pre, req).current_term,
        vote_granted: grants_vote(pre, req),
        candidate_id: req.candidate_id,
    }
}

/// The outcome of a vote request.
pub open spec fn vote_step(pre: CcrState, req: RequestVote, post: CcrState, resp: VoteResponse) -> bool {
    post == after_vote(pre, req) && resp == vote_answer(pre, req)
}

/// Whether an append request fits this node's log: its previous index is at
/// most the last position and is 0 or names an entry of the previous term.
pub open spec fn append_matches(pre: CcrState, req: AppendEntries) -> bool {
    &&& req.prev_log_index <= pre.log.len() - 1
    &&& (req.prev_log_index == 0 || pre.log[req.prev_log_index - 1].term == req.prev_log_term)
}

/// Whether an append request is accepted.
pub open spec fn accepts_append(pre: CcrState, req: AppendEntries) -> bool {
    req.term >= pre.current_term && append_matches(pre, req)
}

/// The node's state after an append request.
pub open spec fn after_append(pre: CcrState, req: AppendEntries) -> CcrState {
    if req.term < pre.current_term {
        pre
    } else {
        let after_term = CcrState {
            current_term: req.term,
            voted_for: pre.vote_after(req.term),
            ..pre
        };
        if append_matches(pre, req) {
            let new_log = pre.log.take(req.prev_log_index as int) + req.entries@;
            CcrState {
                log: new_log,
                commit_index: if req.leader_commit > pre.commit_index {
                    if req.leader_commit < new_log.len() {
                        req.leader_commit
                    } else {
                        new_log.len() as u64
                    }
                } else {
                    pre.commit_index
                },
                ..after_term
            }
        } else {
            after_term
        }
    }
}

/// The answer to an append request: the node's term afterwards, whether the
/// entries were taken and the position they end at, addressed to the leader.
pub open spec fn append_answer(pre: CcrState, req: AppendEntries) -> AppendEntriesResponse {
    AppendEntriesResponse {
        term: after_append(pre, req).current_term,
        success: accepts_append(pre, req),
        leader_id: req.leader_id,
        match_index: if accepts_append(pre, req) {
            (req.prev_log_index + req.entries@.len()) as u64
        } else {
            0
        },
    }
}

/// The outcome of an append request.
pub open spec fn append_step(
    pre: CcrState,
    req: AppendEntries,
    post: CcrState,
    resp: AppendEntriesResponse,
) -> bool {
    post == after_append(pre, req) && resp == append_answer(pre, req)
}

impl CCRLayer {
    /// A follower in term 0 that has not voted, with an empty log.
    pub fn new() -> (r: Self)
        ensures
            r@ == initial_state(),
    {
        CCRLayer {
            state: ConsensusState::Follower,
            current_term: 0,
            voted_for: None,
            log: Vec::new(),
            commit_index: 0,
            last_applied: 0,
        }
    }

    /// The node's current term.
    pub fn current_term(&self) -> (r: u64)
        ensures
            r == self@.current_term,
    {
        self.current_term
    }

    /// The number of entries in the node's log.
    pub fn log_len(&self) -> (r: usize)
        ensures
            r == self@.log.len(),
    {
        self.log.len()
    }

    /// The node stands for election at every timeout check.
    pub fn should_become_candidate(&self) -> (r: bool)
        ensures
            r,
    {
        true
    }

    /// The election timeout counts as elapsed at every check.
    pub fn election_timeout_elapsed(&self) -> (r: bool)
        ensures
            r,
    {
        true
    }

    /// Moves to the next term.
    pub fn increment_term(&mut self)
        requires
            old(self)@.current_term < u64::MAX,
        ensures
            final(self)@ == (CcrState {
                current_term: (old(self)@.current_term + 1) as u64,
                ..old(self)@
            }),
    {
        self.current_term = self.current_term + 1;
    }

    /// A vote request for this node's current term, naming its log's length
    /// and last term.
    pub fn create_vote_request(&self) -> (r: RequestVote)
        ensures
            r.term == self@.current_term,
            r.candidate_id@ == self_id(),
            r.last_log_index == self@.log.len(),
            r.last_log_term == last_log_term(self@.log),
    {
        let last_log_term = if self.log.len() == 0 {
            0
        } else {
            self.log[self.log.len() - 1].term
        };
        RequestVote {
            term: self.current_term,
            candidate_id: String::from_str("self_id"),
            last_log_index: self.log.len() as u64,
            last_log_term,
        }
    }

    /// An empty append request that names the last entry of the log.
    pub fn create_heartbeat(&self) -> (r: AppendEntries)
        requires
            self@.log.len() > 0,
        ensures
            r.term == self@.current_term,
            r.leader_id@ == self_id(),
            r.prev_log_index == self@.log.len() - 1,
            r.prev_log_term == self@.log.last().term,
            r.entries@.len() == 0,
            r.leader_commit == self@.commit_index,
    {
        let prev_log_index = self.log.len() as u64 - 1;
        let prev_log_term = self.log[self.log.len() - 1].term;
        AppendEntries {
            term: self.current_term,
            leader_id: String::from_str("self_id"),
            prev_log_index,
            prev_log_term,
            entries: Vec::new(),
            leader_commit: self.commit_index,
        }
    }

    /// Answers a vote request: a request of an earlier term is refused; a
    /// later term is adopted and clears the vote; the vote is granted when it
    /// is free or already given to this candidate and the candidate's log is
    /// at least as up to date.
    pub fn handle_vote_request(&mut self, request: RequestVote) -> (r: VoteResponse)
        ensures
            vote_step(old(self)@, request, final(self)@, r),
    {
        let vote_granted = if request.term < self.current_term {
            false
        } else {
            if request.term > self.current_term {
                self.current_term = request.term;
                self.voted_for = None;
            }
            let free = match &self.voted_for {
                None => true,
                Some(v) => *v == request.candidate_id,
            };
            if free {
                let last_log_index = self.log.len() as u64;
                let last_log_term = if self.log.len() == 0 {
                    0
                } else {
                    self.log[self.log.len() - 1].term
                };
                if request.last_log_term > last_log_term || (request.last_log_term == last_log_term
                    && request.last_log_index >= last_log_index) {
                    self.voted_for = Some(request.candidate_id.clone());
                    true
                } else {
                    false
                }
            } else {
                false
            }
        };
        VoteResponse {
            term: self.current_term,
            vote_granted,
            candidate_id: request.candidate_id,
        }
    }

    /// Vote responses carry nothing this node keeps.
    pub fn handle_vote_response(&mut self, response: VoteResponse)
        ensures
            final(self)@ == old(self)@,
    {
    }

    /// No tally of votes is kept, so there is never a majority.
    pub fn has_majority_votes(&self) -> (r: bool)
        ensures
            !r,
    {
        false
    }

    /// Answers an append request: a request of an earlier term is refused; a
    /// later term is adopted and clears the vote; when the request fits the
    /// log, the log is cut after the previous index and the entries are
    /// appended, and the commit index moves up to the leader's (at most the
    /// log's length).
    pub fn handle_append_entries(&mut self, request: AppendEntries) -> (r: AppendEntriesResponse)
        requires
            request.term >= old(self)@.current_term ==> old(self)@.log.len() > 0,
        ensures
            append_step(old(self)@, request, final(self)@, r),
    {
        let ghost req = request;
        let mut request = request;
        let entry_count = request.entries.len();
        let success = if request.term < self.current_term {
            false
        } else {
            if request.term > self.current_term {
                self.current_term = request.term;
                self.voted_for = None;
            }
            if request.prev_log_index > self.log.len() as u64 - 1 {
                false
            } else if request.prev_log_index == 0 || self.log[(request.prev_log_index - 1) as usize].term
                == request.prev_log_term {
                self.log.truncate(request.prev_log_index as usize);
                self.log.append(&mut request.entries);
                let length = self.log.len() as u64;
                assert(length == request.prev_log_index + entry_count);
                if request.leader_commit > self.commit_index {
                    self.commit_index = if request.leader_commit < length {
                        request.leader_commit
                    } else {
                        length
                    };
                }
                true
            } else {
                false
            }
        };
        let match_index = if success {
            request.prev_log_index + entry_count as u64
        } else {
            0
        };
        AppendEntriesResponse {
            term: self.current_term,
            success,
            leader_id: request.leader_id,
            match_index,
        }
    }

    /// Append responses carry nothing this node keeps.
    pub fn handle_append_entries_response(&mut self, response: AppendEntriesResponse)
        ensures
            final(self)@ == old(self)@,
    {
    }
}

/// A node votes for at most one candidate per term: once it granted a vote
/// in a term, a request from another candidate in that term is refused.
pub proof fn lemma_one_vote_per_term(pre: CcrState, first: RequestVote, second: RequestVote)
    requires
        grants_vote(pre, first),
        second.term == first.term,
        second.candidate_id@ != first.candidate_id@,
    ensures
        !grants_vote(after_vote(pre, first), second),
{
}

/// The term never decreases: neither a vote request nor an append request
/// moves a node to an earlier term, and each answer carries the node's term.
pub proof fn lemma_term_monotone(pre: CcrState, vote: RequestVote, append: AppendEntries)
    ensures
        after_vote(pre, vote).current_term >= pre.current_term,
        after_append(pre, append).current_term >= pre.current_term,
        vote_answer(pre, vote).term == after_vote(pre, vote).current_term,
        append_answer(pre, append).term == after_append(pre, append).current_term,
{
}

/// A request of an earlier term changes nothing and is refused.
pub proof fn lemma_stale_requests_refused(pre: CcrState, vote: RequestVote, append: AppendEntries)
    requires
        vote.term < pre.current_term,
        append.term < pre.current_term,
    ensures
        after_vote(pre, vote) == pre,
        !vote_answer(pre, vote).vote_granted,
        after_append(pre, append) == pre,
        !append_answer(pre, append).success,
{
}

/// An accepted append keeps the log up to the previous index and puts the
/// leader's entries after it; the answer's match index is the new length.
pub proof fn lemma_append_log_matching(pre: CcrState, req: AppendEntries)
    requires
        accepts_append(pre, req),
        req.prev_log_index + req.entries@.len() <= u64::MAX,
    ensures
        after_append(pre, req).log.take(req.prev_log_index as int) == pre.log.take(
            req.prev_log_index as int,
        ),
        after_append(pre, req).log.skip(req.prev_log_index as int) == req.entries@,
        append_answer(pre, req).match_index == after_append(pre, req).log.len(),
{
    let log = after_append(pre, req).log;
    assert(log.take(req.prev_log_index as int) =~= pre.log.take(req.prev_log_index as int));
    assert(log.skip(req.prev_log_index as int) =~= req.entries@);
}

/// A call that changes a node's replication state.
pub enum CcrCall {
    /// `handle_vote_request`
    Vote(RequestVote),
    /// `handle_append_entries`
    Append(AppendEntries),
    /// `increment_term`, which needs a term below `u64::MAX`
    IncrementTerm,
    /// `handle_vote_response`
    VoteResponse(VoteResponse),
    /// `handle_append_entries_response`
    AppendResponse(AppendEntriesResponse),
}

/// The state after one call, as the call's `ensures` gives it (an
/// `increment_term` at the largest term cannot be made and changes nothing).
pub open spec fn apply_call(s: CcrState, call: CcrCall) -> CcrState {
    match call {
        CcrCall::Vote(req) => after_vote(s, req),
        CcrCall::Append(req) => after_append(s, req),
        CcrCall::IncrementTerm => if s.current_term < u64::MAX {
            CcrState { current_term: (s.current_term + 1) as u64, ..s }
        } else {
            s
        },
        _ => s,
    }
}

/// The state after a sequence of calls.
pub open spec fn run_calls(s: CcrState, calls: Seq<CcrCall>) -> CcrState
    decreases calls.len(),
{
    if calls.len() == 0 {
        s
    } else {
        apply_call(run_calls(s, calls.drop_last()), calls.last())
    }
}

/// After a vote granted in term `term` to `candidate`, the node's term never
/// drops below `term`, and while it is `term` the vote stays with `candidate`.
proof fn lemma_vote_kept(s: CcrState, calls: Seq<CcrCall>, i: int, k: int)
    requires
        0 <= i < k <= calls.len(),
        calls[i] is Vote,
        grants_vote(run_calls(s, calls.take(i)), calls[i]->Vote_0),
    ensures
        ({
            let req = calls[i]->Vote_0;
            let t = run_calls(s, calls.take(k));
            &&& t.current_term >= req.term
            &&& t.current_term == req.term ==> t.voted_for == Some(req.candidate_id@)
        }),
    decreases k,
{
    assert(calls.take(k).drop_last() =~= calls.take(k - 1));
    assert(calls.take(k).last() == calls[k - 1]);
    if k > i + 1 {
        lemma_vote_kept(s, calls, i, k - 1);
    }
}

/// A node grants its vote to at most one candidate per term, over any
/// sequence of calls: of two granted vote requests of the same term, at
/// whatever positions of the sequence, both name the same candidate.
pub proof fn lemma_one_vote_per_term_in_any_run(s: CcrState, calls: Seq<CcrCall>, i: int, j: int)
    requires
        0 <= i < j < calls.len(),
        calls[i] is Vote,
        calls[j] is Vote,
        calls[i]->Vote_0.term == calls[j]->Vote_0.term,
        vote_answer(run_calls(s, calls.take(i)), calls[i]->Vote_0).vote_granted,
        vote_answer(run_calls(s, calls.take(j)), calls[j]->Vote_0).vote_granted,
    ensures
        calls[i]->Vote_0.candidate_id@ == calls[j]->Vote_0.candidate_id@,
{
    lemma_vote_kept(s, calls, i, j);
}

/// Vote granting: a vote request is granted exactly when it is of the
/// node's term or later, the node's vote for that term is free or already
/// the candidate's (a later term frees it), and the candidate's log is at
/// least as up to date: its last term is later than the term of the node's
/// last entry (0 for an empty log), or the same with a last index at least
/// the node's log length. A granted vote is recorded for the candidate in
/// the request's term; the answer carries the node's term afterwards and
/// names the candidate.
pub proof fn lemma_vote_granting(pre: CcrState, req: RequestVote, post: CcrState, resp: VoteResponse)
    requires
        vote_step(pre, req, post, resp),
    ensures
        ({
            let own_last = if pre.log.len() == 0 {
                0
            } else {
                pre.log.last().term
            };
            let free = req.term > pre.current_term || pre.voted_for is None || pre.voted_for == Some(
                req.candidate_id@,
            );
            resp.vote_granted <==> (req.term >= pre.current_term && free && (req.last_log_term
                > own_last || (req.last_log_term == own_last && req.last_log_index >= pre.log.len())))
        }),
        resp.vote_granted ==> post.voted_for == Some(req.candidate_id@) && post.current_term
            == req.term,
        resp.term == post.current_term,
        resp.candidate_id == req.candidate_id,
{
}

} // verus!
