//! Election timing of a Raft node: a randomised election timeout, measured
//! from the last heartbeat on the caller's monotonic clock (milliseconds).
use vstd::prelude::*;
use rand::Rng;

verus! {

/// Draws an election timeout uniformly from 150 to 299 milliseconds with
/// `rand::thread_rng().gen_range(150..300)`; only the range is stated.
#[verifier::external_body]
fn random_election_timeout_ms() -> (r: u64)
    ensures
        150 <= r < 300,
{
    rand::thread_rng().gen_range(150..300)
}

pub struct RaftConsensus {
    last_heartbeat_ms: u64,
    election_timeout_ms: u64,
}

impl RaftConsensus {
    pub closed spec fn last_heartbeat(&self) -> u64 {
        self.last_heartbeat_ms
    }

    pub closed spec fn election_timeout(&self) -> u64 {
        self.election_timeout_ms
    }

    /// Whether more than the election timeout has passed since the last
    /// heartbeat (no time has passed when `now_ms` is before it).
    pub open spec fn timed_out(&self, now_ms: u64) -> bool {
        let elapsed = if now_ms >= self.last_heartbeat() {
            now_ms - self.last_heartbeat()
        } else {
            0
        };
        elapsed > self.election_timeout()
    }

    /// Timing that starts now, with a random election timeout between 150
    /// and 299 milliseconds.
    pub fn new(now_ms: u64) -> (r: Self)
        ensures
            r.last_heartbeat() == now_ms,
            150 <= r.election_timeout() < 300,
    {
        RaftConsensus {
            last_heartbeat_ms: now_ms,
            election_timeout_ms: random_election_timeout_ms(),
        }
    }

    fn elapsed_ms(&self, now_ms: u64) -> (r: u64)
        ensures
            r == (if now_ms >= self.last_heartbeat() {
                now_ms - self.last_heartbeat()
            } else {
                0
            }),
    {
        if now_ms >= self.last_heartbeat_ms {
            now_ms - self.last_heartbeat_ms
        } else {
            0
        }
    }

    /// Whether the node should stand for election.
    pub fn should_become_candidate(&self, now_ms: u64) -> (r: bool)
        ensures
            r == self.timed_out(now_ms),
    {
        self.elapsed_ms(now_ms) > self.election_timeout_ms
    }

    /// Whether the election timeout has passed.
    pub fn election_timeout_elapsed(&self, now_ms: u64) -> (r: bool)
        ensures
            r == self.timed_out(now_ms),
    {
        self.elapsed_ms(now_ms) > self.election_timeout_ms
    }
}

} // verus!
