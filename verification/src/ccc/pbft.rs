//! Practical Byzantine Fault Tolerance: message types and the replica's
//! state machine. Each handler takes the replica's state and one event and
//! returns the actions (broadcasts, replies, state application) that the
//! caller performs on the network and on storage.
use vstd::prelude::*;
use std::collections::HashMap;
use sha2::{Sha256, Digest as Sha256Digest};
use vstd::std_specs::iter::IteratorSpec;
use vstd::utf8::encode_utf8;
use crate::codec::{decimal, encode_request_json, lemma_parse_decimal, request_json, parse_u64, parse_u64_spec};
use crate::HybridConsensusError;
use vstd::string::StringExecFns;

pub use super::NodeId;

verus! {

broadcast use vstd::std_specs::hash::group_hash_axioms;

pub type SequenceNumber = u64;

pub type Digest = [u8; 32];

// ---------------------------------------------------------------------------
// Messages
// ---------------------------------------------------------------------------

#[derive(Debug)]
pub enum PBFTMessage {
    Request(Request),
    PrePrepare(PrePrepare),
    Prepare(Prepare),
    Commit(Commit),
    Reply(Reply),
    ViewChange(ViewChange),
    NewView(NewView),
    Checkpoint(Checkpoint),
}

#[derive(Debug)]
pub struct Request {
    pub timestamp: u64,
    pub client_id: NodeId,
    pub operation: Vec<u8>,
}

/// The content of a request, with the identifier as characters and the
/// operation as bytes.
pub struct RequestView {
    pub timestamp: u64,
    pub client_id: Seq<char>,
    pub operation: Seq<u8>,
}

impl View for Request {
    type V = RequestView;

    open spec fn view(&self) -> RequestView {
        RequestView {
            timestamp: self.timestamp,
            client_id: self.client_id@,
            operation: self.operation@,
        }
    }
}

impl Clone for Request {
    fn clone(&self) -> (r: Self)
        ensures
            r@ == self@,
    {
        let operation = self.operation.clone();
        assert(operation@ =~= self.operation@);
        Request { timestamp: self.timestamp, client_id: self.client_id.clone(), operation }
    }
}

#[derive(Debug)]
pub struct PrePrepare {
    pub view: u64,
    pub sequence: SequenceNumber,
    pub digest: Digest,
    pub request: Request,
}

pub struct PrePrepareView {
    pub view: u64,
    pub sequence: SequenceNumber,
    pub digest: Seq<u8>,
    pub request: RequestView,
}

impl View for PrePrepare {
    type V = PrePrepareView;

    open spec fn view(&self) -> PrePrepareView {
        PrePrepareView {
            view: self.view,
            sequence: self.sequence,
            digest: self.digest@,
            request: self.request@,
        }
    }
}

impl Clone for PrePrepare {
    fn clone(&self) -> (r: Self)
        ensures
            r@ == self@,
    {
        PrePrepare {
            view: self.view,
            sequence: self.sequence,
            digest: self.digest,
            request: self.request.clone(),
        }
    }
}

#[derive(Debug)]
pub struct Prepare {
    pub view: u64,
    pub sequence: SequenceNumber,
    pub digest: Digest,
    pub node_id: NodeId,
}

pub struct VoteView {
    pub view: u64,
    pub sequence: SequenceNumber,
    pub digest: Seq<u8>,
    pub node_id: Seq<char>,
}

impl View for Prepare {
    type V = VoteView;

    open spec fn view(&self) -> VoteView {
        VoteView {
            view: self.view,
            sequence: self.sequence,
            digest: self.digest@,
            node_id: self.node_id@,
        }
    }
}

impl Clone for Prepare {
    fn clone(&self) -> (r: Self)
        ensures
            r@ == self@,
    {
        Prepare {
            view: self.view,
            sequence: self.sequence,
            digest: self.digest,
            node_id: self.node_id.clone(),
        }
    }
}

#[derive(Debug)]
pub struct Commit {
    pub view: u64,
    pub sequence: SequenceNumber,
    pub digest: Digest,
    pub node_id: NodeId,
}

#[derive(Debug)]
pub struct Reply {
    pub view: u64,
    pub timestamp: u64,
    pub client_id: NodeId,
    pub node_id: NodeId,
    pub result: Vec<u8>,
}

pub struct ReplyView {
    pub view: u64,
    pub timestamp: u64,
    pub client_id: Seq<char>,
    pub node_id: Seq<char>,
    pub result: Seq<u8>,
}

impl View for Reply {
    type V = ReplyView;

    open spec fn view(&self) -> ReplyView {
        ReplyView {
            view: self.view,
            timestamp: self.timestamp,
            client_id: self.client_id@,
            node_id: self.node_id@,
            result: self.result@,
        }
    }
}

impl Clone for Reply {
    fn clone(&self) -> (r: Self)
        ensures
            r@ == self@,
    {
        let result = self.result.clone();
        assert(result@ =~= self.result@);
        Reply {
            view: self.view,
            timestamp: self.timestamp,
            client_id: self.client_id.clone(),
            node_id: self.node_id.clone(),
            result,
        }
    }
}

#[derive(Debug)]
pub struct ViewChange {
    pub new_view: u64,
    pub last_sequence: SequenceNumber,
    pub node_id: NodeId,
    pub checkpoints: Vec<Checkpoint>,
    pub prepared_proofs: Vec<PreparedProof>,
}

#[derive(Debug)]
pub struct NewView {
    pub new_view: u64,
    pub view_change_proofs: Vec<ViewChange>,
    pub new_sequence: SequenceNumber,
}

#[derive(Debug, Clone, Copy)]
pub struct Checkpoint {
    pub sequence: SequenceNumber,
    pub digest: Digest,
}

#[derive(Debug)]
pub struct PreparedProof {
    pub pre_prepare: PrePrepare,
    pub prepares: Vec<Prepare>,
}

pub struct PreparedProofView {
    pub pre_prepare: PrePrepareView,
    pub prepares: Seq<VoteView>,
}

impl View for PreparedProof {
    type V = PreparedProofView;

    open spec fn view(&self) -> PreparedProofView {
        PreparedProofView {
            pre_prepare: self.pre_prepare@,
            prepares: self.prepares@.map_values(|p: Prepare| p@),
        }
    }
}

impl Clone for PreparedProof {
    fn clone(&self) -> (r: Self)
        ensures
            r@ == self@,
    {
        let prepares = self.prepares.clone();
        assert(prepares@.map_values(|p: Prepare| p@) =~= self.prepares@.map_values(|p: Prepare| p@))
            by {
            assert forall|i: int| 0 <= i < prepares@.len() implies #[trigger] prepares@[i]@
                == self.prepares@[i]@ by {
                assert(cloned::<Prepare>(self.prepares[i], prepares[i]));
            }
        }
        PreparedProof { pre_prepare: self.pre_prepare.clone(), prepares }
    }
}

// ---------------------------------------------------------------------------
// Errors
// ---------------------------------------------------------------------------

#[derive(Debug)]
pub enum ConsensusError {
    InvalidMessage,
    InvalidDigest,
    InvalidViewChange,
    InvalidNewView,
    NetworkError(String),
    StorageError(String),
}

impl ConsensusError {
    /// The human-readable text of the error.
    pub open spec fn text(&self) -> Seq<char> {
        match self {
            ConsensusError::InvalidMessage => "Invalid message"@,
            ConsensusError::InvalidDigest => "Invalid digest"@,
            ConsensusError::InvalidViewChange => "Invalid view change"@,
            ConsensusError::InvalidNewView => "Invalid new view"@,
            ConsensusError::NetworkError(e) => "Network error: "@ + e@,
            ConsensusError::StorageError(e) => "Storage error: "@ + e@,
        }
    }

    /// Renders the error as text.
    pub fn message(&self) -> (r: String)
        ensures
            r@ == self.text(),
    {
        match self {
            ConsensusError::InvalidMessage => String::from_str("Invalid message"),
            ConsensusError::InvalidDigest => String::from_str("Invalid digest"),
            ConsensusError::InvalidViewChange => String::from_str("Invalid view change"),
            ConsensusError::InvalidNewView => String::from_str("Invalid new view"),
            ConsensusError::NetworkError(e) => String::from_str("Network error: ").concat(e.as_str()),
            ConsensusError::StorageError(e) => String::from_str("Storage error: ").concat(e.as_str()),
        }
    }

    /// Converts the error into the library-wide error type.
    pub fn into_hybrid(self) -> (r: HybridConsensusError)
        ensures
            r matches HybridConsensusError::ConsensusError(m) && m@ == self.text(),
    {
        HybridConsensusError::ConsensusError(self.message())
    }
}

// ---------------------------------------------------------------------------
// Digests
// ---------------------------------------------------------------------------

/// The SHA-256 digest of a byte sequence.
pub uninterp spec fn sha256_spec(data: Seq<u8>) -> Seq<u8>;

/// Computes SHA-256 with the `sha2` crate; the result is named `sha256_spec`
/// of the input (32 bytes, as the type says).
#[verifier::external_body]
fn sha256(data: &[u8]) -> (r: Digest)
    ensures
        r@ == sha256_spec(data@),
{
    Sha256::digest(data).into()
}

/// The digest of a request: SHA-256 of its compact JSON encoding.
pub open spec fn request_digest(r: RequestView) -> Seq<u8> {
    sha256_spec(request_json(r.timestamp, encode_utf8(r.client_id), r.operation))
}

/// Compares two digests byte by byte.
pub fn digests_equal(a: &Digest, b: &Digest) -> (r: bool)
    ensures
        r == (a@ == b@),
{
    let mut i: usize = 0;
    while i < 32
        invariant
            i <= 32,
            a@.len() == 32,
            b@.len() == 32,
            forall|j: int| 0 <= j < i ==> a@[j] == b@[j],
        decreases 32 - i,
    {
        if a[i] != b[i] {
            return false;
        }
        i = i + 1;
    }
    assert(a@ =~= b@);
    true
}

// ---------------------------------------------------------------------------
// Replica state
// ---------------------------------------------------------------------------

/// What the replica does after handling an event.
#[derive(Debug)]
pub enum PbftAction {
    /// Send the message to every peer.
    Broadcast(PBFTMessage),
    /// Apply a committed operation to the replicated state.
    ApplyOperation(Vec<u8>),
    /// Send a reply to the client that issued a request.
    SendToClient(Reply),
    /// Take a checkpoint of the replicated state (see `create_checkpoint`).
    CreateCheckpoint,
}

pub struct PBFTConsensus {
    node_id: NodeId,
    view: u64,
    sequence: SequenceNumber,
    log: HashMap<SequenceNumber, PBFTMessage>,
    prepared: HashMap<SequenceNumber, PreparedProof>,
    committed: HashMap<SequenceNumber, Digest>,
    checkpoints: Vec<Checkpoint>,
    view_change_timeout_ms: u64,
    last_checkpoint_time_ms: u64,
    checkpoint_interval_ms: u64,
    f: usize,
    client_table: Vec<Reply>,
}

/// The abstract state of a replica.
pub struct PbftState {
    pub node_id: Seq<char>,
    pub view: u64,
    pub sequence: SequenceNumber,
    pub log: Map<SequenceNumber, PBFTMessage>,
    pub prepared: Map<SequenceNumber, PreparedProof>,
    pub committed: Map<SequenceNumber, Digest>,
    pub checkpoints: Seq<Checkpoint>,
    pub view_change_timeout_ms: u64,
    pub last_checkpoint_time_ms: u64,
    pub checkpoint_interval_ms: u64,
    pub f: usize,
    pub client_table: Seq<Reply>,
}

impl View for PBFTConsensus {
    type V = PbftState;

    closed spec fn view(&self) -> PbftState {
        PbftState {
            node_id: self.node_id@,
            view: self.view,
            sequence: self.sequence,
            log: self.log@,
            prepared: self.prepared@,
            committed: self.committed@,
            checkpoints: self.checkpoints@,
            view_change_timeout_ms: self.view_change_timeout_ms,
            last_checkpoint_time_ms: self.last_checkpoint_time_ms,
            checkpoint_interval_ms: self.checkpoint_interval_ms,
            f: self.f,
            client_table: self.client_table@,
        }
    }
}

/// The sequence number of the latest checkpoint, 0 when there is none.
pub open spec fn last_stable(checkpoints: Seq<Checkpoint>) -> SequenceNumber {
    if checkpoints.len() == 0 {
        0
    } else {
        checkpoints.last().sequence
    }
}

/// The entries of `m` whose key is above `bound`.
pub open spec fn entries_above<V>(m: Map<u64, V>, bound: u64) -> Map<u64, V> {
    Map::new(|k: u64| m.contains_key(k) && k > bound, |k: u64| m[k])
}

/// The number a node identifier stands for, 0 when it is not a number.
pub open spec fn node_number(node_id: Seq<char>) -> u64 {
    match parse_u64_spec(encode_utf8(node_id)) {
        Some(n) => n,
        None => 0,
    }
}

impl PbftState {
    /// The fault bound leaves room for the quorum arithmetic `2f + 1`.
    pub open spec fn quorum_fits(self) -> bool {
        self.f <= (usize::MAX - 1) / 2
    }

    /// The fault bound leaves room for `2f`, the count of prepares a proof
    /// needs.
    pub open spec fn double_fits(self) -> bool {
        2 * self.f <= usize::MAX
    }

    /// A prepare of the current view above the last checkpoint for a logged
    /// pre-prepare with the same digest: it joins a proof, whose prepares are
    /// then counted against `2f`.
    pub open spec fn counts_prepare(self, p: Prepare) -> bool {
        &&& self.accepts(p.view, p.sequence)
        &&& self.log.contains_key(p.sequence)
        &&& self.log[p.sequence]->PrePrepare_0.digest@ == p.digest@
    }

    /// Whether this replica is the primary of its current view.
    pub open spec fn is_primary(self) -> bool {
        self.view % ((2 * self.f + 1) as u64) == node_number(self.node_id)
    }

    pub open spec fn last_stable_checkpoint(self) -> SequenceNumber {
        last_stable(self.checkpoints)
    }

    /// A message of the current view above the last stable checkpoint.
    pub open spec fn accepts(self, view: u64, sequence: SequenceNumber) -> bool {
        view == self.view && sequence > self.last_stable_checkpoint()
    }

    /// Each logged pre-prepare sits at its own sequence number and carries
    /// the digest of its request.
    pub open spec fn log_ok(self) -> bool {
        forall|s: SequenceNumber| #[trigger]
            self.log.contains_key(s) ==> logged_pre_prepare_ok(self.log[s], s)
    }

    /// Each prepared proof has a logged pre-prepare, carries a pre-prepare
    /// with the digest of its request, and holds prepares of its own
    /// sequence number only.
    pub open spec fn prepared_ok(self) -> bool {
        forall|s: SequenceNumber| #[trigger]
            self.prepared.contains_key(s) ==> self.log.contains_key(s) && proof_ok(
                self.prepared[s],
                s,
            )
    }

    /// Each committed digest has a prepared proof with that very digest.
    pub open spec fn committed_ok(self) -> bool {
        forall|s: SequenceNumber| #[trigger]
            self.committed.contains_key(s) ==> self.prepared.contains_key(s)
                && self.committed[s]@ == self.prepared[s].pre_prepare.digest@
    }

    /// The client table holds at most one reply per client.
    pub open spec fn client_table_ok(self) -> bool {
        forall|i: int, j: int|
            0 <= i < j < self.client_table.len() ==> #[trigger] self.client_table[i].client_id@
                != #[trigger] self.client_table[j].client_id@
    }

    /// What every handler keeps.
    pub open spec fn well_formed(self) -> bool {
        &&& self.log_ok()
        &&& self.prepared_ok()
        &&& self.committed_ok()
        &&& self.client_table_ok()
    }
}

/// A logged message at `s` is a pre-prepare for `s` carrying the digest of
/// its request.
pub open spec fn logged_pre_prepare_ok(m: PBFTMessage, s: SequenceNumber) -> bool {
    &&& m is PrePrepare
    &&& m->PrePrepare_0.sequence == s
    &&& m->PrePrepare_0.digest@ == request_digest(m->PrePrepare_0.request@)
}

/// A proof for `s`: its pre-prepare is for `s` and carries the digest of its
/// request, and every prepare in it is for `s`.
pub open spec fn proof_ok(proof: PreparedProof, s: SequenceNumber) -> bool {
    &&& proof.pre_prepare.sequence == s
    &&& proof.pre_prepare.digest@ == request_digest(proof.pre_prepare.request@)
    &&& forall|i: int| 0 <= i < proof.prepares@.len() ==> #[trigger] proof.prepares@[i].sequence == s

}

impl PBFTConsensus {
    /// A replica in view 0 with an empty log, tolerating `f` faulty replicas;
    /// `now_ms` is the current time on the caller's monotonic clock.
    pub fn new(node_id: NodeId, f: usize, now_ms: u64) -> (r: Self)
        ensures
            r@ == (PbftState {
                node_id: node_id@,
                view: 0,
                sequence: 0,
                log: Map::empty(),
                prepared: Map::empty(),
                committed: Map::empty(),
                checkpoints: Seq::empty(),
                view_change_timeout_ms: 5000,
                last_checkpoint_time_ms: now_ms,
                checkpoint_interval_ms: 100000,
                f,
                client_table: Seq::empty(),
            }),
            r@.well_formed(),
    {
        PBFTConsensus {
            node_id,
            view: 0,
            sequence: 0,
            log: HashMap::new(),
            prepared: HashMap::new(),
            committed: HashMap::new(),
            checkpoints: Vec::new(),
            view_change_timeout_ms: 5000,
            last_checkpoint_time_ms: now_ms,
            checkpoint_interval_ms: 100000,
            f,
            client_table: Vec::new(),
        }
    }

    /// The replica's current view.
    pub fn current_view(&self) -> (r: u64)
        ensures
            r == self@.view,
    {
        self.view
    }

    /// The next sequence number the replica assigns as primary.
    pub fn next_sequence(&self) -> (r: SequenceNumber)
        ensures
            r == self@.sequence,
    {
        self.sequence
    }

    /// How long the replica waits for progress before it starts a view change.
    pub fn view_change_timeout_ms(&self) -> (r: u64)
        ensures
            r == self@.view_change_timeout_ms,
    {
        self.view_change_timeout_ms
    }

    /// Whether this replica is the primary of its current view: the view
    /// number modulo `2f + 1` equals the node identifier read as a number
    /// (0 when it is not one).
    pub fn is_primary(&self) -> (r: bool)
        requires
            self@.quorum_fits(),
        ensures
            r == self@.is_primary(),
    {
        let n: u64 = (self.f * 2 + 1) as u64;
        let id: u64 = match parse_u64(self.node_id.as_str()) {
            Some(v) => v,
            None => 0,
        };
        self.view % n == id
    }

    /// Whether the proof for `sequence` holds at least `2f` prepares.
    pub fn is_prepared(&self, sequence: SequenceNumber) -> (r: bool)
        requires
            self@.prepared.contains_key(sequence) ==> self@.double_fits(),
        ensures
            r == (self@.prepared.contains_key(sequence)
                && self@.prepared[sequence].prepares@.len() >= 2 * self@.f),
    {
        match self.prepared.get(&sequence) {
            Some(proof) => proof.prepares.len() >= 2 * self.f,
            None => false,
        }
    }

    /// Whether a prepare would join a proof (see `PbftState::counts_prepare`),
    /// so that handling it counts prepares against `2f`.
    pub fn counts_prepare(&self, p: &Prepare) -> (r: bool)
        requires
            self@.well_formed(),
        ensures
            r == self@.counts_prepare(*p),
    {
        if p.view != self.view || p.sequence <= self.last_stable_checkpoint() {
            return false;
        }
        match self.log.get(&p.sequence) {
            Some(PBFTMessage::PrePrepare(pp)) => digests_equal(&pp.digest, &p.digest),
            _ => {
                proof {
                    if self@.log.contains_key(p.sequence) {
                        assert(logged_pre_prepare_ok(self@.log[p.sequence], p.sequence));
                    }
                }
                false
            },
        }
    }

    /// Whether a digest has been committed for `sequence`.
    pub fn is_committed(&self, sequence: SequenceNumber) -> (r: bool)
        ensures
            r == self@.committed.contains_key(sequence),
    {
        self.committed.get(&sequence).is_some()
    }

    /// The sequence number of the latest checkpoint, 0 when there is none.
    pub fn last_stable_checkpoint(&self) -> (r: SequenceNumber)
        ensures
            r == self@.last_stable_checkpoint(),
    {
        if self.checkpoints.len() == 0 {
            0
        } else {
            self.checkpoints[self.checkpoints.len() - 1].sequence
        }
    }

    /// The digest of a request: SHA-256 of its compact JSON encoding.
    pub fn compute_digest(&self, request: &Request) -> (r: Digest)
        ensures
            r@ == request_digest(request@),
    {
        let json = encode_request_json(
            request.timestamp,
            request.client_id.as_str(),
            request.operation.as_slice(),
        );
        sha256(json.as_slice())
    }

    /// The digest of the replicated state: SHA-256 of its bytes.
    pub fn compute_state_digest(&self, state: &[u8]) -> (r: Digest)
        ensures
            r@ == sha256_spec(state@),
    {
        sha256(state)
    }

    /// Dispatches a protocol message to its handler; `now_ms` is the current
    /// time on the caller's monotonic clock. Replies are for clients and
    /// change nothing here. No message moves the replica to an earlier view.
    pub fn handle_message(&mut self, message: PBFTMessage, now_ms: u64) -> (r: Result<
        Vec<PbftAction>,
        ConsensusError,
    >)
        requires
            old(self)@.well_formed(),
            message is Request ==> old(self)@.quorum_fits(),
            message matches PBFTMessage::Prepare(p) && old(self)@.counts_prepare(p) ==> old(
                self,
            )@.double_fits(),
            message is Request && old(self)@.is_primary() ==> old(self)@.sequence < u64::MAX,
        ensures
            final(self)@.well_formed(),
            message_step(old(self)@, message, now_ms, final(self)@, r),
            final(self)@.view >= old(self)@.view,
    {
        match message {
            PBFTMessage::Request(req) => self.handle_request(req),
            PBFTMessage::PrePrepare(pp) => self.handle_pre_prepare(pp),
            PBFTMessage::Prepare(p) => self.handle_prepare(p),
            PBFTMessage::Commit(c) => self.handle_commit(c, now_ms),
            PBFTMessage::Reply(_) => Ok(Vec::new()),
            PBFTMessage::ViewChange(vc) => self.handle_view_change(vc),
            PBFTMessage::NewView(nv) => self.handle_new_view(nv),
            PBFTMessage::Checkpoint(cp) => self.handle_checkpoint(cp),
        }
    }

    /// A client request: the primary assigns it the next sequence number and
    /// broadcasts a pre-prepare carrying its digest; a backup does nothing.
    pub fn handle_request(&mut self, req: Request) -> (r: Result<Vec<PbftAction>, ConsensusError>)
        requires
            old(self)@.well_formed(),
            old(self)@.quorum_fits(),
            old(self)@.is_primary() ==> old(self)@.sequence < u64::MAX,
        ensures
            final(self)@.well_formed(),
            request_step(old(self)@, req, final(self)@, r),
    {
        if self.is_primary() {
            let digest = self.compute_digest(&req);
            let pre_prepare = PrePrepare {
                view: self.view,
                sequence: self.sequence,
                digest,
                request: req,
            };
            self.sequence = self.sequence + 1;
            proof {
                lemma_frame(old(self)@, self@);
            }
            Ok(vec![PbftAction::Broadcast(PBFTMessage::PrePrepare(pre_prepare))])
        } else {
            Ok(Vec::new())
        }
    }

    /// A pre-prepare of the current view above the last checkpoint whose
    /// digest matches its request is logged and answered with a prepare.
    pub fn handle_pre_prepare(&mut self, pp: PrePrepare) -> (r: Result<
        Vec<PbftAction>,
        ConsensusError,
    >)
        requires
            old(self)@.well_formed(),
        ensures
            final(self)@.well_formed(),
            pre_prepare_step(old(self)@, pp, final(self)@, r),
    {
        if pp.view != self.view || pp.sequence <= self.last_stable_checkpoint() {
            return Err(ConsensusError::InvalidMessage);
        }
        let computed_digest = self.compute_digest(&pp.request);
        if !digests_equal(&computed_digest, &pp.digest) {
            return Err(ConsensusError::InvalidDigest);
        }
        let sequence = pp.sequence;
        let digest = pp.digest;
        self.log.insert(sequence, PBFTMessage::PrePrepare(pp));
        let prepare = Prepare {
            view: self.view,
            sequence,
            digest,
            node_id: self.node_id.clone(),
        };
        proof {
            assert(logged_pre_prepare_ok(self@.log[sequence], sequence));
            assert(self@.log_ok()) by {
                assert forall|k: SequenceNumber| #[trigger]
                    self@.log.contains_key(k) implies logged_pre_prepare_ok(self@.log[k], k) by {
                    if k != sequence {
                        assert(old(self)@.log.contains_key(k));
                    }
                }
            }
            assert(self@.prepared =~= old(self)@.prepared);
            assert(self@.committed =~= old(self)@.committed);
            assert(self@.client_table =~= old(self)@.client_table);
        }
        Ok(vec![PbftAction::Broadcast(PBFTMessage::Prepare(prepare))])
    }

    /// A prepare of the current view above the last checkpoint for a logged
    /// pre-prepare with the same digest joins the proof for its sequence
    /// number (which starts with a copy of the pre-prepare); once the proof
    /// holds `2f` prepares the replica broadcasts a commit.
    pub fn handle_prepare(&mut self, p: Prepare) -> (r: Result<Vec<PbftAction>, ConsensusError>)
        requires
            old(self)@.well_formed(),
            old(self)@.counts_prepare(p) ==> old(self)@.double_fits(),
        ensures
            final(self)@.well_formed(),
            prepare_step(old(self)@, p, final(self)@, r),
    {
        if p.view != self.view || p.sequence <= self.last_stable_checkpoint() {
            return Err(ConsensusError::InvalidMessage);
        }
        let sequence = p.sequence;
        let digest = p.digest;
        let ghost pre = self@;
        match self.log.get(&sequence) {
            Some(PBFTMessage::PrePrepare(pp)) => {
                if !digests_equal(&pp.digest, &digest) {
                    return Err(ConsensusError::InvalidDigest);
                }
                let ghost pp_view = pp@;
                match self.prepared.remove(&sequence) {
                    Some(mut proof) => {
                        proof.prepares.push(p);
                        self.prepared.insert(sequence, proof);
                    },
                    None => {
                        let ghost first = p;
                        let prepares = vec![p];
                        assert(prepares@ =~= seq![first]);
                        let proof = PreparedProof { pre_prepare: pp.clone(), prepares };
                        self.prepared.insert(sequence, proof);
                    },
                }
                proof {
                    assert(self@.prepared =~= pre.prepared.insert(sequence, self@.prepared[sequence]));
                    assert(self@.log =~= pre.log);
                    assert(self@.committed =~= pre.committed);
                    assert(self@.client_table =~= pre.client_table);
                    assert(proof_ok(self@.prepared[sequence], sequence)) by {
                        assert(logged_pre_prepare_ok(pre.log[sequence], sequence));
                    }
                    assert(self@.prepared_ok()) by {
                        assert forall|k: SequenceNumber| #[trigger]
                            self@.prepared.contains_key(k) implies self@.log.contains_key(k)
                            && proof_ok(self@.prepared[k], k) by {
                            if k != sequence {
                                assert(pre.prepared.contains_key(k));
                            }
                        }
                    }
                    assert(self@.committed_ok()) by {
                        assert forall|k: SequenceNumber| #[trigger]
                            self@.committed.contains_key(k) implies self@.prepared.contains_key(k)
                            && self@.committed[k]@ == self@.prepared[k].pre_prepare.digest@ by {
                            assert(pre.committed.contains_key(k));
                        }
                    }
                }
                if self.is_prepared(sequence) {
                    let commit = Commit {
                        view: self.view,
                        sequence,
                        digest,
                        node_id: self.node_id.clone(),
                    };
                    Ok(vec![PbftAction::Broadcast(PBFTMessage::Commit(commit))])
                } else {
                    Ok(Vec::new())
                }
            },
            _ => {
                proof {
                    assert(!pre.log.contains_key(sequence)) by {
                        if pre.log.contains_key(sequence) {
                            assert(logged_pre_prepare_ok(pre.log[sequence], sequence));
                        }
                    }
                }
                Ok(Vec::new())
            },
        }
    }

    /// A commit of the current view above the last checkpoint for a prepared
    /// sequence number with the same digest records the digest as committed;
    /// the replica then applies the request's operation, replies to its
    /// client with the operation as the result, and asks for a checkpoint
    /// once the checkpoint interval has passed since the last one.
    pub fn handle_commit(&mut self, c: Commit, now_ms: u64) -> (r: Result<
        Vec<PbftAction>,
        ConsensusError,
    >)
        requires
            old(self)@.well_formed(),
        ensures
            final(self)@.well_formed(),
            commit_step(old(self)@, c, now_ms, final(self)@, r),
    {
        if c.view != self.view || c.sequence <= self.last_stable_checkpoint() {
            return Err(ConsensusError::InvalidMessage);
        }
        let sequence = c.sequence;
        let ghost pre = self@;
        let (operation, reply) = match self.prepared.get(&sequence) {
            Some(proof) => {
                if !digests_equal(&proof.pre_prepare.digest, &c.digest) {
                    return Err(ConsensusError::InvalidDigest);
                }
                let request = &proof.pre_prepare.request;
                let operation = request.operation.clone();
                let result = request.operation.clone();
                let reply = Reply {
                    view: self.view,
                    timestamp: request.timestamp,
                    client_id: request.client_id.clone(),
                    node_id: self.node_id.clone(),
                    result,
                };
                assert(operation@ =~= request.operation@);
                assert(reply.result@ =~= request.operation@);
                (operation, reply)
            },
            None => {
                return Ok(Vec::new());
            },
        };
        self.committed.insert(sequence, c.digest);
        proof {
            assert(self@.log =~= pre.log);
            assert(self@.prepared =~= pre.prepared);
            assert(self@.client_table =~= pre.client_table);
            assert(self@.committed_ok()) by {
                assert forall|k: SequenceNumber| #[trigger]
                    self@.committed.contains_key(k) implies self@.prepared.contains_key(k)
                    && self@.committed[k]@ == self@.prepared[k].pre_prepare.digest@ by {
                    if k != sequence {
                        assert(pre.committed.contains_key(k));
                    }
                }
            }
        }
        let mut actions: Vec<PbftAction> = Vec::new();
        if self.is_committed(sequence) {
            actions.push(PbftAction::ApplyOperation(operation));
            actions.push(PbftAction::SendToClient(reply));
            let elapsed: u64 = if now_ms >= self.last_checkpoint_time_ms {
                now_ms - self.last_checkpoint_time_ms
            } else {
                0
            };
            if elapsed >= self.checkpoint_interval_ms {
                actions.push(PbftAction::CreateCheckpoint);
            }
        }
        Ok(actions)
    }

    /// A view change to a later view moves the replica to that view.
    pub fn handle_view_change(&mut self, vc: ViewChange) -> (r: Result<
        Vec<PbftAction>,
        ConsensusError,
    >)
        requires
            old(self)@.well_formed(),
        ensures
            final(self)@.well_formed(),
            view_change_step(old(self)@, vc, final(self)@, r),
    {
        if vc.new_view <= self.view {
            return Err(ConsensusError::InvalidViewChange);
        }
        self.view = vc.new_view;
        proof {
            lemma_frame(old(self)@, self@);
        }
        Ok(Vec::new())
    }

    /// A new-view message for a later view moves the replica to that view
    /// and to the sequence number it announces.
    pub fn handle_new_view(&mut self, nv: NewView) -> (r: Result<Vec<PbftAction>, ConsensusError>)
        requires
            old(self)@.well_formed(),
        ensures
            final(self)@.well_formed(),
            new_view_step(old(self)@, nv, final(self)@, r),
    {
        if nv.new_view <= self.view {
            return Err(ConsensusError::InvalidNewView);
        }
        self.view = nv.new_view;
        self.sequence = nv.new_sequence;
        proof {
            lemma_frame(old(self)@, self@);
        }
        Ok(Vec::new())
    }

    /// A checkpoint message from a peer changes nothing.
    pub fn handle_checkpoint(&mut self, cp: Checkpoint) -> (r: Result<
        Vec<PbftAction>,
        ConsensusError,
    >)
        ensures
            final(self)@ == old(self)@,
            r matches Ok(actions) && actions@.len() == 0,
    {
        Ok(Vec::new())
    }


    /// Records a checkpoint of the replicated state (whose bytes are
    /// `state`) at the current sequence number, notes the time, drops every
    /// log entry, proof and commit at or below that sequence number, and
    /// broadcasts the checkpoint.
    pub fn create_checkpoint(&mut self, state: &[u8], now_ms: u64) -> (r: Vec<PbftAction>)
        requires
            old(self)@.well_formed(),
        ensures
            final(self)@.well_formed(),
            checkpoint_step(old(self)@, state@, now_ms, final(self)@, r@),
    {
        let checkpoint = Checkpoint {
            sequence: self.sequence,
            digest: self.compute_state_digest(state),
        };
        self.checkpoints.push(checkpoint);
        self.last_checkpoint_time_ms = now_ms;
        let stable = self.last_stable_checkpoint();
        self.garbage_collect(stable);
        vec![PbftAction::Broadcast(PBFTMessage::Checkpoint(checkpoint))]
    }

    /// Drops every log entry, proof and commit at or below `stable_sequence`.
    fn garbage_collect(&mut self, stable_sequence: SequenceNumber)
        requires
            old(self)@.well_formed(),
        ensures
            final(self)@.well_formed(),
            final(self)@ == collected(old(self)@, stable_sequence),
    {
        retain_above(&mut self.log, stable_sequence);
        retain_above(&mut self.prepared, stable_sequence);
        retain_above(&mut self.committed, stable_sequence);
        proof {
            let pre = old(self)@;
            assert(self@.client_table =~= pre.client_table);
            assert(self@.log_ok()) by {
                assert forall|k: SequenceNumber| #[trigger]
                    self@.log.contains_key(k) implies logged_pre_prepare_ok(self@.log[k], k) by {
                    assert(pre.log.contains_key(k));
                }
            }
            assert(self@.prepared_ok()) by {
                assert forall|k: SequenceNumber| #[trigger]
                    self@.prepared.contains_key(k) implies self@.log.contains_key(k) && proof_ok(
                    self@.prepared[k],
                    k,
                ) by {
                    assert(pre.prepared.contains_key(k));
                }
            }
            assert(self@.committed_ok()) by {
                assert forall|k: SequenceNumber| #[trigger]
                    self@.committed.contains_key(k) implies self@.prepared.contains_key(k)
                    && self@.committed[k]@ == self@.prepared[k].pre_prepare.digest@ by {
                    assert(pre.committed.contains_key(k));
                }
            }
        }
    }

    /// Starts a view change: moves to the next view and broadcasts its
    /// checkpoints and a copy of every prepared proof.
    pub fn start_view_change(&mut self) -> (r: Vec<PbftAction>)
        requires
            old(self)@.well_formed(),
            old(self)@.view < u64::MAX,
        ensures
            final(self)@.well_formed(),
            start_view_change_step(old(self)@, final(self)@, r@),
    {
        self.view = self.view + 1;
        let checkpoints = self.checkpoints.clone();
        assert(checkpoints@ =~= self.checkpoints@) by {
            assert forall|i: int| 0 <= i < checkpoints@.len() implies checkpoints@[i]
                == self.checkpoints@[i] by {
                assert(cloned::<Checkpoint>(self.checkpoints[i], checkpoints[i]));
            }
        }
        let prepared_proofs = clone_values(&self.prepared);
        let view_change = ViewChange {
            new_view: self.view,
            last_sequence: self.sequence,
            node_id: self.node_id.clone(),
            checkpoints,
            prepared_proofs,
        };
        proof {
            lemma_frame(old(self)@, self@);
        }
        vec![PbftAction::Broadcast(PBFTMessage::ViewChange(view_change))]
    }

    /// Completes a view change from at least `2f + 1` view-change messages
    /// that all name the same view: the replica moves to that view, continues
    /// after the highest sequence number they report, and broadcasts the new
    /// view with the messages as proof.
    pub fn process_view_change(&mut self, view_changes: Vec<ViewChange>) -> (r: Result<
        Vec<PbftAction>,
        ConsensusError,
    >)
        requires
            old(self)@.well_formed(),
            old(self)@.quorum_fits(),
            view_changes@.len() >= 2 * old(self)@.f + 1 && same_view(view_changes@)
                ==> max_last_sequence(view_changes@) < u64::MAX,
        ensures
            final(self)@.well_formed(),
            process_view_change_step(old(self)@, view_changes, final(self)@, r),
    {
        if view_changes.len() < 2 * self.f + 1 {
            return Err(ConsensusError::InvalidViewChange);
        }
        let new_view = view_changes[0].new_view;
        let mut i: usize = 1;
        let mut max_sequence: u64 = view_changes[0].last_sequence;
        while i < view_changes.len()
            invariant
                1 <= i <= view_changes@.len(),
                self@ == old(self)@,
                old(self)@.well_formed(),
                new_view == view_changes@[0].new_view,
                forall|j: int| 0 <= j < i ==> #[trigger] view_changes@[j].new_view == new_view,
                max_sequence == max_last_sequence(view_changes@.take(i as int)),
            decreases view_changes@.len() - i,
        {
            if view_changes[i].new_view != new_view {
                assert(!same_view(view_changes@));
                return Err(ConsensusError::InvalidViewChange);
            }
            assert(view_changes@.take(i + 1).drop_last() =~= view_changes@.take(i as int));
            if view_changes[i].last_sequence > max_sequence {
                max_sequence = view_changes[i].last_sequence;
            }
            i = i + 1;
        }
        assert(view_changes@.take(i as int) =~= view_changes@);
        assert(same_view(view_changes@));
        self.view = new_view;
        self.sequence = max_sequence + 1;
        proof {
            lemma_frame(old(self)@, self@);
        }
        let new_view_message = NewView {
            new_view,
            view_change_proofs: view_changes,
            new_sequence: self.sequence,
        };
        let ghost sent = PbftAction::Broadcast(PBFTMessage::NewView(new_view_message));
        let actions = vec![PbftAction::Broadcast(PBFTMessage::NewView(new_view_message))];
        assert(actions@ =~= seq![sent]);
        Ok(actions)
    }

    /// The position of the reply to `client_id` in the client table.
    fn find_client(&self, client_id: &NodeId) -> (r: Option<usize>)
        requires
            self@.well_formed(),
        ensures
            match r {
                Some(i) => i < self@.client_table.len() && client_index(self@.client_table, client_id@) == i,
                None => client_index(self@.client_table, client_id@) == self@.client_table.len(),
            },
    {
        let mut i: usize = 0;
        while i < self.client_table.len()
            invariant
                i <= self.client_table@.len(),
                self@.well_formed(),
                forall|j: int| 0 <= j < i ==> #[trigger] self.client_table@[j].client_id@
                    != client_id@,
            decreases self.client_table@.len() - i,
        {
            if self.client_table[i].client_id == *client_id {
                proof {
                    lemma_client_index_found(self@.client_table, client_id@, i as int);
                }
                return Some(i);
            }
            i = i + 1;
        }
        proof {
            assert(!(exists|j: int| 0 <= j < self@.client_table.len() && self@.client_table[j].client_id@ == client_id@)) by {
                if exists|j: int| 0 <= j < self@.client_table.len() && self@.client_table[j].client_id@ == client_id@ {
                    let j = choose|j: int| 0 <= j < self@.client_table.len() && self@.client_table[j].client_id@ == client_id@;
                    assert(self.client_table@[j].client_id@ != client_id@);
                }
            }
        }
        None
    }

    /// Remembers `reply` as the last reply to its client, replacing an
    /// earlier one.
    fn update_client_table(&mut self, reply: &Reply)
        requires
            old(self)@.well_formed(),
        ensures
            final(self)@.well_formed(),
            final(self)@ == old(self)@.with_client_table(final(self)@.client_table),
            client_table_updated(old(self)@.client_table, reply@, final(self)@.client_table),
    {
        let ghost pre = self@;
        let copy = reply.clone();
        match self.find_client(&reply.client_id) {
            Some(i) => {
                self.client_table.set(i, copy);
            },
            None => {
                self.client_table.push(copy);
            },
        }
        proof {
            assert(self@.log =~= pre.log);
            assert(self@.prepared =~= pre.prepared);
            assert(self@.committed =~= pre.committed);
            let i = client_index(pre.client_table, reply.client_id@);
            assert(self@.client_table_ok()) by {
                assert forall|a: int, b: int|
                    0 <= a < b < self@.client_table.len() implies #[trigger] self@.client_table[a].client_id@
                    != #[trigger] self@.client_table[b].client_id@ by {
                    if a != i && b != i {
                        assert(pre.client_table[a].client_id@ != pre.client_table[b].client_id@);
                    } else if a == i && i < pre.client_table.len() {
                        assert(pre.client_table[a].client_id@ != pre.client_table[b].client_id@);
                    } else if b == i && i < pre.client_table.len() {
                        assert(pre.client_table[a].client_id@ != pre.client_table[b].client_id@);
                    }
                }
            }
        }
    }

    /// The last reply remembered for a client.
    fn get_client_last_reply(&self, client_id: &NodeId) -> (r: Option<&Reply>)
        requires
            self@.well_formed(),
        ensures
            last_reply_lookup(self@.client_table, client_id@, r),
    {
        match self.find_client(client_id) {
            Some(i) => Some(&self.client_table[i]),
            None => None,
        }
    }
}

/// A step that leaves the log, the proofs, the commits and the client table
/// as they were keeps the replica well formed.
proof fn lemma_frame(pre: PbftState, post: PbftState)
    requires
        pre.well_formed(),
        post.log =~= pre.log,
        post.prepared =~= pre.prepared,
        post.committed =~= pre.committed,
        post.client_table =~= pre.client_table,
    ensures
        post.well_formed(),
{
}

/// The outcome of a client request.
pub open spec fn request_step(
    pre: PbftState,
    req: Request,
    post: PbftState,
    r: Result<Vec<PbftAction>, ConsensusError>,
) -> bool {
    &&& r is Ok
    &&& if pre.is_primary() {
        &&& post == PbftState { sequence: (pre.sequence + 1) as u64, ..pre }
        &&& r->Ok_0@.len() == 1
        &&& r->Ok_0@[0] matches PbftAction::Broadcast(PBFTMessage::PrePrepare(pp)) && {
            &&& pp.view == pre.view
            &&& pp.sequence == pre.sequence
            &&& pp.digest@ == request_digest(req@)
            &&& pp.request == req
        }
    } else {
        post == pre && r->Ok_0@.len() == 0
    }
}

/// The outcome of a pre-prepare.
pub open spec fn pre_prepare_step(
    pre: PbftState,
    pp: PrePrepare,
    post: PbftState,
    r: Result<Vec<PbftAction>, ConsensusError>,
) -> bool {
    if !pre.accepts(pp.view, pp.sequence) {
        post == pre && r matches Err(ConsensusError::InvalidMessage)
    } else if pp.digest@ != request_digest(pp.request@) {
        post == pre && r matches Err(ConsensusError::InvalidDigest)
    } else {
        &&& post == PbftState {
            log: pre.log.insert(pp.sequence, PBFTMessage::PrePrepare(pp)),
            ..pre
        }
        &&& r matches Ok(actions) && actions@.len() == 1
        &&& r->Ok_0@[0] matches PbftAction::Broadcast(PBFTMessage::Prepare(p)) && {
            &&& p.view == pre.view
            &&& p.sequence == pp.sequence
            &&& p.digest == pp.digest
            &&& p.node_id@ == pre.node_id
        }
    }
}

/// The outcome of a prepare.
pub open spec fn prepare_step(
    pre: PbftState,
    p: Prepare,
    post: PbftState,
    r: Result<Vec<PbftAction>, ConsensusError>,
) -> bool {
    let s = p.sequence;
    if !pre.accepts(p.view, s) {
        post == pre && r matches Err(ConsensusError::InvalidMessage)
    } else if !pre.log.contains_key(s) {
        post == pre && (r matches Ok(actions) && actions@.len() == 0)
    } else if pre.log[s]->PrePrepare_0.digest@ != p.digest@ {
        post == pre && r matches Err(ConsensusError::InvalidDigest)
    } else {
        &&& post == PbftState { prepared: post.prepared, ..pre }
        &&& post.prepared == pre.prepared.insert(s, post.prepared[s])
        &&& if pre.prepared.contains_key(s) {
            &&& post.prepared[s].pre_prepare == pre.prepared[s].pre_prepare
            &&& post.prepared[s].prepares@ == pre.prepared[s].prepares@.push(p)
        } else {
            &&& post.prepared[s].pre_prepare@ == pre.log[s]->PrePrepare_0@
            &&& post.prepared[s].prepares@ == seq![p]
        }
        &&& r matches Ok(actions) && if post.prepared[s].prepares@.len() >= 2 * pre.f {
            &&& actions@.len() == 1
            &&& actions@[0] matches PbftAction::Broadcast(PBFTMessage::Commit(c)) && {
                &&& c.view == pre.view
                &&& c.sequence == s
                &&& c.digest == p.digest
                &&& c.node_id@ == pre.node_id
            }
        } else {
            actions@.len() == 0
        }
    }
}

/// Whether the checkpoint interval has passed since the last checkpoint.
pub open spec fn checkpoint_due(pre: PbftState, now_ms: u64) -> bool {
    let elapsed = if now_ms >= pre.last_checkpoint_time_ms {
        now_ms - pre.last_checkpoint_time_ms
    } else {
        0
    };
    elapsed >= pre.checkpoint_interval_ms
}

/// The outcome of a commit.
pub open spec fn commit_step(
    pre: PbftState,
    c: Commit,
    now_ms: u64,
    post: PbftState,
    r: Result<Vec<PbftAction>, ConsensusError>,
) -> bool {
    let s = c.sequence;
    if !pre.accepts(c.view, s) {
        post == pre && r matches Err(ConsensusError::InvalidMessage)
    } else if !pre.prepared.contains_key(s) {
        post == pre && (r matches Ok(actions) && actions@.len() == 0)
    } else if pre.prepared[s].pre_prepare.digest@ != c.digest@ {
        post == pre && r matches Err(ConsensusError::InvalidDigest)
    } else {
        let request = pre.prepared[s].pre_prepare.request@;
        &&& post == PbftState { committed: pre.committed.insert(s, c.digest), ..pre }
        &&& r matches Ok(actions) && {
            &&& actions@.len() == (if checkpoint_due(pre, now_ms) {
                3int
            } else {
                2int
            })
            &&& actions@[0] matches PbftAction::ApplyOperation(op) && op@ == request.operation
            &&& actions@[1] matches PbftAction::SendToClient(reply) && reply@ == ReplyView {
                view: pre.view,
                timestamp: request.timestamp,
                client_id: request.client_id,
                node_id: pre.node_id,
                result: request.operation,
            }
            &&& checkpoint_due(pre, now_ms) ==> actions@[2] is CreateCheckpoint
        }
    }
}

/// The outcome of a view change.
pub open spec fn view_change_step(
    pre: PbftState,
    vc: ViewChange,
    post: PbftState,
    r: Result<Vec<PbftAction>, ConsensusError>,
) -> bool {
    if vc.new_view <= pre.view {
        post == pre && r matches Err(ConsensusError::InvalidViewChange)
    } else {
        post == PbftState { view: vc.new_view, ..pre } && (r matches Ok(actions)
            && actions@.len() == 0)
    }
}

/// The outcome of a new-view message.
pub open spec fn new_view_step(
    pre: PbftState,
    nv: NewView,
    post: PbftState,
    r: Result<Vec<PbftAction>, ConsensusError>,
) -> bool {
    if nv.new_view <= pre.view {
        post == pre && r matches Err(ConsensusError::InvalidNewView)
    } else {
        post == PbftState { view: nv.new_view, sequence: nv.new_sequence, ..pre } && (r matches Ok(
            actions,
        ) && actions@.len() == 0)
    }
}

/// All view-change messages name the view of the first one.
pub open spec fn same_view(vcs: Seq<ViewChange>) -> bool {
    forall|j: int| 0 <= j < vcs.len() ==> #[trigger] vcs[j].new_view == vcs[0].new_view
}

/// The highest sequence number that the view-change messages report.
pub open spec fn max_last_sequence(vcs: Seq<ViewChange>) -> u64
    decreases vcs.len(),
{
    if vcs.len() <= 1 {
        if vcs.len() == 0 {
            0
        } else {
            vcs[0].last_sequence
        }
    } else {
        let m = max_last_sequence(vcs.drop_last());
        if vcs.last().last_sequence > m {
            vcs.last().last_sequence
        } else {
            m
        }
    }
}

/// `proofs` lists a copy of every proof in `prepared`, each once, in some
/// order.
pub open spec fn lists_proofs(proofs: Seq<PreparedProof>, prepared: Map<u64, PreparedProof>) -> bool {
    exists|keys: Seq<u64>|
        {
            &&& keys.no_duplicates()
            &&& keys.to_set() == prepared.dom()
            &&& keys.len() == proofs.len()
            &&& forall|i: int| 0 <= i < keys.len() ==> #[trigger] proofs[i]@ == prepared[keys[i]]@
        }
}

/// The position of the first reply to `client_id` in the table, or the
/// table's length when there is none.
pub open spec fn client_index(table: Seq<Reply>, client_id: Seq<char>) -> int {
    if exists|i: int| 0 <= i < table.len() && table[i].client_id@ == client_id {
        choose|i: int| 0 <= i < table.len() && table[i].client_id@ == client_id
    } else {
        table.len() as int
    }
}

/// In a table with one reply per client, the reply to a client sits at its
/// index.
proof fn lemma_client_index_found(table: Seq<Reply>, client_id: Seq<char>, i: int)
    requires
        0 <= i < table.len(),
        table[i].client_id@ == client_id,
        forall|a: int, b: int|
            0 <= a < b < table.len() ==> #[trigger] table[a].client_id@ != #[trigger] table[b].client_id@,
    ensures
        client_index(table, client_id) == i,
{
    let j = choose|j: int| 0 <= j < table.len() && table[j].client_id@ == client_id;
    if j < i {
        assert(table[j].client_id@ != table[i].client_id@);
    } else if j > i {
        assert(table[i].client_id@ != table[j].client_id@);
    }
}

/// The table after remembering `reply`: it replaces the reply to the same
/// client, or is added at the end.
pub open spec fn client_table_updated(pre: Seq<Reply>, reply: ReplyView, post: Seq<Reply>) -> bool {
    let i = client_index(pre, reply.client_id);
    &&& post.len() == (if i < pre.len() {
        pre.len() as int
    } else {
        pre.len() + 1int
    })
    &&& post[i]@ == reply
    &&& forall|j: int| 0 <= j < pre.len() && j != i ==> #[trigger] post[j] == pre[j]
}

/// The keys of `m` at or below `bound`.
fn keys_upto<V>(m: &HashMap<u64, V>, bound: u64) -> (r: Vec<u64>)
    ensures
        forall|k: u64| r@.contains(k) <==> (m@.contains_key(k) && k <= bound),
{
    let mut r: Vec<u64> = Vec::new();
    let ghost keys = m.keys().remaining().unref();
    for k in it: m.keys()
        invariant
            it.seq().unref() == keys,
            keys.to_set() == m@.dom(),
            forall|x: u64|
                r@.contains(x) <==> (exists|j: int| 0 <= j < it.index() && keys[j] == x && x <= bound),
    {
        let ghost before = r@;
        if *k <= bound {
            r.push(*k);
        }
        proof {
            assert forall|x: u64|
                r@.contains(x) <==> (exists|j: int|
                    0 <= j < it.index() + 1 && keys[j] == x && x <= bound) by {
                if r@.contains(x) {
                    if before.contains(x) {
                        let j = choose|j: int| 0 <= j < it.index() && keys[j] == x && x <= bound;
                        assert(0 <= j < it.index() + 1 && keys[j] == x && x <= bound);
                    } else {
                        assert(keys[it.index() as int] == x);
                    }
                }
                if exists|j: int| 0 <= j < it.index() + 1 && keys[j] == x && x <= bound {
                    let j = choose|j: int| 0 <= j < it.index() + 1 && keys[j] == x && x <= bound;
                    if j < it.index() {
                        assert(before.contains(x));
                        let i = choose|i: int| 0 <= i < before.len() && before[i] == x;
                        assert(r@[i] == x);
                    } else {
                        assert(r@.last() == x);
                    }
                }
            }
        }
    }
    proof {
        assert forall|k: u64| r@.contains(k) <==> (m@.contains_key(k) && k <= bound) by {
            if m@.contains_key(k) && k <= bound {
                assert(keys.to_set().contains(k));
                let j = choose|j: int| 0 <= j < keys.len() && keys[j] == k;
                assert(0 <= j < keys.len() && keys[j] == k && k <= bound);
            }
            if r@.contains(k) {
                assert(keys.to_set().contains(k));
            }
        }
    }
    r
}

/// Keeps only the entries of `m` whose key is above `bound`.
fn retain_above<V>(m: &mut HashMap<u64, V>, bound: u64)
    ensures
        final(m)@ == entries_above(old(m)@, bound),
{
    let doomed = keys_upto(m, bound);
    let mut i: usize = 0;
    while i < doomed.len()
        invariant
            i <= doomed@.len(),
            forall|k: u64| doomed@.contains(k) <==> (old(m)@.contains_key(k) && k <= bound),
            forall|k: u64|
                #[trigger] m@.contains_key(k) <==> (old(m)@.contains_key(k) && !doomed@.take(
                    i as int,
                ).contains(k)),
            forall|k: u64| #[trigger] m@.contains_key(k) ==> m@[k] == old(m)@[k],
        decreases doomed@.len() - i,
    {
        let key = doomed[i];
        let ghost prev = m@;
        m.remove(&key);
        proof {
            let before = doomed@.take(i as int);
            let after = doomed@.take(i + 1);
            assert(after =~= before.push(key));
            assert(m@ == prev.remove(key));
            assert forall|k: u64|
                m@.contains_key(k) <==> (old(m)@.contains_key(k) && !after.contains(k)) by {
                assert(prev.contains_key(k) <==> (old(m)@.contains_key(k) && !before.contains(k)));
                if before.contains(k) {
                    let j = choose|j: int| 0 <= j < before.len() && before[j] == k;
                    assert(after[j] == k);
                }
                if k == key {
                    assert(after[i as int] == k);
                }
                if after.contains(k) {
                    let j = choose|j: int| 0 <= j < after.len() && after[j] == k;
                    if j < i {
                        assert(before[j] == k);
                    }
                }
            }
        }
        i = i + 1;
    }
    proof {
        assert(doomed@.take(i as int) =~= doomed@);
        assert(m@ =~= entries_above(old(m)@, bound));
    }
}

/// Copies of every value of `m`, each once, in the order of the keys.
fn clone_values(m: &HashMap<u64, PreparedProof>) -> (r: Vec<PreparedProof>)
    ensures
        lists_proofs(r@, m@),
{
    let mut keys: Vec<u64> = Vec::new();
    let ghost all = m.keys().remaining().unref();
    for k in it: m.keys()
        invariant
            it.seq().unref() == all,
            all.to_set() == m@.dom(),
            all.no_duplicates(),
            keys@ == all.take(it.index()),
    {
        keys.push(*k);
        proof {
            assert(keys@ =~= all.take(it.index() + 1));
        }
    }
    assert(keys@ =~= all);
    let mut r: Vec<PreparedProof> = Vec::new();
    let mut i: usize = 0;
    while i < keys.len()
        invariant
            keys@ == all,
            all.to_set() == m@.dom(),
            i <= keys@.len(),
            r@.len() == i,
            forall|j: int| 0 <= j < i ==> #[trigger] r@[j]@ == m@[keys@[j]]@,
        decreases keys@.len() - i,
    {
        let key = keys[i];
        proof {
            assert(all.to_set().contains(key));
        }
        match m.get(&key) {
            Some(proof) => {
                r.push(proof.clone());
            },
            None => {
                assert(false);
            },
        }
        i = i + 1;
    }
    proof {
        assert(keys@.len() == r@.len());
    }
    r
}

/// The state after collecting everything at or below `stable`.
pub open spec fn collected(pre: PbftState, stable: SequenceNumber) -> PbftState {
    PbftState {
        log: entries_above(pre.log, stable),
        prepared: entries_above(pre.prepared, stable),
        committed: entries_above(pre.committed, stable),
        ..pre
    }
}

/// The outcome of taking a checkpoint of the replicated state `state`.
pub open spec fn checkpoint_step(
    pre: PbftState,
    state: Seq<u8>,
    now_ms: u64,
    post: PbftState,
    actions: Seq<PbftAction>,
) -> bool {
    &&& actions.len() == 1
    &&& actions[0] matches PbftAction::Broadcast(PBFTMessage::Checkpoint(cp)) && {
        &&& cp.sequence == pre.sequence
        &&& cp.digest@ == sha256_spec(state)
        &&& post == PbftState {
            checkpoints: pre.checkpoints.push(cp),
            last_checkpoint_time_ms: now_ms,
            ..collected(pre, pre.sequence)
        }
    }
}

/// The outcome of starting a view change.
pub open spec fn start_view_change_step(
    pre: PbftState,
    post: PbftState,
    actions: Seq<PbftAction>,
) -> bool {
    &&& post == PbftState { view: (pre.view + 1) as u64, ..pre }
    &&& actions.len() == 1
    &&& actions[0] matches PbftAction::Broadcast(PBFTMessage::ViewChange(vc)) && {
        &&& vc.new_view == pre.view + 1
        &&& vc.last_sequence == pre.sequence
        &&& vc.node_id@ == pre.node_id
        &&& vc.checkpoints@ == pre.checkpoints
        &&& lists_proofs(vc.prepared_proofs@, pre.prepared)
    }
}

/// The outcome of completing a view change.
pub open spec fn process_view_change_step(
    pre: PbftState,
    view_changes: Vec<ViewChange>,
    post: PbftState,
    r: Result<Vec<PbftAction>, ConsensusError>,
) -> bool {
    let vcs = view_changes@;
    if vcs.len() < 2 * pre.f + 1 || !same_view(vcs) {
        post == pre && r matches Err(ConsensusError::InvalidViewChange)
    } else {
        let new_view = vcs[0].new_view;
        let new_sequence = (max_last_sequence(vcs) + 1) as u64;
        &&& post == PbftState { view: new_view, sequence: new_sequence, ..pre }
        &&& r matches Ok(actions) && actions@ == seq![
            PbftAction::Broadcast(
                PBFTMessage::NewView(NewView { new_view, view_change_proofs: view_changes, new_sequence }),
            ),
        ]
    }
}

/// What the lookup of the last reply to `client_id` gives.
pub open spec fn last_reply_lookup(table: Seq<Reply>, client_id: Seq<char>, r: Option<&Reply>) -> bool {
    let i = client_index(table, client_id);
    match r {
        Some(reply) => i < table.len() && *reply == table[i],
        None => i == table.len(),
    }
}

impl PbftState {
    pub open spec fn with_client_table(self, client_table: Seq<Reply>) -> PbftState {
        PbftState { client_table, ..self }
    }
}

/// The outcome of a protocol message.
pub open spec fn message_step(
    pre: PbftState,
    message: PBFTMessage,
    now_ms: u64,
    post: PbftState,
    r: Result<Vec<PbftAction>, ConsensusError>,
) -> bool {
    match message {
        PBFTMessage::Request(req) => request_step(pre, req, post, r),
        PBFTMessage::PrePrepare(pp) => pre_prepare_step(pre, pp, post, r),
        PBFTMessage::Prepare(p) => prepare_step(pre, p, post, r),
        PBFTMessage::Commit(c) => commit_step(pre, c, now_ms, post, r),
        PBFTMessage::ViewChange(vc) => view_change_step(pre, vc, post, r),
        PBFTMessage::NewView(nv) => new_view_step(pre, nv, post, r),
        _ => post == pre && (r matches Ok(actions) && actions@.len() == 0),
    }
}

/// A committed digest is the digest of the request carried by the prepared
/// pre-prepare at the same sequence number: nothing is committed for a
/// request whose digest does not match.
pub proof fn lemma_committed_digest_matches_request(s: PbftState, sequence: SequenceNumber)
    requires
        s.well_formed(),
        s.committed.contains_key(sequence),
    ensures
        s.prepared.contains_key(sequence),
        s.log.contains_key(sequence),
        s.committed[sequence]@ == request_digest(s.prepared[sequence].pre_prepare.request@),
{
    assert(proof_ok(s.prepared[sequence], sequence));
}

/// After a checkpoint, nothing at or below its sequence number is left in the
/// log, among the prepared proofs or among the commits, and everything above
/// it is kept.
pub proof fn lemma_checkpoint_collects(
    pre: PbftState,
    state: Seq<u8>,
    now_ms: u64,
    post: PbftState,
    actions: Seq<PbftAction>,
)
    requires
        checkpoint_step(pre, state, now_ms, post, actions),
    ensures
        post.last_stable_checkpoint() == pre.sequence,
        forall|s: SequenceNumber| #[trigger] post.log.contains_key(s) ==> s > pre.sequence,
        forall|s: SequenceNumber| #[trigger] post.prepared.contains_key(s) ==> s > pre.sequence,
        forall|s: SequenceNumber| #[trigger] post.committed.contains_key(s) ==> s > pre.sequence,
        forall|s: SequenceNumber|
            s > pre.sequence && #[trigger] pre.log.contains_key(s) ==> post.log.contains_key(s)
                && post.log[s] == pre.log[s],
        forall|s: SequenceNumber|
            s > pre.sequence && #[trigger] pre.prepared.contains_key(s) ==> post.prepared.contains_key(s)
                && post.prepared[s] == pre.prepared[s],
        forall|s: SequenceNumber|
            s > pre.sequence && #[trigger] pre.committed.contains_key(s) ==> post.committed.contains_key(s)
                && post.committed[s] == pre.committed[s],
        post.checkpoints.len() == pre.checkpoints.len() + 1,
        post.checkpoints.last().sequence == pre.sequence,
        post.checkpoints.drop_last() == pre.checkpoints,
{
    assert(post.checkpoints.drop_last() =~= pre.checkpoints);
}

/// A message never moves a replica to an earlier view, and a refused
/// message leaves the replica as it was.
pub proof fn lemma_message_keeps_view_order(
    pre: PbftState,
    message: PBFTMessage,
    now_ms: u64,
    post: PbftState,
    r: Result<Vec<PbftAction>, ConsensusError>,
)
    requires
        message_step(pre, message, now_ms, post, r),
    ensures
        post.view >= pre.view,
        r is Err ==> post == pre,
{
}

/// Only the primary assigns sequence numbers: a request reaching a backup
/// changes nothing and sends nothing, and at the primary it takes exactly the
/// next sequence number.
pub proof fn lemma_only_primary_orders(
    pre: PbftState,
    req: Request,
    post: PbftState,
    r: Result<Vec<PbftAction>, ConsensusError>,
)
    requires
        request_step(pre, req, post, r),
        pre.sequence < u64::MAX,
    ensures
        !pre.is_primary() ==> post == pre,
        pre.is_primary() ==> post.sequence == pre.sequence + 1,
{
}

/// A prepare that joins a proof (one of the current view, above the last
/// checkpoint, for a logged pre-prepare with the same digest) adds exactly
/// that prepare to the proof for its sequence number; the replica then
/// broadcasts its commit for that sequence number and digest exactly when
/// the proof holds at least `2f` prepares, and sends nothing otherwise.
pub proof fn lemma_commit_after_two_f_prepares(
    pre: PbftState,
    p: Prepare,
    post: PbftState,
    r: Result<Vec<PbftAction>, ConsensusError>,
)
    requires
        prepare_step(pre, p, post, r),
        p.view == pre.view,
        p.sequence > (if pre.checkpoints.len() == 0 {
            0
        } else {
            pre.checkpoints.last().sequence
        }),
        pre.log.contains_key(p.sequence),
        pre.log[p.sequence]->PrePrepare_0.digest@ == p.digest@,
    ensures
        r is Ok,
        post.prepared.contains_key(p.sequence),
        post.prepared[p.sequence].prepares@.last() == p,
        post.prepared[p.sequence].prepares@.len() == (if pre.prepared.contains_key(p.sequence) {
            pre.prepared[p.sequence].prepares@.len() + 1
        } else {
            1
        }),
        post.prepared[p.sequence].prepares@.len() >= 2 * pre.f ==> {
            &&& r->Ok_0@.len() == 1
            &&& r->Ok_0@[0] matches PbftAction::Broadcast(PBFTMessage::Commit(c)) && c.view == pre.view
                && c.sequence == p.sequence && c.digest == p.digest && c.node_id@ == pre.node_id
        },
        post.prepared[p.sequence].prepares@.len() < 2 * pre.f ==> r->Ok_0@.len() == 0,
{
}

/// The highest `last_sequence` bounds every message's, and some message
/// reports it.
proof fn lemma_max_last_sequence_bounds(vcs: Seq<ViewChange>)
    requires
        vcs.len() > 0,
    ensures
        forall|i: int| 0 <= i < vcs.len() ==> #[trigger] vcs[i].last_sequence <= max_last_sequence(vcs),
        exists|i: int| 0 <= i < vcs.len() && #[trigger] vcs[i].last_sequence == max_last_sequence(vcs),
    decreases vcs.len(),
{
    if vcs.len() > 1 {
        let rest = vcs.drop_last();
        lemma_max_last_sequence_bounds(rest);
        let m = max_last_sequence(rest);
        let j = choose|j: int| 0 <= j < rest.len() && #[trigger] rest[j].last_sequence == m;
        assert(rest[j] == vcs[j]);
        assert forall|i: int| 0 <= i < vcs.len() implies #[trigger] vcs[i].last_sequence
            <= max_last_sequence(vcs) by {
            if i < vcs.len() - 1 {
                assert(rest[i] == vcs[i]);
                assert(rest[i].last_sequence <= m);
            }
        }
        if vcs.last().last_sequence > m {
            assert(vcs[vcs.len() - 1].last_sequence == max_last_sequence(vcs));
        } else {
            assert(vcs[j].last_sequence == max_last_sequence(vcs));
        }
    } else {
        assert(vcs[0].last_sequence == max_last_sequence(vcs));
    }
}

/// Completing a view change from at least `2f + 1` messages for one view
/// moves the replica to that view and to the sequence number one past the
/// highest `last_sequence` they report: every message's `last_sequence` is
/// below the new sequence number, and some message's is exactly one below.
/// The new-view message announces both; nothing else changes.
pub proof fn lemma_view_change_next_sequence(
    pre: PbftState,
    view_changes: Vec<ViewChange>,
    post: PbftState,
    r: Result<Vec<PbftAction>, ConsensusError>,
)
    requires
        process_view_change_step(pre, view_changes, post, r),
        r is Ok,
        forall|i: int|
            0 <= i < view_changes@.len() ==> #[trigger] view_changes@[i].last_sequence < u64::MAX,
    ensures
        view_changes@.len() >= 2 * pre.f + 1,
        forall|i: int| 0 <= i < view_changes@.len() ==> #[trigger] view_changes@[i].new_view == post.view,
        forall|i: int|
            0 <= i < view_changes@.len() ==> #[trigger] view_changes@[i].last_sequence < post.sequence,
        exists|i: int|
            0 <= i < view_changes@.len() && #[trigger] view_changes@[i].last_sequence + 1
                == post.sequence,
        r->Ok_0@.len() == 1,
        r->Ok_0@[0] matches PbftAction::Broadcast(PBFTMessage::NewView(nv)) && nv.new_view == post.view
            && nv.new_sequence == post.sequence && nv.view_change_proofs == view_changes,
        post == (PbftState { view: post.view, sequence: post.sequence, ..pre }),
{
    let vcs = view_changes@;
    lemma_max_last_sequence_bounds(vcs);
    let m = max_last_sequence(vcs);
    let j = choose|j: int| 0 <= j < vcs.len() && #[trigger] vcs[j].last_sequence == m;
    assert(m < u64::MAX);
    assert(vcs[j].last_sequence + 1 == post.sequence);
}

/// Primary selection: a replica whose identifier is the decimal form of `n`
/// is the primary exactly when the view modulo `2f + 1` is `n`, so a replica
/// numbered `2f + 1` or more is never primary.
pub proof fn lemma_primary_by_number(s: PbftState, n: u64)
    requires
        s.quorum_fits(),
        encode_utf8(s.node_id) == decimal(n as nat),
    ensures
        s.is_primary() <==> s.view % ((2 * s.f + 1) as u64) == n,
        n >= 2 * s.f + 1 ==> !s.is_primary(),
{
    lemma_parse_decimal(n);
    assert(node_number(s.node_id) == n);
    let k = (2 * s.f + 1) as u64;
    assert(s.view % k < k) by {
        vstd::arithmetic::div_mod::lemma_mod_pos_bound(s.view as int, k as int);
    }
}

/// At most one replica number is primary in a view: two replicas with the
/// same fault bound that are both primary of the same view carry the same
/// number, and that number is below `2f + 1`.
pub proof fn lemma_one_primary_per_view(a: PbftState, b: PbftState)
    requires
        a.quorum_fits(),
        a.view == b.view,
        a.f == b.f,
        a.is_primary(),
        b.is_primary(),
    ensures
        node_number(a.node_id) == node_number(b.node_id),
        node_number(a.node_id) < 2 * a.f + 1,
{
    let k = (2 * a.f + 1) as u64;
    assert(a.view % k < k) by {
        vstd::arithmetic::div_mod::lemma_mod_pos_bound(a.view as int, k as int);
    }
}

/// A commit of the current view above the last checkpoint for a prepared
/// sequence number with the prepared digest records that digest as
/// committed, applies the prepared request's operation, replies to its
/// client with the operation as the result, and asks for a checkpoint
/// exactly when the checkpoint interval has passed since the last one; a
/// commit whose digest differs is refused and changes nothing.
pub proof fn lemma_commit_applies_and_replies(
    pre: PbftState,
    c: Commit,
    now_ms: u64,
    post: PbftState,
    r: Result<Vec<PbftAction>, ConsensusError>,
)
    requires
        commit_step(pre, c, now_ms, post, r),
        c.view == pre.view,
        c.sequence > (if pre.checkpoints.len() == 0 {
            0
        } else {
            pre.checkpoints.last().sequence
        }),
        pre.prepared.contains_key(c.sequence),
    ensures
        pre.prepared[c.sequence].pre_prepare.digest@ != c.digest@ ==> post == pre && r matches Err(
            ConsensusError::InvalidDigest,
        ),
        pre.prepared[c.sequence].pre_prepare.digest@ == c.digest@ ==> {
            let request = pre.prepared[c.sequence].pre_prepare.request;
            let due = (now_ms >= pre.last_checkpoint_time_ms && now_ms - pre.last_checkpoint_time_ms
                >= pre.checkpoint_interval_ms) || (now_ms < pre.last_checkpoint_time_ms
                && pre.checkpoint_interval_ms == 0);
            &&& post.committed == pre.committed.insert(c.sequence, c.digest)
            &&& post.log == pre.log && post.prepared == pre.prepared
            &&& post.view == pre.view && post.sequence == pre.sequence
            &&& r matches Ok(actions) && {
                &&& actions@.len() == (if due {
                    3int
                } else {
                    2int
                })
                &&& actions@[0] matches PbftAction::ApplyOperation(op) && op@ == request.operation@
                &&& actions@[1] matches PbftAction::SendToClient(reply) && reply.view == pre.view
                    && reply.timestamp == request.timestamp && reply.client_id@ == request.client_id@
                    && reply.node_id@ == pre.node_id && reply.result@ == request.operation@
                &&& due ==> actions@[2] is CreateCheckpoint
            }
        },
{
}

/// A pre-prepare of the current view above the last checkpoint is refused
/// with `InvalidDigest`, changing nothing, when its digest is not the SHA-256
/// of its request's JSON; otherwise it is logged at its sequence number and
/// answered with this replica's prepare for the same view, sequence number
/// and digest.
pub proof fn lemma_pre_prepare_checks_digest(
    pre: PbftState,
    pp: PrePrepare,
    post: PbftState,
    r: Result<Vec<PbftAction>, ConsensusError>,
)
    requires
        pre_prepare_step(pre, pp, post, r),
        pp.view == pre.view,
        pp.sequence > (if pre.checkpoints.len() == 0 {
            0
        } else {
            pre.checkpoints.last().sequence
        }),
    ensures
        pp.digest@ != sha256_spec(
            request_json(pp.request.timestamp, encode_utf8(pp.request.client_id@), pp.request.operation@),
        ) ==> post == pre && r matches Err(ConsensusError::InvalidDigest),
        pp.digest@ == sha256_spec(
            request_json(pp.request.timestamp, encode_utf8(pp.request.client_id@), pp.request.operation@),
        ) ==> {
            &&& post.log.contains_key(pp.sequence) && post.log[pp.sequence] == PBFTMessage::PrePrepare(pp)
            &&& r matches Ok(actions) && {
                &&& actions@.len() == 1
                &&& actions@[0] matches PbftAction::Broadcast(PBFTMessage::Prepare(p)) && p.view
                    == pre.view && p.sequence == pp.sequence && p.digest == pp.digest && p.node_id@
                    == pre.node_id
            }
        },
{
}

} // verus!
