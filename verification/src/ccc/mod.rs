//! Cross-layer communication consensus: a PBFT replica plus the table of
//! communication links between layers, from which broadcasts are addressed.
use vstd::prelude::*;
use crate::HybridConsensusError;
use self::pbft::{ConsensusError, PBFTConsensus, PBFTMessage, PbftAction, PbftState, Request};

pub mod pbft;

verus! {

/// Identifier of a node (and of a client) in the network.
pub type NodeId = String;

#[derive(Debug)]
pub enum CCCMessage {
    PBFT(PBFTMessage),
    LayerCommunication(LayerCommunicationMessage),
}

#[derive(Debug)]
pub struct LayerCommunicationMessage {
    pub from: NodeId,
    pub to: NodeId,
    pub content: Vec<u8>,
}

#[derive(Debug)]
pub enum CCCError {
    ConsensusError(ConsensusError),
    NetworkError,
    LayerCommunicationError(String),
}

impl CCCError {
    /// Converts the error into the library-wide error type: consensus errors
    /// keep their text, network errors become a fixed network message and
    /// layer errors keep theirs.
    pub fn into_hybrid(self) -> (r: HybridConsensusError)
        ensures
            match self {
                CCCError::ConsensusError(e) => r matches HybridConsensusError::ConsensusError(m)
                    && m@ == e.text(),
                CCCError::NetworkError => r matches HybridConsensusError::NetworkError(m) && m@
                    == "CCC Network Error"@,
                CCCError::LayerCommunicationError(e) => r == HybridConsensusError::CCCError(e),
            },
    {
        match self {
            CCCError::ConsensusError(e) => HybridConsensusError::ConsensusError(e.message()),
            CCCError::NetworkError => HybridConsensusError::NetworkError(
                String::from_str("CCC Network Error"),
            ),
            CCCError::LayerCommunicationError(e) => HybridConsensusError::CCCError(e),
        }
    }
}

/// A message to send to each of a list of nodes.
#[derive(Debug)]
pub struct Outbound {
    pub targets: Vec<NodeId>,
    pub message: CCCMessage,
}

/// What the layer does after handling a message.
#[derive(Debug)]
pub enum CccAction {
    /// An action of the PBFT replica.
    Pbft(PbftAction),
    /// A message between layers, to be handed to the layer it is for.
    LayerCommunication(LayerCommunicationMessage),
}

/// A directed link between two nodes and its cost (the bit pattern of the
/// floating-point cost, which this layer stores and never interprets).
#[derive(Debug)]
pub struct Link {
    pub from: NodeId,
    pub to: NodeId,
    pub cost_bits: u64,
}

/// A link as characters and cost bits.
pub struct LinkView {
    pub from: Seq<char>,
    pub to: Seq<char>,
    pub cost_bits: u64,
}

impl View for Link {
    type V = LinkView;

    open spec fn view(&self) -> LinkView {
        LinkView { from: self.from@, to: self.to@, cost_bits: self.cost_bits }
    }
}

pub struct CCCLayer {
    node_id: NodeId,
    pbft: PBFTConsensus,
    communication_costs: Vec<Link>,
}

/// The abstract state of the layer.
pub struct CccState {
    pub node_id: Seq<char>,
    pub pbft: PbftState,
    pub links: Seq<LinkView>,
}

impl View for CCCLayer {
    type V = CccState;

    closed spec fn view(&self) -> CccState {
        CccState {
            node_id: self.node_id@,
            pbft: self.pbft@,
            links: self.communication_costs@.map_values(|l: Link| l@),
        }
    }
}

/// The position of the link from `from` to `to`, or the table's length when
/// there is none.
pub open spec fn link_index(links: Seq<LinkView>, from: Seq<char>, to: Seq<char>) -> int {
    if exists|i: int| 0 <= i < links.len() && links[i].from == from && links[i].to == to {
        choose|i: int| 0 <= i < links.len() && links[i].from == from && links[i].to == to
    } else {
        links.len() as int
    }
}

/// The destinations of the links that start at `node`, in table order.
pub open spec fn targets_from(links: Seq<LinkView>, node: Seq<char>) -> Seq<Seq<char>>
    decreases links.len(),
{
    if links.len() == 0 {
        Seq::empty()
    } else {
        let rest = targets_from(links.drop_last(), node);
        if links.last().from == node {
            rest.push(links.last().to)
        } else {
            rest
        }
    }
}

impl CccState {
    /// At most one link per ordered pair of nodes, and a well-formed replica.
    pub open spec fn well_formed(self) -> bool {
        &&& self.pbft.well_formed()
        &&& distinct_links(self.links)
    }
}

/// No two links join the same ordered pair of nodes.
pub open spec fn distinct_links(links: Seq<LinkView>) -> bool {
    forall|i: int, j: int|
        0 <= i < j < links.len() ==> !(#[trigger] links[i].from == #[trigger] links[j].from
            && links[i].to == links[j].to)
}

impl CCCLayer {
    /// A layer for `node_id` whose replica tolerates `f` faults, with no
    /// links yet; `now_ms` is the current time on the caller's clock.
    pub fn new(node_id: NodeId, f: usize, now_ms: u64) -> (r: Self)
        ensures
            r@.well_formed(),
            r@.node_id == node_id@,
            r@.pbft.node_id == node_id@,
            r@.pbft.view == 0,
            r@.pbft.f == f,
            r@.links.len() == 0,
    {
        let pbft = PBFTConsensus::new(node_id.clone(), f, now_ms);
        let r = CCCLayer { node_id, pbft, communication_costs: Vec::new() };
        assert(r@.links =~= Seq::<LinkView>::empty());
        r
    }

    /// The PBFT replica of this layer.
    pub fn pbft(&self) -> (r: &PBFTConsensus)
        ensures
            r@ == self@.pbft,
    {
        &self.pbft
    }

    /// Hands a PBFT message to the replica; a message between layers is
    /// passed on to the caller.
    pub fn handle_message(&mut self, message: CCCMessage, now_ms: u64) -> (r: Result<
        Vec<CccAction>,
        CCCError,
    >)
        requires
            old(self)@.well_formed(),
            message matches CCCMessage::PBFT(m) && m is Request ==> old(self)@.pbft.quorum_fits(),
            message matches CCCMessage::PBFT(PBFTMessage::Prepare(p)) && old(self)@.pbft.counts_prepare(p)
                ==> old(self)@.pbft.double_fits(),
            message matches CCCMessage::PBFT(m) && m is Request && old(self)@.pbft.is_primary()
                ==> old(self)@.pbft.sequence < u64::MAX,
        ensures
            final(self)@.well_formed(),
            final(self)@.node_id == old(self)@.node_id,
            final(self)@.links == old(self)@.links,
            layer_message_step(old(self)@, message, now_ms, final(self)@, r),
    {
        match message {
            CCCMessage::PBFT(pbft_msg) => {
                let ghost m = pbft_msg;
                let outcome = self.pbft.handle_message(pbft_msg, now_ms);
                let ghost inner = outcome;
                assert(self@.links == old(self)@.links);
                assert(pbft::message_step(old(self)@.pbft, m, now_ms, self@.pbft, inner));
                let r = match outcome {
                    Ok(actions) => {
                        let wrapped = wrap_actions(actions);
                        Ok(wrapped)
                    },
                    Err(e) => Err(CCCError::ConsensusError(e)),
                };
                assert(match inner {
                    Ok(actions) => r matches Ok(wrapped) && wraps(actions@, wrapped@),
                    Err(e) => r == Err::<Vec<CccAction>, CCCError>(CCCError::ConsensusError(e)),
                });
                r
            },
            CCCMessage::LayerCommunication(layer_msg) => {
                let ghost lm = layer_msg;
                let actions = self.handle_layer_communication(layer_msg);
                Ok(actions)
            },
        }
    }

    /// A message between layers is handed to the caller unchanged.
    fn handle_layer_communication(&mut self, message: LayerCommunicationMessage) -> (r: Vec<
        CccAction,
    >)
        ensures
            *final(self) == *old(self),
            r@ == seq![CccAction::LayerCommunication(message)],
    {
        let ghost m = message;
        let r = vec![CccAction::LayerCommunication(message)];
        assert(r@ =~= seq![CccAction::LayerCommunication(m)]);
        r
    }

    /// Takes a checkpoint of the replicated state `state` (see
    /// `PBFTConsensus::create_checkpoint`).
    pub fn create_checkpoint(&mut self, state: &[u8], now_ms: u64) -> (r: Vec<CccAction>)
        requires
            old(self)@.well_formed(),
        ensures
            final(self)@.well_formed(),
            final(self)@.node_id == old(self)@.node_id,
            final(self)@.links == old(self)@.links,
            exists|actions: Seq<PbftAction>|
                {
                    &&& pbft::checkpoint_step(old(self)@.pbft, state@, now_ms, final(self)@.pbft, actions)
                    &&& wraps(actions, r@)
                },
    {
        let actions = self.pbft.create_checkpoint(state, now_ms);
        let ghost a = actions@;
        let r = wrap_actions(actions);
        assert(wraps(a, r@));
        assert(self@.links == old(self)@.links);
        r
    }

    /// Records the cost of the link from `from` to `to`, replacing an earlier
    /// one.
    pub fn update_communication_cost(&mut self, from: NodeId, to: NodeId, cost_bits: u64)
        requires
            old(self)@.well_formed(),
        ensures
            final(self)@.well_formed(),
            final(self)@.node_id == old(self)@.node_id,
            final(self)@.pbft == old(self)@.pbft,
            links_updated(old(self)@.links, LinkView { from: from@, to: to@, cost_bits }, final(self)@.links),
    {
        let ghost pre = self@;
        let ghost entry = LinkView { from: from@, to: to@, cost_bits };
        let found = self.find_link(&from, &to);
        let link = Link { from, to, cost_bits };
        proof {
            assert(link@ == entry);
        }
        match found {
            Some(k) => {
                self.communication_costs.set(k, link);
            },
            None => {
                self.communication_costs.push(link);
            },
        }
        proof {
            let post = self@.links;
            let idx = link_index(pre.links, entry.from, entry.to);
            assert(post.len() == (if idx < pre.links.len() { pre.links.len() as int } else { pre.links.len() + 1int }));
            assert(post[idx] == entry);
            assert forall|j: int| 0 <= j < pre.links.len() && j != idx implies #[trigger] post[j] == pre.links[j] by {
            }
            assert(self@.well_formed()) by {
                assert forall|a: int, b: int|
                    0 <= a < b < post.len() implies !(#[trigger] post[a].from == #[trigger] post[b].from
                    && post[a].to == post[b].to) by {
                    if a != idx && b != idx {
                    } else if a == idx {
                        if b < pre.links.len() {
                            assert(!(pre.links[a].from == pre.links[b].from && pre.links[a].to == pre.links[b].to));
                        }
                    } else {
                        if idx < pre.links.len() {
                            assert(!(pre.links[a].from == pre.links[b].from && pre.links[a].to == pre.links[b].to));
                        } else {
                            assert(!(pre.links[a].from == from@ && pre.links[a].to == to@));
                        }
                    }
                }
            }
        }
    }

    /// The position of the link from `from` to `to`.
    fn find_link(&self, from: &NodeId, to: &NodeId) -> (r: Option<usize>)
        requires
            self@.well_formed(),
        ensures
            match r {
                Some(i) => i < self@.links.len() && link_index(self@.links, from@, to@) == i,
                None => link_index(self@.links, from@, to@) == self@.links.len(),
            },
    {
        let ghost links = self@.links;
        let mut i: usize = 0;
        while i < self.communication_costs.len()
            invariant
                i <= self.communication_costs@.len(),
                links == self@.links,
                self@.well_formed(),
                forall|j: int| 0 <= j < i ==> !(#[trigger] links[j].from == from@ && links[j].to == to@),
            decreases self.communication_costs@.len() - i,
        {
            assert(links[i as int] == self.communication_costs@[i as int]@);
            if self.communication_costs[i].from == *from && self.communication_costs[i].to == *to {
                proof {
                    lemma_link_index_found(links, from@, to@, i as int);
                }
                return Some(i);
            }
            i = i + 1;
        }
        proof {
            lemma_link_index_absent(links, from@, to@);
        }
        None
    }

    /// The path a message takes from one node to another: the direct link.
    pub fn get_optimal_path(&self, from: NodeId, to: NodeId) -> (r: Vec<NodeId>)
        ensures
            r@ == seq![from, to],
    {
        let ghost (a, b) = (from, to);
        let r = vec![from, to];
        assert(r@ =~= seq![a, b]);
        r
    }

    /// Addresses `message` to the destination of every link that starts at
    /// this node.
    pub fn broadcast(&self, message: CCCMessage) -> (r: Outbound)
        requires
            self@.well_formed(),
        ensures
            r.targets@.map_values(|t: NodeId| t@) == targets_from(self@.links, self@.node_id),
            r.message == message,
    {
        let mut targets: Vec<NodeId> = Vec::new();
        let mut i: usize = 0;
        let ghost links = self@.links;
        while i < self.communication_costs.len()
            invariant
                i <= self.communication_costs@.len(),
                links == self@.links,
                targets@.map_values(|t: NodeId| t@) == targets_from(links.take(i as int), self@.node_id),
            decreases self.communication_costs@.len() - i,
        {
            assert(links.take(i + 1).drop_last() =~= links.take(i as int));
            assert(links[i as int] == self.communication_costs@[i as int]@);
            if self.communication_costs[i].from == self.node_id {
                let ghost before = targets@;
                targets.push(self.communication_costs[i].to.clone());
                assert(targets@.map_values(|t: NodeId| t@) =~= before.map_values(|t: NodeId| t@).push(
                    links[i as int].to,
                ));
            }
            i = i + 1;
        }
        assert(links.take(i as int) =~= links);
        Outbound { targets, message }
    }

    /// Proposes an operation: a request from this node with the given
    /// timestamp, addressed to every linked node.
    pub fn propose(&self, request: Vec<u8>, timestamp: u64) -> (r: Outbound)
        requires
            self@.well_formed(),
        ensures
            r.targets@.map_values(|t: NodeId| t@) == targets_from(self@.links, self@.node_id),
            r.message matches CCCMessage::PBFT(PBFTMessage::Request(req)) && req@ == (
            pbft::RequestView { timestamp, client_id: self@.node_id, operation: request@ }),
    {
        let pbft_message = PBFTMessage::Request(
            Request { timestamp, client_id: self.node_id.clone(), operation: request },
        );
        self.broadcast(CCCMessage::PBFT(pbft_message))
    }
}

/// `wrapped` is `actions`, each as a layer action.
pub open spec fn wraps(actions: Seq<PbftAction>, wrapped: Seq<CccAction>) -> bool {
    &&& wrapped.len() == actions.len()
    &&& forall|i: int| 0 <= i < actions.len() ==> #[trigger] wrapped[i] == CccAction::Pbft(actions[i])
}

/// The outcome of a message handed to the layer.
pub open spec fn layer_message_step(
    pre: CccState,
    message: CCCMessage,
    now_ms: u64,
    post: CccState,
    r: Result<Vec<CccAction>, CCCError>,
) -> bool {
    match message {
        CCCMessage::PBFT(m) => exists|inner: Result<Vec<PbftAction>, ConsensusError>|
            {
                &&& pbft::message_step(pre.pbft, m, now_ms, post.pbft, inner)
                &&& match inner {
                    Ok(actions) => r matches Ok(wrapped) && wraps(actions@, wrapped@),
                    Err(e) => r == Err::<Vec<CccAction>, CCCError>(CCCError::ConsensusError(e)),
                }
            },
        CCCMessage::LayerCommunication(lm) => post == pre && (r matches Ok(actions) && actions@
            == seq![CccAction::LayerCommunication(lm)]),
    }
}

/// The links after recording `entry`: it replaces the link between the same
/// nodes, or is added at the end.
pub open spec fn links_updated(pre: Seq<LinkView>, entry: LinkView, post: Seq<LinkView>) -> bool {
    let i = link_index(pre, entry.from, entry.to);
    &&& post.len() == (if i < pre.len() {
        pre.len() as int
    } else {
        pre.len() + 1int
    })
    &&& post[i] == entry
    &&& forall|j: int| 0 <= j < pre.len() && j != i ==> #[trigger] post[j] == pre[j]
}

proof fn lemma_link_index_found(links: Seq<LinkView>, from: Seq<char>, to: Seq<char>, i: int)
    requires
        0 <= i < links.len(),
        links[i].from == from && links[i].to == to,
        forall|a: int, b: int|
            0 <= a < b < links.len() ==> !(#[trigger] links[a].from == #[trigger] links[b].from
                && links[a].to == links[b].to),
    ensures
        link_index(links, from, to) == i,
{
    let j = choose|j: int| 0 <= j < links.len() && links[j].from == from && links[j].to == to;
    if j < i {
        assert(!(links[j].from == links[i].from && links[j].to == links[i].to));
    } else if j > i {
        assert(!(links[i].from == links[j].from && links[i].to == links[j].to));
    }
}

proof fn lemma_link_index_absent(links: Seq<LinkView>, from: Seq<char>, to: Seq<char>)
    requires
        forall|j: int| 0 <= j < links.len() ==> !(#[trigger] links[j].from == from && links[j].to == to),
    ensures
        link_index(links, from, to) == links.len(),
{
}

/// Wraps each replica action as a layer action.
fn wrap_actions(actions: Vec<PbftAction>) -> (r: Vec<CccAction>)
    ensures
        wraps(actions@, r@),
{
    let ghost original = actions@;
    let mut rest = actions;
    let mut reversed: Vec<CccAction> = Vec::new();
    while rest.len() > 0
        invariant
            rest@.len() + reversed@.len() == original.len(),
            rest@ == original.take(rest@.len() as int),
            forall|i: int| 0 <= i < reversed@.len() ==> #[trigger] reversed@[i] == CccAction::Pbft(
                original[original.len() - 1 - i],
            ),
        decreases rest@.len(),
    {
        let a = rest.pop().unwrap();
        reversed.push(CccAction::Pbft(a));
        assert(rest@ =~= original.take(rest@.len() as int));
    }
    let mut r: Vec<CccAction> = Vec::new();
    while reversed.len() > 0
        invariant
            r@.len() + reversed@.len() == original.len(),
            forall|i: int| 0 <= i < reversed@.len() ==> #[trigger] reversed@[i] == CccAction::Pbft(
                original[original.len() - 1 - i],
            ),
            forall|i: int| 0 <= i < r@.len() ==> #[trigger] r@[i] == CccAction::Pbft(original[i]),
        decreases reversed@.len(),
    {
        let a = reversed.pop().unwrap();
        r.push(a);
    }
    r
}

} // verus!
