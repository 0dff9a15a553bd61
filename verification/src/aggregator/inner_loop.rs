//! One aggregator: the chains it keeps, the messages it takes in and the
//! views it gives out.

use crate::endpoints::block_history::{history_of, BlockHistoryBlockHeightView};
use crate::endpoints::node_list::{counted_groups, rows_of, NodeListView};
use crate::endpoints::overview::{overview_of, ChainOverviewView};
use crate::endpoints::{BlockHistory, ChainOverview, NodeList};
use crate::node_message::{Payload, PayloadView};
use crate::node_types::{BlockHash, NodeDetails, NodeDetailsView, Timestamp};
use crate::scan::{first_index, lemma_first_index_bounds, lemma_first_index_is};
use crate::state::chain::{identity_of, Chain, ChainView, NodeChange};
use crate::state::node::{IdentityView, Node, NodeView, UniqueNodeIdentity};
use vstd::prelude::*;

verus! {

/// What a shard sends to an aggregator.
#[derive(Debug)]
pub enum FromShardWebsocket {
    /// A node has connected to the chain `genesis_hash`.
    Add { genesis_hash: BlockHash, node: NodeDetails },
    /// The node `identity` of the chain `genesis_hash` has reported
    /// something.
    Update { genesis_hash: BlockHash, identity: UniqueNodeIdentity, payload: Payload },
    /// The node `identity` of the chain `genesis_hash` has left.
    Remove { genesis_hash: BlockHash, identity: UniqueNodeIdentity },
}

/// A message of a shard, with its texts as sequences of characters.
pub ghost enum ShardMessage {
    Add { genesis_hash: BlockHash, node: NodeDetailsView },
    Update { genesis_hash: BlockHash, identity: IdentityView, payload: PayloadView },
    Remove { genesis_hash: BlockHash, identity: IdentityView },
}

impl View for FromShardWebsocket {
    type V = ShardMessage;

    open spec fn view(&self) -> ShardMessage {
        match *self {
            FromShardWebsocket::Add { genesis_hash, node } => ShardMessage::Add {
                genesis_hash,
                node: node@,
            },
            FromShardWebsocket::Update { genesis_hash, identity, payload } => ShardMessage::Update {
                genesis_hash,
                identity: identity@,
                payload: payload@,
            },
            FromShardWebsocket::Remove { genesis_hash, identity } => ShardMessage::Remove {
                genesis_hash,
                identity: identity@,
            },
        }
    }
}

impl Clone for FromShardWebsocket {
    fn clone(&self) -> (r: Self)
        ensures
            r@ == self@,
    {
        match self {
            FromShardWebsocket::Add { genesis_hash, node } => FromShardWebsocket::Add {
                genesis_hash: *genesis_hash,
                node: node.clone(),
            },
            FromShardWebsocket::Update {
                genesis_hash,
                identity,
                payload,
            } => FromShardWebsocket::Update {
                genesis_hash: *genesis_hash,
                identity: identity.clone(),
                payload: payload.clone(),
            },
            FromShardWebsocket::Remove { genesis_hash, identity } => FromShardWebsocket::Remove {
                genesis_hash: *genesis_hash,
                identity: identity.clone(),
            },
        }
    }
}

impl ShardMessage {
    /// The chain that the message is about.
    pub open spec fn genesis_hash(self) -> BlockHash {
        match self {
            ShardMessage::Add { genesis_hash, .. } => genesis_hash,
            ShardMessage::Update { genesis_hash, .. } => genesis_hash,
            ShardMessage::Remove { genesis_hash, .. } => genesis_hash,
        }
    }
}

/// What a feed sends to an aggregator.
#[derive(Debug)]
pub enum FromFeedWebsocket {
    /// The feed wants the events of the chain `chain`.
    Subscribe { chain: BlockHash },
    /// The feed wants no events any more.
    Unsubscribe,
    /// The feed wants `value` back.
    Ping { value: String },
}

/// What an aggregator answers to a feed.
#[derive(Debug)]
pub enum FeedReply {
    /// The feed now gets the events of the chain it asked for.
    Subscribed,
    /// The feed gets no events: it asked for none, or for a chain that
    /// the aggregator does not keep.
    Unsubscribed,
    /// The value of a ping.
    Pong { value: String },
    /// No feed has the id.
    UnknownFeed,
}

/// A feed that an aggregator serves.
#[derive(Clone, Copy, Debug)]
pub struct Feed {
    pub id: u64,
    /// The chain whose events the feed gets.
    pub chain: Option<BlockHash>,
}

/// How many messages of shards an aggregator has taken in, by kind. Each
/// count stops at the greatest number.
#[derive(Clone, Copy, Debug)]
pub struct IngressCounts {
    /// Nodes that connected.
    pub added: usize,
    /// Reports of nodes.
    pub updated: usize,
    /// Nodes that left.
    pub removed: usize,
}

/// What taking in a message of a shard came to.
#[derive(Clone, Copy, Debug)]
pub enum Applied {
    /// Nothing: the message was about a chain or a node that the
    /// aggregator does not keep, or the chain has no index left.
    Ignored,
    /// A node is at index `node` of the chain at index `chain`.
    NodeAdded { chain: usize, node: usize },
    /// The node at index `node` of the chain at index `chain` took in a
    /// report.
    NodeUpdated { chain: usize, node: usize, change: NodeChange },
    /// The node at index `node` of the chain at index `chain` left, and
    /// with it the chain if it was the last.
    NodeRemoved { chain: usize, node: usize, chain_removed: bool },
}

/// The counters of one aggregator at one point in time.
#[derive(Clone, Copy, Debug)]
pub struct Metrics {
    /// When the counters were read, in ms since the Unix epoch.
    pub timestamp_unix_ms: u64,
    /// How many chains the aggregator keeps.
    pub chains: usize,
    /// How many nodes are connected, over all chains.
    pub connected_nodes: usize,
    /// How many feeds the aggregator serves.
    pub subscribed_feeds: usize,
    /// How many messages of each kind the aggregator has taken in.
    pub ingress: IngressCounts,
    /// How many answers the aggregator has given to feeds.
    pub feed_replies: usize,
}

impl Metrics {
    /// Counters that are all zero.
    pub open spec fn zero() -> Metrics {
        Metrics {
            timestamp_unix_ms: 0,
            chains: 0,
            connected_nodes: 0,
            subscribed_feeds: 0,
            ingress: IngressCounts { added: 0, updated: 0, removed: 0 },
            feed_replies: 0,
        }
    }

    /// Counters that are all zero.
    pub fn new() -> (r: Self)
        ensures
            r == Metrics::zero(),
    {
        Metrics {
            timestamp_unix_ms: 0,
            chains: 0,
            connected_nodes: 0,
            subscribed_feeds: 0,
            ingress: IngressCounts { added: 0, updated: 0, removed: 0 },
            feed_replies: 0,
        }
    }
}

/// The state of one aggregator. It alone changes its chains.
#[derive(Debug)]
pub struct AggregatorShard {
    /// The chains, in the order in which their first nodes connected.
    chains: Vec<Chain>,
    /// The feeds, in the order in which they subscribed.
    feeds: Vec<Feed>,
    /// The id of the next feed.
    next_feed_id: u64,
    /// How many messages of shards have been taken in.
    ingress: IngressCounts,
    /// How many answers have been given to feeds.
    feed_replies: usize,
}

/// The state of one aggregator.
pub ghost struct ShardView {
    pub chains: Seq<ChainView>,
    pub feeds: Seq<Feed>,
    pub next_feed_id: u64,
    pub ingress: IngressCounts,
    pub feed_replies: usize,
}

impl View for AggregatorShard {
    type V = ShardView;

    closed spec fn view(&self) -> ShardView {
        ShardView {
            chains: self.chains@.map_values(|c: Chain| c@),
            feeds: self.feeds@,
            next_feed_id: self.next_feed_id,
            ingress: self.ingress,
            feed_replies: self.feed_replies,
        }
    }
}

/// The chains with genesis hash `genesis_hash`.
pub open spec fn with_genesis(genesis_hash: BlockHash) -> spec_fn(ChainView) -> bool {
    |c: ChainView| c.genesis_hash == genesis_hash
}

/// The feeds with id `id`.
pub open spec fn with_id(id: u64) -> spec_fn(Feed) -> bool {
    |f: Feed| f.id == id
}

/// The feeds that get the events of the chain `genesis_hash`.
pub open spec fn subscribed_to(genesis_hash: BlockHash) -> spec_fn(Feed) -> bool {
    |f: Feed| f.chain == Some(genesis_hash)
}

/// One more than `count`, or `count` where that is the greatest number.
pub open spec fn counted_up(count: usize) -> usize {
    if count == usize::MAX {
        count
    } else {
        (count + 1) as usize
    }
}

/// The number of nodes of all of `chains`.
pub open spec fn total_nodes(chains: Seq<ChainView>) -> nat
    decreases chains.len(),
{
    if chains.len() == 0 {
        0
    } else {
        total_nodes(chains.drop_last()) + chains.last().node_count as nat
    }
}

impl ShardView {
    /// An aggregator that keeps no chain and serves no feed.
    pub open spec fn empty() -> ShardView {
        ShardView {
            chains: Seq::empty(),
            feeds: Seq::empty(),
            next_feed_id: 0,
            ingress: IngressCounts { added: 0, updated: 0, removed: 0 },
            feed_replies: 0,
        }
    }

    /// Every chain is in order and has a node, no two chains share a
    /// genesis hash, and no two feeds share an id.
    pub open spec fn wf(self) -> bool {
        &&& forall|i: int|
            0 <= i < self.chains.len() ==> (#[trigger] self.chains[i]).wf() && self.chains[i].node_count
                > 0
        &&& forall|i: int, j: int|
            0 <= i < j < self.chains.len() ==> (#[trigger] self.chains[i]).genesis_hash != (
            #[trigger] self.chains[j]).genesis_hash
        &&& forall|k: int| 0 <= k < self.feeds.len() ==> (#[trigger] self.feeds[k]).id < self.next_feed_id
        &&& forall|k: int, l: int|
            0 <= k < l < self.feeds.len() ==> (#[trigger] self.feeds[k]).id != (
            #[trigger] self.feeds[l]).id
    }

    /// The index of the chain `genesis_hash`, or the number of chains
    /// where the aggregator does not keep it.
    pub open spec fn chain_index(self, genesis_hash: BlockHash) -> int {
        first_index(self.chains, with_genesis(genesis_hash))
    }

    /// The aggregator with `chain` in the place at `index`.
    pub open spec fn with_chain(self, index: int, chain: ChainView) -> ShardView {
        ShardView { chains: self.chains.update(index, chain), ..self }
    }

    /// The chains after a node with `details` connected to the chain
    /// `genesis_hash` at `now`: a chain that the aggregator does not keep
    /// yet is made for it. A node that the chain has no index for is not
    /// admitted.
    pub open spec fn add(self, genesis_hash: BlockHash, details: NodeDetailsView, now: Timestamp)
        -> Seq<ChainView> {
        let node = NodeView::connected(details, now);
        let ci = self.chain_index(genesis_hash);
        if ci < self.chains.len() {
            if self.chains[ci].nodes.len() < usize::MAX {
                self.chains.update(ci, self.chains[ci].add_node(node))
            } else {
                self.chains
            }
        } else {
            self.chains.push(ChainView::empty(genesis_hash).add_node(node))
        }
    }

    /// The chains after the node `identity` of the chain `genesis_hash`
    /// reported `payload` at `now`. A report for a chain or a node that
    /// the aggregator does not keep changes nothing.
    pub open spec fn update(
        self,
        genesis_hash: BlockHash,
        identity: IdentityView,
        payload: PayloadView,
        now: Timestamp,
    ) -> Seq<ChainView> {
        let ci = self.chain_index(genesis_hash);
        if ci < self.chains.len() {
            match self.chains[ci].index_of(identity) {
                Some(ni) => self.chains.update(ci, self.chains[ci].update_node(ni, payload, now)),
                None => self.chains,
            }
        } else {
            self.chains
        }
    }

    /// The chains after the node `identity` of the chain `genesis_hash`
    /// left: a chain that loses its last node goes with it.
    pub open spec fn remove(self, genesis_hash: BlockHash, identity: IdentityView) -> Seq<
        ChainView,
    > {
        let ci = self.chain_index(genesis_hash);
        if ci < self.chains.len() {
            match self.chains[ci].index_of(identity) {
                Some(ni) => {
                    let left = self.chains[ci].remove_node(ni);
                    if left.node_count == 0 {
                        self.chains.remove(ci)
                    } else {
                        self.chains.update(ci, left)
                    }
                },
                None => self.chains,
            }
        } else {
            self.chains
        }
    }

    /// The aggregator after it took in the message `msg` of a shard at
    /// `now`.
    pub open spec fn apply(self, msg: ShardMessage, now: Timestamp) -> ShardView {
        ShardView {
            chains: match msg {
                ShardMessage::Add { genesis_hash, node } => self.add(genesis_hash, node, now),
                ShardMessage::Update { genesis_hash, identity, payload } => self.update(
                    genesis_hash,
                    identity,
                    payload,
                    now,
                ),
                ShardMessage::Remove { genesis_hash, identity } => self.remove(
                    genesis_hash,
                    identity,
                ),
            },
            ingress: match msg {
                ShardMessage::Add { .. } => IngressCounts {
                    added: counted_up(self.ingress.added),
                    ..self.ingress
                },
                ShardMessage::Update { .. } => IngressCounts {
                    updated: counted_up(self.ingress.updated),
                    ..self.ingress
                },
                ShardMessage::Remove { .. } => IngressCounts {
                    removed: counted_up(self.ingress.removed),
                    ..self.ingress
                },
            },
            ..self
        }
    }

    /// What taking in the message `msg` at `now` comes to.
    pub open spec fn outcome(self, msg: ShardMessage, now: Timestamp) -> Applied {
        let ci = self.chain_index(msg.genesis_hash());
        match msg {
            ShardMessage::Add { genesis_hash, node } => {
                let identity = identity_of(NodeView::connected(node, now));
                if ci >= self.chains.len() {
                    Applied::NodeAdded {
                        chain: ci as usize,
                        node: ChainView::empty(genesis_hash).slot_for(identity) as usize,
                    }
                } else if self.chains[ci].nodes.len() < usize::MAX {
                    Applied::NodeAdded {
                        chain: ci as usize,
                        node: self.chains[ci].slot_for(identity) as usize,
                    }
                } else {
                    Applied::Ignored
                }
            },
            ShardMessage::Update { identity, payload, .. } => if ci < self.chains.len() {
                match self.chains[ci].index_of(identity) {
                    Some(ni) => Applied::NodeUpdated {
                        chain: ci as usize,
                        node: ni,
                        change: self.chains[ci].change(ni, payload, now),
                    },
                    None => Applied::Ignored,
                }
            } else {
                Applied::Ignored
            },
            ShardMessage::Remove { identity, .. } => if ci < self.chains.len() {
                match self.chains[ci].index_of(identity) {
                    Some(ni) => Applied::NodeRemoved {
                        chain: ci as usize,
                        node: ni,
                        chain_removed: self.chains[ci].remove_node(ni).node_count == 0,
                    },
                    None => Applied::Ignored,
                }
            } else {
                Applied::Ignored
            },
        }
    }

    /// The overviews of all chains, by genesis hash.
    pub open spec fn overviews(self) -> Seq<(BlockHash, ChainOverviewView)> {
        self.chains.map_values(|c: ChainView| (c.genesis_hash, overview_of(c)))
    }

    /// The block histories of all chains, by genesis hash.
    pub open spec fn block_histories(self) -> Seq<(BlockHash, Seq<BlockHistoryBlockHeightView>)> {
        self.chains.map_values(|c: ChainView| (c.genesis_hash, history_of(c.blocks)))
    }

    /// The node lists of all chains, by genesis hash.
    pub open spec fn node_lists(self) -> Seq<(BlockHash, NodeListView)> {
        self.chains.map_values(
            |c: ChainView|
                (
                    c.genesis_hash,
                    NodeListView {
                        implementations: counted_groups(c.nodes),
                        nodes: rows_of(c.nodes),
                    },
                ),
        )
    }

    /// The counters of the aggregator as read at `now`.
    pub open spec fn metrics(self, now: Timestamp) -> Metrics {
        Metrics {
            timestamp_unix_ms: now,
            chains: self.chains.len() as usize,
            connected_nodes: if total_nodes(self.chains) > usize::MAX {
                usize::MAX
            } else {
                total_nodes(self.chains) as usize
            },
            subscribed_feeds: self.feeds.len() as usize,
            ingress: self.ingress,
            feed_replies: self.feed_replies,
        }
    }

    /// The aggregator after the feed `id` sent `msg`: the feed gets the
    /// events of a chain that it subscribes to if the aggregator keeps
    /// that chain, and of none otherwise.
    pub open spec fn feed_chain(self, chain: BlockHash) -> Option<BlockHash> {
        if self.chain_index(chain) < self.chains.len() {
            Some(chain)
        } else {
            None
        }
    }
}

/// The views of published pairs.
pub open spec fn view_pairs<T: View>(pairs: Seq<(BlockHash, T)>) -> Seq<(BlockHash, T::V)> {
    pairs.map_values(|p: (BlockHash, T)| (p.0, p.1@))
}

impl AggregatorShard {
    /// The invariant of the aggregator holds.
    pub open spec fn wf(&self) -> bool {
        self@.wf()
    }

    /// An aggregator that keeps no chain and serves no feed.
    pub fn new() -> (r: Self)
        ensures
            r.wf(),
            r@ == ShardView::empty(),
    {
        let r = AggregatorShard {
            chains: Vec::new(),
            feeds: Vec::new(),
            next_feed_id: 0,
            ingress: IngressCounts { added: 0, updated: 0, removed: 0 },
            feed_replies: 0,
        };
        assert(r@.chains =~= Seq::<ChainView>::empty());
        r
    }

    /// The chains, in the order in which their first nodes connected.
    pub fn chains(&self) -> (r: &Vec<Chain>)
        ensures
            r@.map_values(|c: Chain| c@) == self@.chains,
    {
        &self.chains
    }

    /// The index of the chain `genesis_hash`, if the aggregator keeps it.
    pub fn find_chain(&self, genesis_hash: &BlockHash) -> (r: Option<usize>)
        ensures
            r is Some == (self@.chain_index(*genesis_hash) < self@.chains.len()),
            r matches Some(i) ==> i == self@.chain_index(*genesis_hash),
    {
        let n = self.chains.len();
        let mut i: usize = 0;
        while i < n
            invariant
                n == self.chains@.len(),
                i <= n,
                forall|k: int| 0 <= k < i ==> !with_genesis(*genesis_hash)(#[trigger] self@.chains[k]),
            decreases n - i,
        {
            if self.chains[i].genesis_hash().same(genesis_hash) {
                proof {
                    lemma_first_index_is(self@.chains, with_genesis(*genesis_hash), i as int);
                }
                return Some(i);
            }
            i += 1;
        }
        proof {
            lemma_first_index_is(self@.chains, with_genesis(*genesis_hash), n as int);
        }
        None
    }

    /// Takes in one message of a shard at `now`, as a whole, and returns
    /// what it came to.
    pub fn apply(&mut self, msg: FromShardWebsocket, now: Timestamp) -> (r: Applied)
        requires
            old(self).wf(),
        ensures
            final(self).wf(),
            final(self)@ == old(self)@.apply(msg@, now),
            r == old(self)@.outcome(msg@, now),
    {
        let ghost before = self@;
        match msg {
            FromShardWebsocket::Add { genesis_hash, node } => {
                if self.ingress.added < usize::MAX {
                    self.ingress.added = self.ingress.added + 1;
                }
                let ghost details = node@;
                let node = Node::new(node, now);
                match self.find_chain(&genesis_hash) {
                    Some(ci) => {
                        if self.chains[ci].nodes_slice().len() < usize::MAX {
                            let ni = self.chains[ci].add_node(node);
                            proof {
                                let chain = before.chains[ci as int].add_node(
                                    NodeView::connected(details, now),
                                );
                                assert(self@.chains =~= before.chains.update(ci as int, chain));
                                lemma_chain_replaced(before, self@, ci as int);
                            }
                            Applied::NodeAdded { chain: ci, node: ni }
                        } else {
                            assert(self@.chains =~= before.chains);
                            Applied::Ignored
                        }
                    },
                    None => {
                        let mut chain = Chain::new(genesis_hash);
                        let ni = chain.add_node(node);
                        let ghost fresh = chain@;
                        let ci = self.chains.len();
                        self.chains.push(chain);
                        proof {
                            assert(self@.chains =~= before.chains.push(fresh));
                            lemma_first_index_bounds(before.chains, with_genesis(genesis_hash));
                            assert forall|i: int, j: int|
                                0 <= i < j < self@.chains.len() implies (
                            #[trigger] self@.chains[i]).genesis_hash != (
                            #[trigger] self@.chains[j]).genesis_hash by {
                                if j == before.chains.len() {
                                    assert(!with_genesis(genesis_hash)(before.chains[i]));
                                } else {
                                    assert(before.chains[i].genesis_hash
                                        != before.chains[j].genesis_hash);
                                }
                            }
                            assert forall|i: int| 0 <= i < self@.chains.len() implies (
                            #[trigger] self@.chains[i]).wf() && self@.chains[i].node_count > 0 by {
                                if i < before.chains.len() {
                                    assert(before.chains[i].wf());
                                }
                            }
                        }
                        Applied::NodeAdded { chain: ci, node: ni }
                    },
                }
            },
            FromShardWebsocket::Update { genesis_hash, identity, payload } => {
                if self.ingress.updated < usize::MAX {
                    self.ingress.updated = self.ingress.updated + 1;
                }
                let ghost report = payload@;
                match self.find_chain(&genesis_hash) {
                    Some(ci) => {
                        match self.chains[ci].find_node(&identity) {
                            Some(ni) => {
                                let change = self.chains[ci].update_node(ni, payload, now);
                                proof {
                                    let chain = before.chains[ci as int].update_node(ni, report, now);
                                    assert(self@.chains =~= before.chains.update(ci as int, chain));
                                    lemma_chain_replaced(before, self@, ci as int);
                                }
                                Applied::NodeUpdated { chain: ci, node: ni, change }
                            },
                            None => {
                                assert(self@.chains =~= before.chains);
                                Applied::Ignored
                            },
                        }
                    },
                    None => {
                        assert(self@.chains =~= before.chains);
                        Applied::Ignored
                    },
                }
            },
            FromShardWebsocket::Remove { genesis_hash, identity } => {
                if self.ingress.removed < usize::MAX {
                    self.ingress.removed = self.ingress.removed + 1;
                }
                match self.find_chain(&genesis_hash) {
                    Some(ci) => {
                        match self.chains[ci].find_node(&identity) {
                            Some(ni) => {
                                self.chains[ci].remove_node(ni);
                                let ghost left = before.chains[ci as int].remove_node(ni);
                                assert(self@.chains =~= before.chains.update(ci as int, left));
                                if self.chains[ci].node_count() == 0 {
                                    self.chains.remove(ci);
                                    proof {
                                        assert(self@.chains =~= before.chains.remove(ci as int));
                                        assert forall|i: int, j: int|
                                            0 <= i < j < self@.chains.len() implies (
                                        #[trigger] self@.chains[i]).genesis_hash != (
                                        #[trigger] self@.chains[j]).genesis_hash by {
                                            let a = if i < ci {
                                                i
                                            } else {
                                                i + 1
                                            };
                                            let b = if j < ci {
                                                j
                                            } else {
                                                j + 1
                                            };
                                            assert(before.chains[a].genesis_hash
                                                != before.chains[b].genesis_hash);
                                        }
                                        assert forall|i: int| 0 <= i < self@.chains.len() implies (
                                        #[trigger] self@.chains[i]).wf()
                                            && self@.chains[i].node_count > 0 by {
                                            let a = if i < ci {
                                                i
                                            } else {
                                                i + 1
                                            };
                                            assert(before.chains[a].wf());
                                        }
                                    }
                                    Applied::NodeRemoved { chain: ci, node: ni, chain_removed: true }
                                } else {
                                    proof {
                                        lemma_chain_replaced(before, self@, ci as int);
                                    }
                                    Applied::NodeRemoved { chain: ci, node: ni, chain_removed: false }
                                }
                            },
                            None => {
                                assert(self@.chains =~= before.chains);
                                Applied::Ignored
                            },
                        }
                    },
                    None => {
                        assert(self@.chains =~= before.chains);
                        Applied::Ignored
                    },
                }
            },
        }
    }

    /// The overview of every chain as it is now, by genesis hash.
    pub fn gather_overview_endpoint(&self) -> (r: Vec<(BlockHash, ChainOverview)>)
        ensures
            view_pairs(r@) == self@.overviews(),
    {
        let n = self.chains.len();
        let mut r: Vec<(BlockHash, ChainOverview)> = Vec::new();
        let mut i: usize = 0;
        assert(view_pairs(r@) =~= self@.overviews().take(0));
        while i < n
            invariant
                n == self.chains@.len(),
                i <= n,
                view_pairs(r@) == self@.overviews().take(i as int),
            decreases n - i,
        {
            let chain = &self.chains[i];
            let ghost known = view_pairs(r@);
            r.push((chain.genesis_hash(), ChainOverview::from(chain)));
            assert(view_pairs(r@) =~= known.push((chain@.genesis_hash, overview_of(chain@))));
            i += 1;
            assert(self@.overviews().take(i as int) =~= known.push(
                (chain@.genesis_hash, overview_of(chain@)),
            ));
        }
        assert(self@.overviews().take(n as int) =~= self@.overviews());
        r
    }

    /// The block history of every chain as it is now, by genesis hash.
    pub fn gather_block_history_endpoint(&self) -> (r: Vec<(BlockHash, BlockHistory)>)
        ensures
            view_pairs(r@) == self@.block_histories(),
    {
        let n = self.chains.len();
        let mut r: Vec<(BlockHash, BlockHistory)> = Vec::new();
        let mut i: usize = 0;
        assert(view_pairs(r@) =~= self@.block_histories().take(0));
        while i < n
            invariant
                n == self.chains@.len(),
                i <= n,
                view_pairs(r@) == self@.block_histories().take(i as int),
            decreases n - i,
        {
            let chain = &self.chains[i];
            let ghost known = view_pairs(r@);
            r.push((chain.genesis_hash(), BlockHistory::from(chain.blocks())));
            assert(view_pairs(r@) =~= known.push((chain@.genesis_hash, history_of(chain@.blocks))));
            i += 1;
            assert(self@.block_histories().take(i as int) =~= known.push(
                (chain@.genesis_hash, history_of(chain@.blocks)),
            ));
        }
        assert(self@.block_histories().take(n as int) =~= self@.block_histories());
        r
    }

    /// The node list of every chain as it is now, by genesis hash.
    pub fn gather_node_list_endpoint(&self) -> (r: Vec<(BlockHash, NodeList)>)
        ensures
            view_pairs(r@) == self@.node_lists(),
    {
        let n = self.chains.len();
        let mut r: Vec<(BlockHash, NodeList)> = Vec::new();
        let mut i: usize = 0;
        assert(view_pairs(r@) =~= self@.node_lists().take(0));
        while i < n
            invariant
                n == self.chains@.len(),
                i <= n,
                view_pairs(r@) == self@.node_lists().take(i as int),
            decreases n - i,
        {
            let chain = &self.chains[i];
            let ghost known = view_pairs(r@);
            let list = NodeList::from(chain);
            let ghost shown = list@;
            r.push((chain.genesis_hash(), list));
            assert(view_pairs(r@) =~= known.push((chain@.genesis_hash, shown)));
            i += 1;
            assert(self@.node_lists().take(i as int) =~= known.push((chain@.genesis_hash, shown)));
        }
        assert(self@.node_lists().take(n as int) =~= self@.node_lists());
        r
    }

    /// The counters of the aggregator as read at `now`.
    pub fn gather_metrics(&self, now: Timestamp) -> (r: Metrics)
        ensures
            r == self@.metrics(now),
    {
        let n = self.chains.len();
        let mut connected_nodes: usize = 0;
        let mut i: usize = 0;
        assert(self@.chains.take(0) =~= Seq::<ChainView>::empty());
        while i < n
            invariant
                n == self.chains@.len(),
                i <= n,
                connected_nodes == if total_nodes(self@.chains.take(i as int)) > usize::MAX {
                    usize::MAX
                } else {
                    total_nodes(self@.chains.take(i as int)) as usize
                },
            decreases n - i,
        {
            proof {
                assert(self@.chains.take(i as int + 1).drop_last() =~= self@.chains.take(i as int));
                assert(self@.chains.take(i as int + 1).last() == self@.chains[i as int]);
            }
            connected_nodes = connected_nodes.saturating_add(self.chains[i].node_count());
            i += 1;
        }
        assert(self@.chains.take(n as int) =~= self@.chains);
        Metrics {
            timestamp_unix_ms: now,
            chains: n,
            connected_nodes,
            subscribed_feeds: self.feeds.len(),
            ingress: self.ingress,
            feed_replies: self.feed_replies,
        }
    }

    /// Takes on a feed and returns its id, which no other feed of this
    /// aggregator has or had. `None` when the ids have run out.
    pub fn subscribe_feed(&mut self) -> (r: Option<u64>)
        requires
            old(self).wf(),
        ensures
            final(self).wf(),
            final(self)@.chains == old(self)@.chains,
            final(self)@.ingress == old(self)@.ingress,
            final(self)@.feed_replies == old(self)@.feed_replies,
            r is Some == (old(self)@.next_feed_id < u64::MAX),
            r matches Some(id) ==> {
                &&& id == old(self)@.next_feed_id
                &&& final(self)@.next_feed_id == id + 1
                &&& final(self)@.feeds == old(self)@.feeds.push(Feed { id, chain: None })
            },
            r is None ==> final(self)@ == old(self)@,
    {
        if self.next_feed_id == u64::MAX {
            return None;
        }
        let id = self.next_feed_id;
        self.next_feed_id = id + 1;
        self.feeds.push(Feed { id, chain: None });
        Some(id)
    }

    /// The place of the feed `id` among the feeds, if the aggregator
    /// serves it.
    pub fn find_feed(&self, id: u64) -> (r: Option<usize>)
        ensures
            r is Some == (first_index(self@.feeds, with_id(id)) < self@.feeds.len()),
            r matches Some(k) ==> k == first_index(self@.feeds, with_id(id)),
    {
        let n = self.feeds.len();
        let mut k: usize = 0;
        while k < n
            invariant
                n == self.feeds@.len(),
                k <= n,
                forall|l: int| 0 <= l < k ==> !with_id(id)(#[trigger] self@.feeds[l]),
            decreases n - k,
        {
            if self.feeds[k].id == id {
                proof {
                    lemma_first_index_is(self@.feeds, with_id(id), k as int);
                }
                return Some(k);
            }
            k += 1;
        }
        proof {
            lemma_first_index_is(self@.feeds, with_id(id), n as int);
        }
        None
    }

    /// Takes in a message of the feed `id` and returns the answer to it.
    pub fn handle_feed(&mut self, id: u64, msg: FromFeedWebsocket) -> (r: FeedReply)
        requires
            old(self).wf(),
        ensures
            final(self).wf(),
            final(self)@.chains == old(self)@.chains,
            final(self)@.ingress == old(self)@.ingress,
            final(self)@.next_feed_id == old(self)@.next_feed_id,
            final(self)@.feed_replies == if r is UnknownFeed {
                old(self)@.feed_replies
            } else {
                counted_up(old(self)@.feed_replies)
            },
            ({
                let k = first_index(old(self)@.feeds, with_id(id));
                if k >= old(self)@.feeds.len() {
                    &&& r is UnknownFeed
                    &&& final(self)@.feeds == old(self)@.feeds
                } else {
                    match msg {
                        FromFeedWebsocket::Subscribe { chain } => {
                            &&& final(self)@.feeds == old(self)@.feeds.update(
                                k,
                                Feed { id, chain: old(self)@.feed_chain(chain) },
                            )
                            &&& r is Subscribed == old(self)@.feed_chain(chain) is Some
                            &&& r is Unsubscribed == old(self)@.feed_chain(chain) is None
                        },
                        FromFeedWebsocket::Unsubscribe => {
                            &&& final(self)@.feeds == old(self)@.feeds.update(
                                k,
                                Feed { id, chain: None },
                            )
                            &&& r is Unsubscribed
                        },
                        FromFeedWebsocket::Ping { value } => {
                            &&& final(self)@.feeds == old(self)@.feeds
                            &&& r matches FeedReply::Pong { value: back }
                            &&& back@ == value@
                        },
                    }
                }
            }),
    {
        let k = match self.find_feed(id) {
            Some(k) => k,
            None => {
                return FeedReply::UnknownFeed;
            },
        };
        proof {
            lemma_first_index_bounds(self@.feeds, with_id(id));
            assert(with_id(id)(self@.feeds[k as int]));
        }
        if self.feed_replies < usize::MAX {
            self.feed_replies = self.feed_replies + 1;
        }
        match msg {
            FromFeedWebsocket::Subscribe { chain } => {
                let known = self.find_chain(&chain).is_some();
                if known {
                    self.feeds[k] = Feed { id, chain: Some(chain) };
                    FeedReply::Subscribed
                } else {
                    self.feeds[k] = Feed { id, chain: None };
                    FeedReply::Unsubscribed
                }
            },
            FromFeedWebsocket::Unsubscribe => {
                self.feeds[k] = Feed { id, chain: None };
                FeedReply::Unsubscribed
            },
            FromFeedWebsocket::Ping { value } => FeedReply::Pong { value },
        }
    }

    /// The ids of the feeds that get the events of the chain
    /// `genesis_hash`, in the order in which they subscribed to the
    /// aggregator.
    pub fn subscribers(&self, genesis_hash: &BlockHash) -> (r: Vec<u64>)
        ensures
            r@ == self@.feeds.filter(subscribed_to(*genesis_hash)).map_values(|f: Feed| f.id),
    {
        let n = self.feeds.len();
        let mut ids: Vec<u64> = Vec::new();
        let mut k: usize = 0;
        let ghost wanted = subscribed_to(*genesis_hash);
        assert(self@.feeds.take(0) =~= Seq::<Feed>::empty());
        assert(ids@ =~= self@.feeds.take(0).filter(wanted).map_values(|f: Feed| f.id));
        while k < n
            invariant
                n == self.feeds@.len(),
                k <= n,
                wanted == subscribed_to(*genesis_hash),
                ids@ == self@.feeds.take(k as int).filter(wanted).map_values(|f: Feed| f.id),
            decreases n - k,
        {
            let feed = self.feeds[k];
            proof {
                self@.feeds.lemma_take_succ_push(k as int);
                self@.feeds.take(k as int).lemma_filter_push(feed, wanted);
            }
            let listening = match &feed.chain {
                Some(chain) => chain.same(genesis_hash),
                None => false,
            };
            if listening {
                let ghost known = ids@;
                ids.push(feed.id);
                assert(self@.feeds.take(k as int + 1).filter(wanted).map_values(|f: Feed| f.id)
                    =~= known.push(feed.id));
            }
            k += 1;
        }
        assert(self@.feeds.take(n as int) =~= self@.feeds);
        ids
    }

    /// Lets the feed `id` go. Nothing happens where no feed has the id.
    pub fn disconnect_feed(&mut self, id: u64)
        requires
            old(self).wf(),
        ensures
            final(self).wf(),
            final(self)@.chains == old(self)@.chains,
            final(self)@.ingress == old(self)@.ingress,
            final(self)@.feed_replies == old(self)@.feed_replies,
            final(self)@.next_feed_id == old(self)@.next_feed_id,
            final(self)@.feeds == ({
                let k = first_index(old(self)@.feeds, with_id(id));
                if k < old(self)@.feeds.len() {
                    old(self)@.feeds.remove(k)
                } else {
                    old(self)@.feeds
                }
            }),
    {
        let ghost before = self@;
        if let Some(k) = self.find_feed(id) {
            self.feeds.remove(k);
            proof {
                assert forall|a: int| 0 <= a < self@.feeds.len() implies (
                #[trigger] self@.feeds[a]).id < self@.next_feed_id by {
                    let b = if a < k {
                        a
                    } else {
                        a + 1
                    };
                    assert(before.feeds[b].id < before.next_feed_id);
                }
                assert forall|a: int, b: int| 0 <= a < b < self@.feeds.len() implies (
                #[trigger] self@.feeds[a]).id != (#[trigger] self@.feeds[b]).id by {
                    let x = if a < k {
                        a
                    } else {
                        a + 1
                    };
                    let y = if b < k {
                        b
                    } else {
                        b + 1
                    };
                    assert(before.feeds[x].id != before.feeds[y].id);
                }
            }
        }
    }
}

/// An aggregator stays in order where one chain is replaced by a chain in
/// order with the same genesis hash and at least one node, and its feeds
/// stay as they are.
pub proof fn lemma_chain_replaced(before: ShardView, after: ShardView, index: int)
    requires
        before.wf(),
        0 <= index < before.chains.len(),
        after.chains.len() == before.chains.len(),
        forall|i: int|
            0 <= i < before.chains.len() && i != index ==> #[trigger] after.chains[i]
                == before.chains[i],
        after.chains[index].wf(),
        after.chains[index].node_count > 0,
        after.chains[index].genesis_hash == before.chains[index].genesis_hash,
        after.feeds == before.feeds,
        after.next_feed_id == before.next_feed_id,
    ensures
        after.wf(),
{
    assert forall|i: int, j: int| 0 <= i < j < after.chains.len() implies (
    #[trigger] after.chains[i]).genesis_hash != (#[trigger] after.chains[j]).genesis_hash by {
        assert(before.chains[i].genesis_hash != before.chains[j].genesis_hash);
    }
    assert forall|i: int| 0 <= i < after.chains.len() implies (#[trigger] after.chains[i]).wf()
        && after.chains[i].node_count > 0 by {
        if i != index {
            assert(before.chains[i].wf());
        }
    }
}

/// What happens at an aggregator: it takes in a message of a shard, or it
/// is asked for its views.
pub ghost enum ShardStep {
    Ingress { msg: ShardMessage, now: Timestamp },
    Snapshot,
}

/// The aggregator after `steps`. Being asked for its views leaves it as it
/// is.
pub open spec fn after_steps(shard: ShardView, steps: Seq<ShardStep>) -> ShardView
    decreases steps.len(),
{
    if steps.len() == 0 {
        shard
    } else {
        let earlier = after_steps(shard, steps.drop_last());
        match steps.last() {
            ShardStep::Ingress { msg, now } => earlier.apply(msg, now),
            ShardStep::Snapshot => earlier,
        }
    }
}

/// The messages among `steps`, in their order.
pub open spec fn ingress_of(steps: Seq<ShardStep>) -> Seq<ShardStep> {
    steps.filter(|s: ShardStep| s is Ingress)
}

/// At whatever points an aggregator is asked for its views between the
/// messages it takes in, the views it gives are those of the state that
/// the messages before that point lead to, each of them taken in as a
/// whole: the requests before it make no difference.
pub proof fn lemma_snapshot_of_ingress_prefix(shard: ShardView, steps: Seq<ShardStep>)
    ensures
        after_steps(shard, steps) == after_steps(shard, ingress_of(steps)),
        after_steps(shard, steps).overviews() == after_steps(shard, ingress_of(steps)).overviews(),
        after_steps(shard, steps).block_histories() == after_steps(
            shard,
            ingress_of(steps),
        ).block_histories(),
        after_steps(shard, steps).node_lists() == after_steps(
            shard,
            ingress_of(steps),
        ).node_lists(),
    decreases steps.len(),
{
    let only = |s: ShardStep| s is Ingress;
    if steps.len() > 0 {
        let earlier = steps.drop_last();
        lemma_snapshot_of_ingress_prefix(shard, earlier);
        assert(steps =~= earlier.push(steps.last()));
        earlier.lemma_filter_push(steps.last(), only);
        if steps.last() is Ingress {
            assert(ingress_of(steps).drop_last() =~= ingress_of(earlier));
        }
    } else {
        assert(ingress_of(steps) =~= Seq::<ShardStep>::empty()) by {
            steps.lemma_filter_len(only);
        }
    }
}

} // verus!
