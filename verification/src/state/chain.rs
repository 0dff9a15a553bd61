//! One chain: the nodes that run it, its block window and what is derived
//! from them.

use crate::node_message::{
    IntervalFromNode, IntervalKind, IntervalView, Payload, PayloadView, SystemInterval,
};
use crate::node_types::{
    view_opt, zero_block, Block, BlockDetails, BlockHash, NodeDetailsView, NodeHwBench,
    NodeLocation, NodeLocationView, Timestamp,
};
use crate::scan::{first_index, lemma_first_index_bounds, lemma_first_index_is};
use crate::state::blocks::{
    heights_ascend, observe, DetailsView, HeightEntryView, StoredBlocks, MAX_BLOCK_HEIGHT_STORED,
};
use crate::state::node::{
    timed, IdentityView, Node, NodeView, UniqueNodeIdentity, MAX_QUEUE_SIZE, THROTTLE_INTERVAL,
};
use vstd::prelude::*;

verus! {

/// The nodes of one genesis hash. A node keeps the index it was admitted at
/// for as long as it stays; the index of a node that left is given to a
/// later one.
#[derive(Debug)]
pub struct Chain {
    genesis_hash: BlockHash,
    /// The nodes by index, with `None` where a node has left.
    nodes: Vec<Option<Node>>,
    /// The indices at which a node has left, the latest last.
    free: Vec<usize>,
    /// How many nodes there are.
    node_count: usize,
    /// The greatest number of nodes there has been.
    max_nodes: usize,
    blocks: StoredBlocks,
    /// The highest block that any node has reported as its best.
    best: Block,
    /// The highest block that any node has reported as finalized.
    finalized: Block,
    /// When the chain's best block was last replaced.
    timestamp: Option<Timestamp>,
    /// The sum of the block times that went into the average.
    block_time_sum: u64,
    /// How many block times went into the average.
    block_time_count: u64,
}

/// The state of a chain.
pub ghost struct ChainView {
    pub genesis_hash: BlockHash,
    pub nodes: Seq<Option<NodeView>>,
    pub free: Seq<usize>,
    pub node_count: usize,
    pub max_nodes: usize,
    pub blocks: Seq<HeightEntryView>,
    pub best: Block,
    pub finalized: Block,
    pub timestamp: Option<Timestamp>,
    pub block_time_sum: u64,
    pub block_time_count: u64,
}

impl View for Chain {
    type V = ChainView;

    closed spec fn view(&self) -> ChainView {
        ChainView {
            genesis_hash: self.genesis_hash,
            nodes: self.nodes@.map_values(|n: Option<Node>| view_opt(n)),
            free: self.free@,
            node_count: self.node_count,
            max_nodes: self.max_nodes,
            blocks: self.blocks@,
            best: self.best,
            finalized: self.finalized,
            timestamp: self.timestamp,
            block_time_sum: self.block_time_sum,
            block_time_count: self.block_time_count,
        }
    }
}

/// The identity of a node: its name and its network id.
pub open spec fn identity_of(node: NodeView) -> IdentityView {
    IdentityView { node_name: node.details.name, network_id: node.details.network_id }
}

/// The places that hold a node.
pub open spec fn is_present() -> spec_fn(Option<NodeView>) -> bool {
    |n: Option<NodeView>| n is Some
}

/// The places that hold the node with identity `identity`.
pub open spec fn has_identity(identity: IdentityView) -> spec_fn(Option<NodeView>) -> bool {
    |n: Option<NodeView>|
        match n {
            Some(node) => identity_of(node) == identity,
            None => false,
        }
}

/// How many places hold a node.
pub open spec fn present_count(nodes: Seq<Option<NodeView>>) -> nat {
    nodes.filter(is_present()).len()
}

/// Replacing one place changes the count of nodes by what it held and what
/// it holds now.
pub proof fn lemma_count_after_update(
    nodes: Seq<Option<NodeView>>,
    index: int,
    place: Option<NodeView>,
)
    requires
        0 <= index < nodes.len(),
    ensures
        present_count(nodes.update(index, place)) + (if nodes[index] is Some {
            1int
        } else {
            0int
        }) == present_count(nodes) + (if place is Some {
            1int
        } else {
            0int
        }),
{
    let p = is_present();
    let left = nodes.take(index);
    let right = nodes.skip(index + 1);
    assert(nodes =~= left.push(nodes[index]) + right);
    assert(nodes.update(index, place) =~= left.push(place) + right);
    Seq::filter_distributes_over_add(left.push(nodes[index]), right, p);
    Seq::filter_distributes_over_add(left.push(place), right, p);
    left.lemma_filter_push(nodes[index], p);
    left.lemma_filter_push(place, p);
}

/// Appending a place adds one to the count of nodes if it holds a node.
pub proof fn lemma_count_after_push(nodes: Seq<Option<NodeView>>, place: Option<NodeView>)
    ensures
        present_count(nodes.push(place)) == present_count(nodes) + (if place is Some {
            1int
        } else {
            0int
        }),
{
    nodes.lemma_filter_push(place, is_present());
}

/// No more places hold a node than there are places.
pub proof fn lemma_count_bounded(nodes: Seq<Option<NodeView>>)
    ensures
        present_count(nodes) <= nodes.len(),
{
    nodes.lemma_filter_len(is_present());
}

/// What a report changed at a node, for those who pass changes on.
#[derive(Clone, Copy, Debug)]
pub enum NodeChange {
    /// Nothing that anyone needs to be told.
    Unchanged,
    /// Something of the node.
    Changed,
    /// The best block of the node, with its new details where those are
    /// to be passed on.
    NewBest { passed: Option<BlockDetails> },
}

/// A chain stays in order where one node is replaced by a node of the same
/// identity whose history is within its size, and nothing else that the
/// order speaks of changes.
pub proof fn lemma_node_replaced(before: ChainView, after: ChainView, index: int)
    requires
        before.wf(),
        0 <= index < before.nodes.len(),
        before.nodes[index] is Some,
        after.nodes.len() == before.nodes.len(),
        after.nodes[index] is Some,
        forall|j: int|
            0 <= j < before.nodes.len() && j != index ==> #[trigger] after.nodes[j]
                == before.nodes[j],
        identity_of(after.nodes[index]->0) == identity_of(before.nodes[index]->0),
        after.nodes[index]->0.history.len() <= MAX_QUEUE_SIZE,
        after.free == before.free,
        after.node_count == before.node_count,
        after.max_nodes == before.max_nodes,
        after.blocks.len() <= MAX_BLOCK_HEIGHT_STORED,
        heights_ascend(after.blocks),
    ensures
        after.wf(),
{
    assert(after.nodes =~= before.nodes.update(index, after.nodes[index]));
    lemma_count_after_update(before.nodes, index, after.nodes[index]);
    assert forall|a: int, b: int|
        0 <= a < b < after.nodes.len() && (#[trigger] after.nodes[a]) is Some && (
        #[trigger] after.nodes[b]) is Some implies identity_of(after.nodes[a]->0) != identity_of(
        after.nodes[b]->0,
    ) by {
        assert(before.nodes[a] is Some && before.nodes[b] is Some);
    }
    assert forall|a: int| 0 <= a < after.nodes.len() implies ((#[trigger] after.nodes[a]) is None
        <==> after.free.contains(a as usize)) by {
        assert(before.nodes[a] is None <==> before.free.contains(a as usize));
    }
    assert forall|a: int|
        0 <= a < after.nodes.len() && (#[trigger] after.nodes[a]) is Some implies after.nodes[a]->0.history.len()
        <= MAX_QUEUE_SIZE by {
        assert(before.nodes[a] is Some);
    }
}

impl ChainView {
    /// The chain `genesis_hash` without nodes and without blocks.
    pub open spec fn empty(genesis_hash: BlockHash) -> ChainView {
        ChainView {
            genesis_hash,
            nodes: Seq::empty(),
            free: Seq::empty(),
            node_count: 0,
            max_nodes: 0,
            blocks: Seq::empty(),
            best: zero_block(),
            finalized: zero_block(),
            timestamp: None,
            block_time_sum: 0,
            block_time_count: 0,
        }
    }

    /// The count of nodes is the number of places that hold one and never
    /// exceeds the greatest count; the free indices are those of the empty
    /// places, each once; no two nodes share an identity; the block window
    /// and every node's history are within their sizes and in order.
    pub open spec fn wf(self) -> bool {
        &&& self.node_count == present_count(self.nodes)
        &&& self.node_count <= self.max_nodes
        &&& self.free.no_duplicates()
        &&& forall|k: int| 0 <= k < self.free.len() ==> (#[trigger] self.free[k]) < self.nodes.len()
        &&& forall|i: int|
            0 <= i < self.nodes.len() ==> ((#[trigger] self.nodes[i]) is None
                <==> self.free.contains(i as usize))
        &&& forall|i: int, j: int|
            0 <= i < j < self.nodes.len() && (#[trigger] self.nodes[i]) is Some && (
            #[trigger] self.nodes[j]) is Some ==> identity_of(self.nodes[i]->0) != identity_of(
                self.nodes[j]->0,
            )
        &&& forall|i: int|
            0 <= i < self.nodes.len() && (#[trigger] self.nodes[i]) is Some
                ==> self.nodes[i]->0.history.len() <= MAX_QUEUE_SIZE
        &&& self.blocks.len() <= MAX_BLOCK_HEIGHT_STORED
        &&& heights_ascend(self.blocks)
    }

    /// The index of the node with identity `identity`, if there is one.
    pub open spec fn index_of(self, identity: IdentityView) -> Option<usize> {
        let i = first_index(self.nodes, has_identity(identity));
        if i < self.nodes.len() {
            Some(i as usize)
        } else {
            None
        }
    }

    /// The index at which a node with identity `identity` is admitted: the
    /// index of the node with that identity, else the index that was freed
    /// last, else a new one.
    pub open spec fn slot_for(self, identity: IdentityView) -> int {
        match self.index_of(identity) {
            Some(i) => i as int,
            None => if self.free.len() > 0 {
                self.free.last() as int
            } else {
                self.nodes.len() as int
            },
        }
    }

    /// The chain after `node` was admitted. A node with the same identity
    /// is replaced; otherwise the count of nodes grows by one.
    pub open spec fn add_node(self, node: NodeView) -> ChainView {
        let slot = self.slot_for(identity_of(node));
        if self.index_of(identity_of(node)) is Some {
            ChainView { nodes: self.nodes.update(slot, Some(node)), ..self }
        } else {
            let count = (self.node_count + 1) as usize;
            let grown = ChainView {
                node_count: count,
                max_nodes: if count > self.max_nodes {
                    count
                } else {
                    self.max_nodes
                },
                ..self
            };
            if self.free.len() > 0 {
                ChainView {
                    nodes: self.nodes.update(slot, Some(node)),
                    free: self.free.drop_last(),
                    ..grown
                }
            } else {
                ChainView { nodes: self.nodes.push(Some(node)), ..grown }
            }
        }
    }

    /// Whether a node is at `index`.
    pub open spec fn holds(self, index: usize) -> bool {
        index < self.nodes.len() && self.nodes[index as int] is Some
    }

    /// The chain after the node at `index` left. Nothing changes where
    /// there is no node.
    pub open spec fn remove_node(self, index: usize) -> ChainView {
        if self.holds(index) {
            ChainView {
                nodes: self.nodes.update(index as int, None),
                free: self.free.push(index),
                node_count: (self.node_count - 1) as usize,
                ..self
            }
        } else {
            self
        }
    }

    /// The time that a block reported at `now` took to reach a node, as
    /// far as the chain can tell: nothing for the block that becomes the
    /// chain's best, the time since the chain's best block for another
    /// block at its height.
    pub open spec fn propagation_time(self, block: Block, now: Timestamp) -> Option<u64> {
        if block.height > self.best.height {
            Some(0u64)
        } else if block.height == self.best.height {
            match self.timestamp {
                Some(since) => Some(if now >= since {
                    (now - since) as u64
                } else {
                    0u64
                }),
                None => None,
            }
        } else {
            None
        }
    }

    /// Whether the node at `index` takes `block` as its best block.
    pub open spec fn accepts_block(self, index: usize, block: Block) -> bool {
        self.holds(index) && block.height > self.nodes[index as int]->0.best.block.height
    }

    /// The chain after the node at `index` reported `block` as its best
    /// block at `now`. Where the node takes the block, its details are
    /// updated, a block above the chain's best becomes the chain's best,
    /// and the node's block time goes into the average.
    pub open spec fn update_block(self, index: usize, block: Block, now: Timestamp) -> ChainView {
        if self.accepts_block(index, block) {
            let node = self.nodes[index as int]->0.update_block(block).update_details(
                now,
                self.propagation_time(block, now),
            );
            let higher = block.height > self.best.height;
            ChainView {
                nodes: self.nodes.update(index as int, Some(node)),
                best: if higher {
                    block
                } else {
                    self.best
                },
                timestamp: if higher {
                    Some(now)
                } else {
                    self.timestamp
                },
                block_time_sum: if self.block_time_sum + node.best.block_time > u64::MAX {
                    u64::MAX
                } else {
                    (self.block_time_sum + node.best.block_time) as u64
                },
                block_time_count: if self.block_time_count + 1 > u64::MAX {
                    u64::MAX
                } else {
                    (self.block_time_count + 1) as u64
                },
                ..self
            }
        } else {
            self
        }
    }

    /// The chain after the node at `index` reported `block` as finalized.
    pub open spec fn update_finalized(self, index: usize, block: Block) -> ChainView {
        if self.holds(index) {
            ChainView {
                nodes: self.nodes.update(
                    index as int,
                    Some(self.nodes[index as int]->0.update_finalized(block)),
                ),
                finalized: if block.height > self.finalized.height {
                    block
                } else {
                    self.finalized
                },
                ..self
            }
        } else {
            self
        }
    }

    /// The chain with `node` in the place at `index`.
    pub open spec fn with_node(self, index: usize, node: NodeView) -> ChainView {
        ChainView { nodes: self.nodes.update(index as int, Some(node)), ..self }
    }

    /// The chain after the node at `index` sent the counters of a periodic
    /// report.
    pub open spec fn update_stats(self, index: usize, interval: SystemInterval) -> ChainView {
        if self.holds(index) {
            let node = self.nodes[index as int]->0;
            self.with_node(index, NodeView { stats: node.merged_stats(interval), ..node })
        } else {
            self
        }
    }

    /// The chain after the node at `index` sent the results of its
    /// hardware benchmark.
    pub open spec fn update_hwbench(self, index: usize, hwbench: NodeHwBench) -> ChainView {
        if self.holds(index) {
            let node = self.nodes[index as int]->0;
            self.with_node(index, NodeView { hwbench: Some(hwbench), ..node })
        } else {
            self
        }
    }

    /// The chain after the node at `index` reported the time that a block
    /// took it, for its history.
    pub open spec fn insert_historical(
        self,
        index: usize,
        block_hash: BlockHash,
        block_height: u32,
        duration: u64,
        kind: IntervalKind,
    ) -> ChainView {
        if self.holds(index) {
            let node = self.nodes[index as int]->0;
            self.with_node(
                index,
                NodeView {
                    history: timed(node.history, duration, block_hash, block_height, kind),
                    ..node
                },
            )
        } else {
            self
        }
    }

    /// The chain after the node at `index` gave its validator address.
    pub open spec fn set_validator_address(self, index: usize, address: Seq<char>) -> ChainView {
        if self.holds(index) {
            let node = self.nodes[index as int]->0;
            self.with_node(
                index,
                NodeView {
                    details: NodeDetailsView { validator: Some(address), ..node.details },
                    ..node
                },
            )
        } else {
            self
        }
    }

    /// The chain after the place of the node at `index` was found out.
    pub open spec fn update_location(self, index: usize, location: Option<NodeLocationView>)
        -> ChainView {
        if self.holds(index) {
            let node = self.nodes[index as int]->0;
            self.with_node(index, NodeView { location, ..node })
        } else {
            self
        }
    }

    /// What the block window records of an interval: the interval under
    /// its kind, and nothing under the other kinds.
    pub open spec fn details_of(interval: IntervalView) -> DetailsView {
        DetailsView {
            proposal: if interval.kind == IntervalKind::Proposal {
                Some(interval)
            } else {
                None
            },
            import: if interval.kind == IntervalKind::Import {
                Some(interval)
            } else {
                None
            },
            sync: if interval.kind == IntervalKind::Sync {
                Some(interval)
            } else {
                None
            },
        }
    }

    /// How long an interval lasted, in ms; nothing for one that ends
    /// before it starts.
    pub open spec fn duration_of(interval: IntervalView) -> u64 {
        if interval.end_timestamp >= interval.start_timestamp {
            (interval.end_timestamp - interval.start_timestamp) as u64
        } else {
            0
        }
    }

    /// The chain after the node at `index` reported `interval` for
    /// `block`: the block window records it for that node, and if the block
    /// is the node's best block, so do the details of that block.
    pub open spec fn update_interval(self, index: usize, block: Block, interval: IntervalView)
        -> ChainView {
        if self.holds(index) {
            let node = self.nodes[index as int]->0;
            let timed = if node.best.block == block {
                NodeView {
                    best: node.with_interval(Self::duration_of(interval), interval.kind),
                    ..node
                }
            } else {
                node
            };
            ChainView {
                blocks: observe(self.blocks, block, identity_of(node), Self::details_of(interval)),
                ..self.with_node(index, timed)
            }
        } else {
            self
        }
    }

    /// Whether a report of a best block at `now` by the node at `index`
    /// can be taken in: the node's best block must not be newer than
    /// `now`, and the end of a throttle interval from `now` must be
    /// tellable.
    pub open spec fn in_time(self, index: usize, now: Timestamp) -> bool {
        self.holds(index) && self.nodes[index as int]->0.best.block_timestamp <= now && now
            + THROTTLE_INTERVAL <= u64::MAX
    }

    /// The chain after the node at `index` reported `payload` at `now`.
    /// A report of a best block that is not in time is dropped.
    pub open spec fn update_node(self, index: usize, payload: PayloadView, now: Timestamp)
        -> ChainView {
        match payload {
            PayloadView::BestBlock { block } => if self.in_time(index, now) {
                self.update_block(index, block, now)
            } else {
                self
            },
            PayloadView::FinalizedBlock { block } => self.update_finalized(index, block),
            PayloadView::SystemInterval { counters } => self.update_stats(index, counters),
            PayloadView::HwBench { hwbench } => self.update_hwbench(index, hwbench),
            PayloadView::Interval { block, interval } => self.update_interval(
                index,
                block,
                interval,
            ),
            PayloadView::HistoricalInterval {
                block_hash,
                block_height,
                duration,
                kind,
            } => self.insert_historical(index, block_hash, block_height, duration, kind),
            PayloadView::ValidatorAddress { address } => self.set_validator_address(
                index,
                address,
            ),
            PayloadView::Location { location } => self.update_location(index, location),
        }
    }

    /// What the report `payload` of the node at `index` at `now` changes
    /// at that node.
    pub open spec fn change(self, index: usize, payload: PayloadView, now: Timestamp) -> NodeChange {
        if !self.holds(index) {
            NodeChange::Unchanged
        } else {
            let node = self.nodes[index as int]->0;
            match payload {
                PayloadView::BestBlock { block } => if self.in_time(index, now)
                    && self.accepts_block(index, block) {
                    NodeChange::NewBest {
                        passed: if node.passes_details(now) {
                            Some(self.update_block(index, block, now).nodes[index as int]->0.best)
                        } else {
                            None
                        },
                    }
                } else {
                    NodeChange::Unchanged
                },
                PayloadView::FinalizedBlock { block } => if block.height > node.finalized.height {
                    NodeChange::Changed
                } else {
                    NodeChange::Unchanged
                },
                PayloadView::SystemInterval { counters } => if node.merged_stats(counters)
                    != node.stats {
                    NodeChange::Changed
                } else {
                    NodeChange::Unchanged
                },
                PayloadView::ValidatorAddress { address } => if node.details.validator != Some(
                    address,
                ) {
                    NodeChange::Changed
                } else {
                    NodeChange::Unchanged
                },
                _ => NodeChange::Changed,
            }
        }
    }

    /// The average of the block times taken in so far, if any was.
    pub open spec fn average_block_time(self) -> Option<u64> {
        if self.block_time_count > 0 {
            Some(self.block_time_sum / self.block_time_count)
        } else {
            None
        }
    }
}

/// A node that connects or a node that leaves.
pub ghost enum Membership {
    Admit { node: NodeView },
    Leave { index: usize },
}

/// The chain after nodes connected and left as `changes` say, in turn.
pub open spec fn after_changes(chain: ChainView, changes: Seq<Membership>) -> ChainView
    decreases changes.len(),
{
    if changes.len() == 0 {
        chain
    } else {
        let earlier = after_changes(chain, changes.drop_last());
        match changes.last() {
            Membership::Admit { node } => earlier.add_node(node),
            Membership::Leave { index } => earlier.remove_node(index),
        }
    }
}

/// The greatest count of nodes is the high-water mark of the count: however
/// nodes connect to and leave a chain in order, it is no less than the count
/// has been at any point, and it is what it was at the start or the count
/// at some point.
pub proof fn lemma_max_nodes_is_high_water(chain: ChainView, changes: Seq<Membership>)
    requires
        forall|k: int|
            0 <= k <= changes.len() ==> (#[trigger] after_changes(chain, changes.take(k))).wf(),
        chain.node_count + changes.len() <= usize::MAX,
    ensures
        forall|k: int|
            0 <= k <= changes.len() ==> (#[trigger] after_changes(
                chain,
                changes.take(k),
            )).node_count <= after_changes(chain, changes).max_nodes,
        after_changes(chain, changes).max_nodes == chain.max_nodes || exists|k: int|
            0 <= k <= changes.len() && (#[trigger] after_changes(chain, changes.take(k))).node_count
                == after_changes(chain, changes).max_nodes,
        after_changes(chain, changes).node_count <= chain.node_count + changes.len(),
    decreases changes.len(),
{
    let n = changes.len() as int;
    assert(changes.take(n) =~= changes);
    assert(changes.take(0) =~= Seq::<Membership>::empty());
    assert(after_changes(chain, changes.take(0)).wf());
    if n > 0 {
        let earlier = changes.drop_last();
        assert(changes.take(n - 1) =~= earlier);
        assert forall|k: int| 0 <= k <= earlier.len() implies (#[trigger] after_changes(
            chain,
            earlier.take(k),
        )).wf() by {
            assert(changes.take(k) =~= earlier.take(k));
        }
        lemma_max_nodes_is_high_water(chain, earlier);
        let before = after_changes(chain, earlier);
        let after = after_changes(chain, changes);
        assert(before.wf()) by {
            assert(after_changes(chain, changes.take(n - 1)).wf());
        }
        assert(after.wf()) by {
            assert(after_changes(chain, changes.take(n)).wf());
        }
        match changes.last() {
            Membership::Admit { node } => {},
            Membership::Leave { index } => {
                if before.holds(index) {
                    lemma_count_after_update(before.nodes, index as int, None);
                }
            },
        }
        assert forall|k: int| 0 <= k <= n implies (#[trigger] after_changes(
            chain,
            changes.take(k),
        )).node_count <= after.max_nodes by {
            if k < n {
                assert(changes.take(k) =~= earlier.take(k));
            }
        }
        if after.max_nodes != chain.max_nodes {
            if after.max_nodes == before.max_nodes {
                let k = choose|k: int|
                    0 <= k <= earlier.len() && (#[trigger] after_changes(
                        chain,
                        earlier.take(k),
                    )).node_count == before.max_nodes;
                assert(changes.take(k) =~= earlier.take(k));
            } else {
                assert(after_changes(chain, changes.take(n)).node_count == after.max_nodes);
            }
        }
    }
}

impl Chain {
    /// The invariant of the chain holds.
    pub open spec fn wf(&self) -> bool {
        self@.wf()
    }

    /// A chain without nodes.
    pub fn new(genesis_hash: BlockHash) -> (r: Self)
        ensures
            r.wf(),
            r@ == ChainView::empty(genesis_hash),
    {
        let r = Chain {
            genesis_hash,
            nodes: Vec::new(),
            free: Vec::new(),
            node_count: 0,
            max_nodes: 0,
            blocks: StoredBlocks::new(),
            best: Block::zero(),
            finalized: Block::zero(),
            timestamp: None,
            block_time_sum: 0,
            block_time_count: 0,
        };
        assert(r@.nodes =~= Seq::<Option<NodeView>>::empty());
        r
    }

    /// The genesis hash of the chain.
    pub fn genesis_hash(&self) -> (r: BlockHash)
        ensures
            r == self@.genesis_hash,
    {
        self.genesis_hash
    }

    /// How many nodes the chain has.
    pub fn node_count(&self) -> (r: usize)
        ensures
            r == self@.node_count,
    {
        self.node_count
    }

    /// The greatest number of nodes the chain has had.
    pub fn max_nodes(&self) -> (r: usize)
        ensures
            r == self@.max_nodes,
    {
        self.max_nodes
    }

    /// The highest block that any node has reported as its best.
    pub fn best_block(&self) -> (r: &Block)
        ensures
            *r == self@.best,
    {
        &self.best
    }

    /// The highest block that any node has reported as finalized.
    pub fn finalized_block(&self) -> (r: &Block)
        ensures
            *r == self@.finalized,
    {
        &self.finalized
    }

    /// The average time between blocks, once one is known.
    pub fn average_block_time(&self) -> (r: Option<u64>)
        ensures
            r == self@.average_block_time(),
    {
        if self.block_time_count > 0 {
            Some(self.block_time_sum / self.block_time_count)
        } else {
            None
        }
    }

    /// The block window of the chain.
    pub fn blocks(&self) -> (r: &StoredBlocks)
        ensures
            r@ == self@.blocks,
            self.wf() ==> r.wf(),
    {
        &self.blocks
    }

    /// The nodes by index, with `None` where a node has left.
    pub fn nodes_slice(&self) -> (r: &Vec<Option<Node>>)
        ensures
            r@.map_values(|n: Option<Node>| view_opt(n)) == self@.nodes,
            r@.len() == self@.nodes.len(),
    {
        &self.nodes
    }

    /// The node at `index`, if there is one.
    pub fn get_node(&self, index: usize) -> (r: Option<&Node>)
        ensures
            r is Some == self@.holds(index),
            r matches Some(node) ==> self@.nodes[index as int] == Some(node@),
    {
        if index < self.nodes.len() {
            self.nodes[index].as_ref()
        } else {
            None
        }
    }

    /// The index of the node with identity `identity`, if there is one.
    pub fn find_node(&self, identity: &UniqueNodeIdentity) -> (r: Option<usize>)
        ensures
            r == self@.index_of(identity@),
    {
        let n = self.nodes.len();
        let mut i: usize = 0;
        while i < n
            invariant
                n == self.nodes@.len(),
                i <= n,
                forall|k: int| 0 <= k < i ==> !has_identity(identity@)(#[trigger] self@.nodes[k]),
            decreases n - i,
        {
            if let Some(node) = &self.nodes[i] {
                let own = node.identity();
                if own.node_name == identity.node_name && own.network_id == identity.network_id {
                    proof {
                        lemma_first_index_is(self@.nodes, has_identity(identity@), i as int);
                    }
                    return Some(i);
                }
            }
            i += 1;
        }
        proof {
            lemma_first_index_is(self@.nodes, has_identity(identity@), n as int);
        }
        None
    }

    /// Admits `node` and returns its index. A node with the same identity
    /// is replaced at its index; otherwise the node gets the index that was
    /// freed last, or a new one.
    pub fn add_node(&mut self, node: Node) -> (index: usize)
        requires
            old(self).wf(),
            node.wf(),
            old(self)@.nodes.len() < usize::MAX,
        ensures
            final(self).wf(),
            final(self)@ == old(self)@.add_node(node@),
            index == old(self)@.slot_for(identity_of(node@)),
            final(self)@.nodes[index as int] == Some(node@),
    {
        let identity = node.identity();
        let ghost before = self@;
        let ghost admitted = node@;
        proof {
            lemma_first_index_bounds(before.nodes, has_identity(identity@));
            lemma_count_bounded(before.nodes);
        }
        match self.find_node(&identity) {
            Some(i) => {
                self.nodes[i] = Some(node);
                proof {
                    assert(self@.nodes =~= before.nodes.update(i as int, Some(admitted)));
                    lemma_count_after_update(before.nodes, i as int, Some(admitted));
                    assert forall|a: int, b: int|
                        0 <= a < b < self@.nodes.len() && (#[trigger] self@.nodes[a]) is Some && (
                        #[trigger] self@.nodes[b]) is Some implies identity_of(self@.nodes[a]->0)
                        != identity_of(self@.nodes[b]->0) by {
                        assert(before.nodes[a] is Some && before.nodes[b] is Some);
                    }
                    assert forall|a: int| 0 <= a < self@.nodes.len() implies ((
                    #[trigger] self@.nodes[a]) is None <==> self@.free.contains(a as usize)) by {
                        assert(before.nodes[a] is None <==> before.free.contains(a as usize));
                    }
                }
                i
            },
            None => {
                self.node_count = self.node_count + 1;
                if self.node_count > self.max_nodes {
                    self.max_nodes = self.node_count;
                }
                match self.free.pop() {
                    Some(slot) => {
                        assert(before.free.contains(slot)) by {
                            assert(before.free[before.free.len() - 1] == slot);
                        }
                        assert(before.nodes[slot as int] is None);
                        self.nodes[slot] = Some(node);
                        proof {
                            assert(self@.nodes =~= before.nodes.update(slot as int, Some(admitted)));
                            lemma_count_after_update(before.nodes, slot as int, Some(admitted));
                            assert(self@.free =~= before.free.drop_last());
                            assert forall|a: int, b: int|
                                0 <= a < b < self@.nodes.len() && (#[trigger] self@.nodes[a]) is Some
                                    && (#[trigger] self@.nodes[b]) is Some implies identity_of(
                                self@.nodes[a]->0,
                            ) != identity_of(self@.nodes[b]->0) by {
                                if a == slot {
                                    assert(!has_identity(identity@)(before.nodes[b]));
                                } else if b == slot {
                                    assert(!has_identity(identity@)(before.nodes[a]));
                                } else {
                                    assert(before.nodes[a] is Some && before.nodes[b] is Some);
                                }
                            }
                            assert forall|a: int| 0 <= a < self@.nodes.len() implies ((
                            #[trigger] self@.nodes[a]) is None <==> self@.free.contains(
                                a as usize,
                            )) by {
                                assert(before.nodes[a] is None <==> before.free.contains(a as usize));
                                if before.free.contains(a as usize) {
                                    let k = choose|k: int|
                                        0 <= k < before.free.len() && before.free[k] == a as usize;
                                    if a != slot {
                                        assert(self@.free[k] == a as usize);
                                    }
                                }
                                if self@.free.contains(a as usize) {
                                    let k = choose|k: int|
                                        0 <= k < self@.free.len() && self@.free[k] == a as usize;
                                    assert(before.free[k] == a as usize);
                                }
                            }
                        }
                        slot
                    },
                    None => {
                        let index = self.nodes.len();
                        self.nodes.push(Some(node));
                        proof {
                            assert(self@.nodes =~= before.nodes.push(Some(admitted)));
                            lemma_count_after_push(before.nodes, Some(admitted));
                            assert forall|a: int, b: int|
                                0 <= a < b < self@.nodes.len() && (#[trigger] self@.nodes[a]) is Some
                                    && (#[trigger] self@.nodes[b]) is Some implies identity_of(
                                self@.nodes[a]->0,
                            ) != identity_of(self@.nodes[b]->0) by {
                                if b == index {
                                    assert(!has_identity(identity@)(before.nodes[a]));
                                } else {
                                    assert(before.nodes[a] is Some && before.nodes[b] is Some);
                                }
                            }
                            assert forall|a: int| 0 <= a < self@.nodes.len() implies ((
                            #[trigger] self@.nodes[a]) is None <==> self@.free.contains(
                                a as usize,
                            )) by {
                                if a < index {
                                    assert(before.nodes[a] is None <==> before.free.contains(
                                        a as usize,
                                    ));
                                }
                            }
                        }
                        index
                    },
                }
            },
        }
    }

    /// Takes the node at `index` out of the chain and returns it. Nothing
    /// happens where there is no node.
    pub fn remove_node(&mut self, index: usize) -> (r: Option<Node>)
        requires
            old(self).wf(),
        ensures
            final(self).wf(),
            final(self)@ == old(self)@.remove_node(index),
            r is Some == old(self)@.holds(index),
            r matches Some(node) ==> old(self)@.nodes[index as int] == Some(node@),
    {
        let ghost before = self@;
        if index < self.nodes.len() && self.nodes[index].is_some() {
            let node = self.nodes[index].take();
            proof {
                lemma_count_after_update(before.nodes, index as int, None);
                lemma_count_bounded(before.nodes.update(index as int, None));
                assert(self@.nodes =~= before.nodes.update(index as int, None));
            }
            self.free.push(index);
            self.node_count = self.node_count - 1;
            proof {
                assert(!before.free.contains(index));
                assert forall|a: int, b: int|
                    0 <= a < b < self@.nodes.len() && (#[trigger] self@.nodes[a]) is Some && (
                    #[trigger] self@.nodes[b]) is Some implies identity_of(self@.nodes[a]->0)
                    != identity_of(self@.nodes[b]->0) by {
                    assert(before.nodes[a] is Some && before.nodes[b] is Some);
                }
                assert forall|a: int| 0 <= a < self@.nodes.len() implies ((
                #[trigger] self@.nodes[a]) is None <==> self@.free.contains(a as usize)) by {
                    assert(before.nodes[a] is None <==> before.free.contains(a as usize));
                    if a == index {
                        assert(self@.free[self@.free.len() - 1] == index);
                    }
                    if before.free.contains(a as usize) {
                        let k = choose|k: int|
                            0 <= k < before.free.len() && before.free[k] == a as usize;
                        assert(self@.free[k] == a as usize);
                    }
                    if self@.free.contains(a as usize) && a != index {
                        let k = choose|k: int|
                            0 <= k < self@.free.len() && self@.free[k] == a as usize;
                        assert(before.free[k] == a as usize);
                    }
                }
                assert(self@.free.no_duplicates()) by {
                    assert forall|a: int, b: int|
                        0 <= a < self@.free.len() && 0 <= b < self@.free.len() && a
                            != b implies self@.free[a] != self@.free[b] by {
                        if a == before.free.len() {
                            assert(before.free[b] == self@.free[b]);
                        } else if b == before.free.len() {
                            assert(before.free[a] == self@.free[a]);
                        }
                    }
                }
            }
            node
        } else {
            None
        }
    }

    /// Takes in that the node at `index` reported `block` as its best
    /// block at `now`, and returns the new details of that block if they
    /// are to be passed on. A block that is not above the node's best one
    /// changes nothing.
    pub fn update_block(&mut self, index: usize, block: Block, now: Timestamp) -> (r: Option<
        BlockDetails,
    >)
        requires
            old(self).wf(),
            old(self)@.holds(index) ==> old(self)@.nodes[index as int]->0.best.block_timestamp
                <= now,
            now + THROTTLE_INTERVAL <= u64::MAX,
        ensures
            final(self).wf(),
            final(self)@ == old(self)@.update_block(index, block, now),
            r is Some == (old(self)@.accepts_block(index, block) && old(self)@.nodes[index as int]->0.passes_details(
                now,
            )),
            r matches Some(details) ==> details == final(self)@.nodes[index as int]->0.best,
    {
        let ghost before = self@;
        if index >= self.nodes.len() {
            return None;
        }
        let propagation_time = if block.height > self.best.height {
            Some(0u64)
        } else if block.height == self.best.height {
            match self.timestamp {
                Some(since) => Some(if now >= since {
                    now - since
                } else {
                    0
                }),
                None => None,
            }
        } else {
            None
        };
        let passed = match &mut self.nodes[index] {
            Some(node) => {
                if node.update_block(block) {
                    let passed = match node.update_details(now, propagation_time) {
                        Some(details) => Some(*details),
                        None => None,
                    };
                    Some((passed, node.block_details().block_time))
                } else {
                    None
                }
            },
            None => None,
        };
        match passed {
            Some((details, block_time)) => {
                if block.height > self.best.height {
                    self.best = block;
                    self.timestamp = Some(now);
                }
                self.block_time_sum = self.block_time_sum.saturating_add(block_time);
                self.block_time_count = self.block_time_count.saturating_add(1);
                proof {
                    let node = before.nodes[index as int]->0.update_block(block).update_details(
                        now,
                        before.propagation_time(block, now),
                    );
                    assert(self@.nodes =~= before.nodes.update(index as int, Some(node)));
                    lemma_count_after_update(before.nodes, index as int, Some(node));
                    assert forall|a: int, b: int|
                        0 <= a < b < self@.nodes.len() && (#[trigger] self@.nodes[a]) is Some && (
                        #[trigger] self@.nodes[b]) is Some implies identity_of(self@.nodes[a]->0)
                        != identity_of(self@.nodes[b]->0) by {
                        assert(before.nodes[a] is Some && before.nodes[b] is Some);
                    }
                    assert forall|a: int| 0 <= a < self@.nodes.len() implies ((
                    #[trigger] self@.nodes[a]) is None <==> self@.free.contains(a as usize)) by {
                        assert(before.nodes[a] is None <==> before.free.contains(a as usize));
                    }
                    assert forall|a: int|
                        0 <= a < self@.nodes.len() && (#[trigger] self@.nodes[a]) is Some implies self@.nodes[a]->0.history.len()
                        <= MAX_QUEUE_SIZE by {
                        assert(before.nodes[a] is Some);
                    }
                }
                details
            },
            None => {
                assert(self@.nodes =~= before.nodes);
                None
            },
        }
    }

    /// Takes in that the node at `index` reported `block` as finalized,
    /// and returns whether the node took it as its finalized block.
    pub fn update_finalized(&mut self, index: usize, block: Block) -> (r: bool)
        requires
            old(self).wf(),
        ensures
            final(self).wf(),
            final(self)@ == old(self)@.update_finalized(index, block),
            r == (old(self)@.holds(index) && block.height > old(self)@.nodes[index as int]->0.finalized.height),
    {
        let ghost before = self@;
        if index >= self.nodes.len() {
            return false;
        }
        let taken = match &mut self.nodes[index] {
            Some(node) => Some(node.update_finalized(block).is_some()),
            None => None,
        };
        match taken {
            Some(changed) => {
                if block.height > self.finalized.height {
                    self.finalized = block;
                }
                proof {
                    let node = before.nodes[index as int]->0.update_finalized(block);
                    assert(self@.nodes =~= before.nodes.update(index as int, Some(node)));
                    lemma_count_after_update(before.nodes, index as int, Some(node));
                    assert forall|a: int, b: int|
                        0 <= a < b < self@.nodes.len() && (#[trigger] self@.nodes[a]) is Some && (
                        #[trigger] self@.nodes[b]) is Some implies identity_of(self@.nodes[a]->0)
                        != identity_of(self@.nodes[b]->0) by {
                        assert(before.nodes[a] is Some && before.nodes[b] is Some);
                    }
                    assert forall|a: int| 0 <= a < self@.nodes.len() implies ((
                    #[trigger] self@.nodes[a]) is None <==> self@.free.contains(a as usize)) by {
                        assert(before.nodes[a] is None <==> before.free.contains(a as usize));
                    }
                    assert forall|a: int|
                        0 <= a < self@.nodes.len() && (#[trigger] self@.nodes[a]) is Some implies self@.nodes[a]->0.history.len()
                        <= MAX_QUEUE_SIZE by {
                        assert(before.nodes[a] is Some);
                    }
                }
                changed
            },
            None => {
                assert(self@.nodes =~= before.nodes);
                false
            },
        }
    }

    /// Records in the block window what `identity` observed of `block`.
    pub fn new_block_entry(
        &mut self,
        identity: UniqueNodeIdentity,
        block: Block,
        proposal: Option<IntervalFromNode>,
        import: Option<IntervalFromNode>,
        sync: Option<IntervalFromNode>,
    )
        requires
            old(self).wf(),
        ensures
            final(self).wf(),
            final(self)@ == (ChainView {
                blocks: observe(
                    old(self)@.blocks,
                    block,
                    identity@,
                    DetailsView {
                        proposal: view_opt(proposal),
                        import: view_opt(import),
                        sync: view_opt(sync),
                    },
                ),
                ..old(self)@
            }),
    {
        self.blocks.new_entry(identity, block, proposal, import, sync);
    }

    /// Takes in the counters of a periodic report of the node at `index`
    /// and returns whether any of the node's counters changed.
    pub fn update_stats(&mut self, index: usize, interval: &SystemInterval) -> (r: bool)
        requires
            old(self).wf(),
        ensures
            final(self).wf(),
            final(self)@ == old(self)@.update_stats(index, *interval),
            r == (old(self)@.holds(index) && old(self)@.nodes[index as int]->0.merged_stats(
                *interval,
            ) != old(self)@.nodes[index as int]->0.stats),
    {
        let ghost before = self@;
        if index >= self.nodes.len() {
            return false;
        }
        let changed = match &mut self.nodes[index] {
            Some(node) => node.update_stats(interval).is_some(),
            None => false,
        };
        proof {
            if before.holds(index) {
                lemma_node_replaced(before, self@, index as int);
                assert(self@.nodes =~= before.update_stats(index, *interval).nodes);
            } else {
                assert(self@.nodes =~= before.nodes);
            }
        }
        changed
    }

    /// Takes in the results of the hardware benchmark of the node at
    /// `index` and returns its earlier results.
    pub fn update_hwbench(&mut self, index: usize, hwbench: NodeHwBench) -> (r: Option<NodeHwBench>)
        requires
            old(self).wf(),
        ensures
            final(self).wf(),
            final(self)@ == old(self)@.update_hwbench(index, hwbench),
            r == if old(self)@.holds(index) {
                old(self)@.nodes[index as int]->0.hwbench
            } else {
                None
            },
    {
        let ghost before = self@;
        if index >= self.nodes.len() {
            return None;
        }
        let earlier = match &mut self.nodes[index] {
            Some(node) => node.update_hwbench(hwbench),
            None => None,
        };
        proof {
            if before.holds(index) {
                lemma_node_replaced(before, self@, index as int);
                assert(self@.nodes =~= before.update_hwbench(index, hwbench).nodes);
            } else {
                assert(self@.nodes =~= before.nodes);
            }
        }
        earlier
    }

    /// Records in the history of the node at `index` that the block
    /// `block_hash` took it `duration` ms of kind `kind`.
    pub fn insert_historical(
        &mut self,
        index: usize,
        block_hash: BlockHash,
        block_height: u32,
        duration: u64,
        kind: IntervalKind,
    )
        requires
            old(self).wf(),
        ensures
            final(self).wf(),
            final(self)@ == old(self)@.insert_historical(
                index,
                block_hash,
                block_height,
                duration,
                kind,
            ),
    {
        let ghost before = self@;
        if index >= self.nodes.len() {
            return ;
        }
        match &mut self.nodes[index] {
            Some(node) => {
                node.insert_historical_block_data(block_hash, block_height, duration, kind);
            },
            None => {},
        }
        proof {
            if before.holds(index) {
                lemma_node_replaced(before, self@, index as int);
                assert(self@.nodes =~= before.insert_historical(
                    index,
                    block_hash,
                    block_height,
                    duration,
                    kind,
                ).nodes);
            } else {
                assert(self@.nodes =~= before.nodes);
            }
        }
    }

    /// Sets the validator address of the node at `index` and returns
    /// whether that changed it.
    pub fn set_validator_address(&mut self, index: usize, address: String) -> (r: bool)
        requires
            old(self).wf(),
        ensures
            final(self).wf(),
            final(self)@ == old(self)@.set_validator_address(index, address@),
            r == (old(self)@.holds(index) && old(self)@.nodes[index as int]->0.details.validator
                != Some(address@)),
    {
        let ghost before = self@;
        let ghost text = address@;
        if index >= self.nodes.len() {
            return false;
        }
        let changed = match &mut self.nodes[index] {
            Some(node) => node.set_validator_address(address),
            None => false,
        };
        proof {
            if before.holds(index) {
                lemma_node_replaced(before, self@, index as int);
                assert(self@.nodes =~= before.set_validator_address(index, text).nodes);
            } else {
                assert(self@.nodes =~= before.nodes);
            }
        }
        changed
    }

    /// Sets where the node at `index` is.
    pub fn update_location(&mut self, index: usize, location: Option<NodeLocation>)
        requires
            old(self).wf(),
        ensures
            final(self).wf(),
            final(self)@ == old(self)@.update_location(index, view_opt(location)),
    {
        let ghost before = self@;
        let ghost place = view_opt(location);
        if index >= self.nodes.len() {
            return ;
        }
        match &mut self.nodes[index] {
            Some(node) => {
                node.update_location(location);
            },
            None => {},
        }
        proof {
            if before.holds(index) {
                lemma_node_replaced(before, self@, index as int);
                assert(self@.nodes =~= before.update_location(index, place).nodes);
            } else {
                assert(self@.nodes =~= before.nodes);
            }
        }
    }

    /// Takes in that the node at `index` reported `interval` for `block`:
    /// the block window records it, and so do the details of the node's
    /// best block if `block` is that block.
    pub fn update_interval(&mut self, index: usize, block: Block, interval: IntervalFromNode)
        requires
            old(self).wf(),
        ensures
            final(self).wf(),
            final(self)@ == old(self)@.update_interval(index, block, interval@),
    {
        let ghost before = self@;
        let ghost shown = interval@;
        if index >= self.nodes.len() {
            return ;
        }
        let duration = if interval.end_timestamp >= interval.start_timestamp {
            interval.end_timestamp - interval.start_timestamp
        } else {
            0
        };
        let kind = interval.kind;
        let identity = match &mut self.nodes[index] {
            Some(node) => {
                if node.best().height == block.height && node.best().hash.same(&block.hash) {
                    node.insert_block_details_interval(duration, kind);
                }
                Some(node.identity())
            },
            None => None,
        };
        match identity {
            Some(identity) => {
                proof {
                    lemma_node_replaced(before, self@, index as int);
                }
                let (proposal, import, sync) = match kind {
                    IntervalKind::Proposal => (Some(interval), None, None),
                    IntervalKind::Import => (None, Some(interval), None),
                    IntervalKind::Sync => (None, None, Some(interval)),
                };
                self.blocks.new_entry(identity, block, proposal, import, sync);
                assert(self@.nodes =~= before.update_interval(index, block, shown).nodes);
            },
            None => {
                assert(self@.nodes =~= before.nodes);
            },
        }
    }

    /// Takes in what the node at `index` reported at `now`, and returns
    /// what that changed at the node.
    pub fn update_node(&mut self, index: usize, payload: Payload, now: Timestamp) -> (r: NodeChange)
        requires
            old(self).wf(),
        ensures
            final(self).wf(),
            final(self)@ == old(self)@.update_node(index, payload@, now),
            r == old(self)@.change(index, payload@, now),
    {
        if self.get_node(index).is_none() {
            proof {
                let before = self@;
                assert(before.update_node(index, payload@, now) == before);
            }
            return NodeChange::Unchanged;
        }
        match payload {
            Payload::BestBlock { block } => {
                let accepted = match self.get_node(index) {
                    Some(node) => node.best_timestamp() <= now && now <= u64::MAX
                        - THROTTLE_INTERVAL && block.height > node.best().height,
                    None => false,
                };
                if accepted {
                    let passed = self.update_block(index, block, now);
                    NodeChange::NewBest { passed }
                } else {
                    NodeChange::Unchanged
                }
            },
            Payload::FinalizedBlock { block } => {
                if self.update_finalized(index, block) {
                    NodeChange::Changed
                } else {
                    NodeChange::Unchanged
                }
            },
            Payload::SystemInterval { counters } => {
                if self.update_stats(index, &counters) {
                    NodeChange::Changed
                } else {
                    NodeChange::Unchanged
                }
            },
            Payload::HwBench { hwbench } => {
                self.update_hwbench(index, hwbench);
                NodeChange::Changed
            },
            Payload::Interval { block, interval } => {
                self.update_interval(index, block, interval);
                NodeChange::Changed
            },
            Payload::HistoricalInterval { block_hash, block_height, duration, kind } => {
                self.insert_historical(index, block_hash, block_height, duration, kind);
                NodeChange::Changed
            },
            Payload::ValidatorAddress { address } => {
                if self.set_validator_address(index, address) {
                    NodeChange::Changed
                } else {
                    NodeChange::Unchanged
                }
            },
            Payload::Location { location } => {
                self.update_location(index, location);
                NodeChange::Changed
            },
        }
    }
}

} // verus!
