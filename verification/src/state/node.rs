//! One node of a chain: who it is and what it last reported.

use crate::byte_order::{
    compare_text, lemma_text_lt_total, lemma_text_lt_transitive, text_lt, Rank,
};
use crate::decimal::{parse_decimal, parse_text};
use crate::node_message::{IntervalKind, SystemInterval};
use crate::node_types::{
    view_opt, zero_block, Block, BlockDetails, BlockHash, NodeDetails, NodeDetailsView,
    NodeHwBench, NodeLocation, NodeLocationView, NodeStats, Timestamp,
};
use crate::scan::{first_index, lemma_first_index_is};
use std::collections::VecDeque;
use vstd::prelude::*;

verus! {

/// What tells one node of a chain from another: its name and its network id.
/// Identities are ordered by name, then by network id.
#[derive(Debug)]
pub struct UniqueNodeIdentity {
    pub node_name: String,
    pub network_id: String,
}

/// An identity as two sequences of characters.
pub ghost struct IdentityView {
    pub node_name: Seq<char>,
    pub network_id: Seq<char>,
}

impl View for UniqueNodeIdentity {
    type V = IdentityView;

    open spec fn view(&self) -> IdentityView {
        IdentityView { node_name: self.node_name@, network_id: self.network_id@ }
    }
}

/// Identity `a` precedes identity `b`.
pub open spec fn identity_lt(a: IdentityView, b: IdentityView) -> bool {
    text_lt(a.node_name, b.node_name) || (a.node_name == b.node_name && text_lt(
        a.network_id,
        b.network_id,
    ))
}

/// The three-way comparison that `identity_lt` induces.
pub open spec fn identity_rank(a: IdentityView, b: IdentityView) -> Rank {
    if identity_lt(a, b) {
        Rank::Below
    } else if a == b {
        Rank::Same
    } else {
        Rank::Above
    }
}

/// Precedence of identities is transitive.
pub proof fn lemma_identity_lt_transitive(a: IdentityView, b: IdentityView, c: IdentityView)
    requires
        identity_lt(a, b),
        identity_lt(b, c),
    ensures
        identity_lt(a, c),
{
    lemma_text_lt_total(a.node_name, b.node_name);
    lemma_text_lt_total(b.node_name, c.node_name);
    if text_lt(a.node_name, b.node_name) && text_lt(b.node_name, c.node_name) {
        lemma_text_lt_transitive(a.node_name, b.node_name, c.node_name);
    }
    if a.node_name == b.node_name && b.node_name == c.node_name {
        lemma_text_lt_transitive(a.network_id, b.network_id, c.network_id);
    }
}

/// Of two identities exactly one holds: the first precedes, they are equal,
/// or the second precedes.
pub proof fn lemma_identity_lt_total(a: IdentityView, b: IdentityView)
    ensures
        identity_lt(a, b) || identity_lt(b, a) || a == b,
        !(identity_lt(a, b) && identity_lt(b, a)),
        a == b ==> !identity_lt(a, b),
{
    lemma_text_lt_total(a.node_name, b.node_name);
    lemma_text_lt_total(a.network_id, b.network_id);
}

impl UniqueNodeIdentity {
    /// Compares two identities by name, then by network id.
    pub fn rank(&self, other: &UniqueNodeIdentity) -> (r: Rank)
        ensures
            r == identity_rank(self@, other@),
    {
        proof {
            lemma_identity_lt_total(self@, other@);
            lemma_text_lt_total(self.node_name@, other.node_name@);
        }
        match compare_text(self.node_name.as_str(), other.node_name.as_str()) {
            Rank::Below => Rank::Below,
            Rank::Above => Rank::Above,
            Rank::Same => compare_text(self.network_id.as_str(), other.network_id.as_str()),
        }
    }
}

impl Clone for UniqueNodeIdentity {
    fn clone(&self) -> (r: Self)
        ensures
            r@ == self@,
    {
        UniqueNodeIdentity {
            node_name: self.node_name.clone(),
            network_id: self.network_id.clone(),
        }
    }
}

/// Below this time between two blocks, in ms, updates of the best block are
/// throttled.
pub const THROTTLE_THRESHOLD: u64 = 100;

/// While throttled, the least time between two updates that are passed on,
/// in ms.
pub const THROTTLE_INTERVAL: u64 = 1000;

/// How many blocks a node's history keeps.
pub const MAX_QUEUE_SIZE: usize = 128;

/// How long one node took over one block.
#[derive(Clone, Copy, Debug)]
pub struct BlockHistoricalData {
    pub block_height: u32,
    pub block_hash: BlockHash,
    pub proposal_time: Option<u64>,
    pub sync_time: Option<u64>,
    pub import_time: Option<u64>,
}

/// The history entries for the block `hash`.
pub open spec fn for_hash(hash: BlockHash) -> spec_fn(BlockHistoricalData) -> bool {
    |b: BlockHistoricalData| b.block_hash == hash
}

/// The entry for a block of which no time is known yet.
pub open spec fn untimed(hash: BlockHash, height: u32) -> BlockHistoricalData {
    BlockHistoricalData {
        block_height: height,
        block_hash: hash,
        proposal_time: None,
        sync_time: None,
        import_time: None,
    }
}

/// `b` with `value` as its time of kind `kind`.
pub open spec fn with_time(b: BlockHistoricalData, value: u64, kind: IntervalKind)
    -> BlockHistoricalData {
    match kind {
        IntervalKind::Proposal => BlockHistoricalData { proposal_time: Some(value), ..b },
        IntervalKind::Sync => BlockHistoricalData { sync_time: Some(value), ..b },
        IntervalKind::Import => BlockHistoricalData { import_time: Some(value), ..b },
    }
}

/// The history `s` after the time `value` of kind `kind` was reported for
/// the block `hash`: the first entry for that hash takes it; without one, a
/// new entry is appended and, past `MAX_QUEUE_SIZE` entries, the oldest
/// leaves.
pub open spec fn timed(
    s: Seq<BlockHistoricalData>,
    value: u64,
    hash: BlockHash,
    height: u32,
    kind: IntervalKind,
) -> Seq<BlockHistoricalData> {
    let i = first_index(s, for_hash(hash));
    if i < s.len() {
        s.update(i, with_time(s[i], value, kind))
    } else {
        let grown = s.push(with_time(untimed(hash, height), value, kind));
        if grown.len() > MAX_QUEUE_SIZE {
            grown.drop_first()
        } else {
            grown
        }
    }
}

/// The timings of the last blocks that a node worked on, oldest first.
#[derive(Debug)]
pub struct HistoricalData {
    blocks: VecDeque<BlockHistoricalData>,
}

impl View for HistoricalData {
    type V = Seq<BlockHistoricalData>;

    closed spec fn view(&self) -> Seq<BlockHistoricalData> {
        self.blocks@
    }
}

impl HistoricalData {
    /// The history holds at most `MAX_QUEUE_SIZE` blocks.
    pub open spec fn wf(&self) -> bool {
        self@.len() <= MAX_QUEUE_SIZE
    }

    /// An empty history.
    pub fn new() -> (r: Self)
        ensures
            r.wf(),
            r@ == Seq::<BlockHistoricalData>::empty(),
    {
        HistoricalData { blocks: VecDeque::new() }
    }

    /// The number of blocks in the history.
    pub fn len(&self) -> (r: usize)
        ensures
            r == self@.len(),
    {
        self.blocks.len()
    }

    /// The entry at `index`, counted from the oldest.
    pub fn get(&self, index: usize) -> (r: Option<BlockHistoricalData>)
        ensures
            r == if index < self@.len() {
                Some(self@[index as int])
            } else {
                None
            },
    {
        if index < self.blocks.len() {
            Some(self.blocks[index])
        } else {
            None
        }
    }

    /// The index of the first entry for `block_hash`. Where there is none,
    /// one is appended for it, after which the oldest entry leaves if the
    /// history is over its size.
    fn get_or_insert_block(&mut self, block_hash: BlockHash, block_height: u32) -> (index: usize)
        requires
            old(self).wf(),
        ensures
            final(self).wf(),
            index < final(self)@.len(),
            first_index(old(self)@, for_hash(block_hash)) < old(self)@.len() ==> {
                &&& final(self)@ == old(self)@
                &&& index == first_index(old(self)@, for_hash(block_hash))
            },
            first_index(old(self)@, for_hash(block_hash)) >= old(self)@.len() ==> {
                let grown = old(self)@.push(untimed(block_hash, block_height));
                &&& index == final(self)@.len() - 1
                &&& final(self)@ == if grown.len() > MAX_QUEUE_SIZE {
                    grown.drop_first()
                } else {
                    grown
                }
            },
    {
        let n = self.blocks.len();
        let mut i: usize = 0;
        while i < n && !self.blocks[i].block_hash.same(&block_hash)
            invariant
                n == self@.len(),
                i <= n,
                self@ == old(self)@,
                forall|k: int| 0 <= k < i ==> !for_hash(block_hash)(#[trigger] self@[k]),
            decreases n - i,
        {
            i += 1;
        }
        proof {
            lemma_first_index_is(self@, for_hash(block_hash), i as int);
        }
        if i < n {
            i
        } else {
            self.new_block(block_hash, block_height);
            self.blocks.len() - 1
        }
    }

    /// Appends an entry for a block; the oldest entry leaves if the history
    /// is then over its size.
    fn new_block(&mut self, block_hash: BlockHash, block_height: u32)
        requires
            old(self).wf(),
        ensures
            final(self).wf(),
            final(self)@.len() > 0,
            final(self)@ == ({
                let grown = old(self)@.push(untimed(block_hash, block_height));
                if grown.len() > MAX_QUEUE_SIZE {
                    grown.drop_first()
                } else {
                    grown
                }
            }),
    {
        self.blocks.push_back(
            BlockHistoricalData {
                block_height,
                block_hash,
                proposal_time: None,
                sync_time: None,
                import_time: None,
            },
        );
        if self.blocks.len() > MAX_QUEUE_SIZE {
            let ghost grown = self@;
            self.blocks.pop_front();
            assert(self@ =~= grown.drop_first());
        }
    }

    /// Records that the block `block_hash` took `value` ms of kind `kind`.
    /// A block already in the history does not make it longer.
    pub fn insert_block_time(
        &mut self,
        value: u64,
        block_hash: BlockHash,
        block_height: u32,
        kind: IntervalKind,
    )
        requires
            old(self).wf(),
        ensures
            final(self).wf(),
            final(self)@ == timed(old(self)@, value, block_hash, block_height, kind),
            first_index(old(self)@, for_hash(block_hash)) < old(self)@.len() ==> final(self)@.len()
                == old(self)@.len(),
    {
        let index = self.get_or_insert_block(block_hash, block_height);
        let ghost found = self@;
        let taken = self.blocks.remove(index);
        let mut block = taken.unwrap();
        match kind {
            IntervalKind::Proposal => {
                block.proposal_time = Some(value);
            },
            IntervalKind::Sync => {
                block.sync_time = Some(value);
            },
            IntervalKind::Import => {
                block.import_time = Some(value);
            },
        }
        self.blocks.insert(index, block);
        assert(self@ =~= found.update(index as int, with_time(found[index as int], value, kind)));
        assert(self@ =~= timed(old(self)@, value, block_hash, block_height, kind));
    }
}

/// One node of a chain.
#[derive(Debug)]
pub struct Node {
    /// What the node said of itself when it connected.
    details: NodeDetails,
    /// Its latest counters.
    stats: NodeStats,
    /// Its best block.
    best: BlockDetails,
    /// Its finalized block.
    finalized: Block,
    /// Until when updates of the best block are held back.
    throttle: u64,
    /// Where it is, once that is known.
    location: Option<NodeLocation>,
    /// Whether it has stopped syncing or producing blocks.
    stale: bool,
    /// When it started up.
    startup_time: Option<Timestamp>,
    /// The results of its hardware benchmark.
    hwbench: Option<NodeHwBench>,
    /// How long it took over its last blocks.
    historical_data: HistoricalData,
}

/// The state of a node.
pub ghost struct NodeView {
    pub details: NodeDetailsView,
    pub stats: NodeStats,
    pub best: BlockDetails,
    pub finalized: Block,
    pub throttle: u64,
    pub location: Option<NodeLocationView>,
    pub stale: bool,
    pub startup_time: Option<Timestamp>,
    pub hwbench: Option<NodeHwBench>,
    pub history: Seq<BlockHistoricalData>,
}

impl View for Node {
    type V = NodeView;

    closed spec fn view(&self) -> NodeView {
        NodeView {
            details: self.details@,
            stats: self.stats,
            best: self.best,
            finalized: self.finalized,
            throttle: self.throttle,
            location: view_opt(self.location),
            stale: self.stale,
            startup_time: self.startup_time,
            hwbench: self.hwbench,
            history: self.historical_data@,
        }
    }
}

impl NodeView {
    /// The state of a node that has just connected at `now` with
    /// `details`: the time of its start is read from the details and taken
    /// out of them, and nothing else is known of it.
    pub open spec fn connected(details: NodeDetailsView, now: Timestamp) -> NodeView {
        NodeView {
            details: NodeDetailsView { startup_time: None, ..details },
            stats: NodeStats { peers: 0, txcount: 0 },
            best: BlockDetails::start(now),
            finalized: zero_block(),
            throttle: 0,
            location: None,
            stale: false,
            startup_time: startup_of(details.startup_time),
            hwbench: None,
            history: Seq::empty(),
        }
    }

    /// The state after the node reported `block` as its best block: a
    /// higher block replaces the best one and ends staleness.
    pub open spec fn update_block(self, block: Block) -> NodeView {
        if block.height > self.best.block.height {
            NodeView { best: BlockDetails { block, ..self.best }, stale: false, ..self }
        } else {
            self
        }
    }

    /// Whether an update of the best block's details at `timestamp` is
    /// passed on, not held back.
    pub open spec fn passes_details(self, timestamp: u64) -> bool {
        self.throttle < timestamp
    }

    /// The state after the details of the best block were updated at
    /// `timestamp`. Where the update is passed on and the block came within
    /// `THROTTLE_THRESHOLD` of the one before, later updates are held back
    /// until `THROTTLE_INTERVAL` has gone by.
    pub open spec fn update_details(self, timestamp: u64, propagation_time: Option<u64>)
        -> NodeView {
        let block_time = (timestamp - self.best.block_timestamp) as u64;
        NodeView {
            best: BlockDetails {
                block: self.best.block,
                block_time,
                block_timestamp: timestamp,
                propagation_time,
                proposal_time: None,
                sync_time: None,
                import_time: None,
            },
            throttle: if self.passes_details(timestamp) && block_time <= THROTTLE_THRESHOLD {
                (timestamp + THROTTLE_INTERVAL) as u64
            } else {
                self.throttle
            },
            ..self
        }
    }

    /// The counters after a periodic report: those that it holds replace
    /// the old ones.
    pub open spec fn merged_stats(self, interval: SystemInterval) -> NodeStats {
        NodeStats {
            peers: match interval.peers {
                Some(peers) => peers,
                None => self.stats.peers,
            },
            txcount: match interval.txcount {
                Some(txcount) => txcount,
                None => self.stats.txcount,
            },
        }
    }

    /// The state after the node reported `block` as finalized: a higher
    /// block replaces the finalized one.
    pub open spec fn update_finalized(self, block: Block) -> NodeView {
        if block.height > self.finalized.height {
            NodeView { finalized: block, ..self }
        } else {
            self
        }
    }

    /// The state after staleness was judged against `threshold`: a node
    /// whose best block is older becomes stale.
    pub open spec fn update_stale(self, threshold: u64) -> NodeView {
        NodeView { stale: self.stale || self.best.block_timestamp < threshold, ..self }
    }

    /// The best block's details with `duration` as the time of kind `kind`.
    pub open spec fn with_interval(self, duration: u64, kind: IntervalKind) -> BlockDetails {
        match kind {
            IntervalKind::Proposal => BlockDetails { proposal_time: Some(duration), ..self.best },
            IntervalKind::Sync => BlockDetails { sync_time: Some(duration), ..self.best },
            IntervalKind::Import => BlockDetails { import_time: Some(duration), ..self.best },
        }
    }
}

/// The time that the text of a node's details gives for its start.
pub open spec fn startup_of(text: Option<Seq<char>>) -> Option<Timestamp> {
    match text {
        Some(t) => parse_text(t),
        None => None,
    }
}

impl Node {
    /// The history holds at most `MAX_QUEUE_SIZE` blocks.
    pub open spec fn wf(&self) -> bool {
        self@.history.len() <= MAX_QUEUE_SIZE
    }

    /// A node that has just connected at `now` with `details`. The time of
    /// its start is read from the details and taken out of them.
    pub fn new(details: NodeDetails, now: Timestamp) -> (r: Self)
        ensures
            r.wf(),
            r@ == NodeView::connected(details@, now),
    {
        let mut details = details;
        let startup_time = match details.startup_time.take() {
            Some(time) => parse_decimal(time.as_str()),
            None => None,
        };
        Node {
            details,
            stats: NodeStats::new(),
            best: BlockDetails::starting_at(now),
            finalized: Block::zero(),
            throttle: 0,
            location: None,
            stale: false,
            startup_time,
            hwbench: None,
            historical_data: HistoricalData::new(),
        }
    }

    /// What the node said of itself when it connected.
    pub fn details(&self) -> (r: &NodeDetails)
        ensures
            r@ == self@.details,
    {
        &self.details
    }

    /// The name and network id that tell this node from the others.
    pub fn identity(&self) -> (r: UniqueNodeIdentity)
        ensures
            r@ == (IdentityView {
                node_name: self@.details.name,
                network_id: self@.details.network_id,
            }),
    {
        UniqueNodeIdentity {
            node_name: self.details.name.clone(),
            network_id: self.details.network_id.clone(),
        }
    }

    /// Whether the node said that it is an authority.
    pub fn is_authority(&self) -> (r: Option<bool>)
        ensures
            r == self@.details.is_authority,
    {
        self.details.is_authority
    }

    /// The latest counters.
    pub fn stats(&self) -> (r: &NodeStats)
        ensures
            *r == self@.stats,
    {
        &self.stats
    }

    /// The best block.
    pub fn best(&self) -> (r: &Block)
        ensures
            *r == self@.best.block,
    {
        &self.best.block
    }

    /// When the best block was last updated.
    pub fn best_timestamp(&self) -> (r: u64)
        ensures
            r == self@.best.block_timestamp,
    {
        self.best.block_timestamp
    }

    /// The finalized block.
    pub fn finalized(&self) -> (r: &Block)
        ensures
            *r == self@.finalized,
    {
        &self.finalized
    }

    /// Where the node is, if that is known.
    pub fn location(&self) -> (r: Option<&NodeLocation>)
        ensures
            r is Some == self@.location is Some,
            r matches Some(l) ==> self@.location == Some(l@),
    {
        self.location.as_ref()
    }

    /// Sets where the node is.
    pub fn update_location(&mut self, location: Option<NodeLocation>)
        ensures
            final(self)@ == (NodeView { location: view_opt(location), ..old(self)@ }),
    {
        self.location = location;
    }

    /// What is known about the best block.
    pub fn block_details(&self) -> (r: &BlockDetails)
        ensures
            *r == self@.best,
    {
        &self.best
    }

    /// The results of the hardware benchmark, once the node has sent them.
    pub fn hwbench(&self) -> (r: Option<&NodeHwBench>)
        ensures
            r is Some == self@.hwbench is Some,
            r matches Some(h) ==> self@.hwbench == Some(*h),
    {
        self.hwbench.as_ref()
    }

    /// Replaces the benchmark results and returns the earlier ones.
    pub fn update_hwbench(&mut self, hwbench: NodeHwBench) -> (r: Option<NodeHwBench>)
        ensures
            r == old(self)@.hwbench,
            final(self)@ == (NodeView { hwbench: Some(hwbench), ..old(self)@ }),
    {
        let earlier = self.hwbench;
        self.hwbench = Some(hwbench);
        earlier
    }

    /// Takes `block` as the best block if it is higher than the current
    /// one, which also ends staleness. Returns whether it was taken.
    pub fn update_block(&mut self, block: Block) -> (r: bool)
        ensures
            r == (block.height > old(self)@.best.block.height),
            final(self)@ == old(self)@.update_block(block),
            final(self)@.best.block.height >= old(self)@.best.block.height,
    {
        if block.height > self.best.block.height {
            self.stale = false;
            self.best.block = block;
            true
        } else {
            false
        }
    }

    /// Updates the details of the best block at `timestamp` and returns
    /// them, unless updates are being held back.
    pub fn update_details(&mut self, timestamp: u64, propagation_time: Option<u64>) -> (r: Option<
        &BlockDetails,
    >)
        requires
            old(self)@.best.block_timestamp <= timestamp,
            timestamp + THROTTLE_INTERVAL <= u64::MAX,
        ensures
            final(self)@ == old(self)@.update_details(timestamp, propagation_time),
            r is Some == old(self)@.passes_details(timestamp),
            r matches Some(details) ==> *details == final(self)@.best,
    {
        self.best.block_time = timestamp - self.best.block_timestamp;
        self.best.block_timestamp = timestamp;
        self.best.propagation_time = propagation_time;
        self.best.sync_time = None;
        self.best.proposal_time = None;
        self.best.import_time = None;
        if self.throttle < timestamp {
            if self.best.block_time <= THROTTLE_THRESHOLD {
                self.throttle = timestamp + THROTTLE_INTERVAL;
            }
            Some(&self.best)
        } else {
            None
        }
    }

    /// Takes the counters of a periodic report and returns the counters if
    /// any of them changed.
    pub fn update_stats(&mut self, interval: &SystemInterval) -> (r: Option<&NodeStats>)
        ensures
            final(self)@ == (NodeView {
                stats: old(self)@.merged_stats(*interval),
                ..old(self)@
            }),
            r is Some == (final(self)@.stats != old(self)@.stats),
            r matches Some(stats) ==> *stats == final(self)@.stats,
    {
        let mut changed = false;
        if let Some(peers) = interval.peers {
            if peers != self.stats.peers {
                self.stats.peers = peers;
                changed = true;
            }
        }
        if let Some(txcount) = interval.txcount {
            if txcount != self.stats.txcount {
                self.stats.txcount = txcount;
                changed = true;
            }
        }
        if changed {
            Some(&self.stats)
        } else {
            None
        }
    }

    /// Takes `block` as the finalized block if it is higher than the
    /// current one, and returns it if it was taken.
    pub fn update_finalized(&mut self, block: Block) -> (r: Option<&Block>)
        ensures
            final(self)@ == old(self)@.update_finalized(block),
            final(self)@.finalized.height >= old(self)@.finalized.height,
            r is Some == (block.height > old(self)@.finalized.height),
            r matches Some(taken) ==> *taken == block,
    {
        if block.height > self.finalized.height {
            self.finalized = block;
            Some(&self.finalized)
        } else {
            None
        }
    }

    /// Marks the node stale if its best block is older than `threshold`,
    /// and returns whether it is stale.
    pub fn update_stale(&mut self, threshold: u64) -> (r: bool)
        ensures
            final(self)@ == old(self)@.update_stale(threshold),
            r == final(self)@.stale,
    {
        if self.best.block_timestamp < threshold {
            self.stale = true;
        }
        self.stale
    }

    /// Whether the node is stale.
    pub fn stale(&self) -> (r: bool)
        ensures
            r == self@.stale,
    {
        self.stale
    }

    /// Sets the validator address and returns whether that changed it.
    pub fn set_validator_address(&mut self, addr: String) -> (r: bool)
        ensures
            r == (old(self)@.details.validator != Some(addr@)),
            final(self)@ == (NodeView {
                details: NodeDetailsView { validator: Some(addr@), ..old(self)@.details },
                ..old(self)@
            }),
    {
        let same = match &self.details.validator {
            Some(current) => *current == addr,
            None => false,
        };
        if same {
            false
        } else {
            self.details.validator = Some(addr);
            true
        }
    }

    /// When the node started up, if it said so.
    pub fn startup_time(&self) -> (r: Option<Timestamp>)
        ensures
            r == self@.startup_time,
    {
        self.startup_time
    }

    /// Sets how long the best block took in the way of `kind`.
    pub fn insert_block_details_interval(&mut self, duration: u64, kind: IntervalKind)
        ensures
            final(self)@ == (NodeView {
                best: old(self)@.with_interval(duration, kind),
                ..old(self)@
            }),
    {
        match kind {
            IntervalKind::Proposal => {
                self.best.proposal_time = Some(duration);
            },
            IntervalKind::Sync => {
                self.best.sync_time = Some(duration);
            },
            IntervalKind::Import => {
                self.best.import_time = Some(duration);
            },
        }
    }

    /// Records in the node's history that the block `block_hash` took
    /// `duration` ms of kind `kind`.
    pub fn insert_historical_block_data(
        &mut self,
        block_hash: BlockHash,
        block_height: u32,
        duration: u64,
        kind: IntervalKind,
    )
        requires
            old(self).wf(),
        ensures
            final(self).wf(),
            final(self)@ == (NodeView {
                history: timed(old(self)@.history, duration, block_hash, block_height, kind),
                ..old(self)@
            }),
    {
        self.historical_data.insert_block_time(duration, block_hash, block_height, kind);
    }

    /// How long the node took over its last blocks.
    pub fn historical_data(&self) -> (r: &HistoricalData)
        ensures
            r@ == self@.history,
    {
        &self.historical_data
    }
}

/// The state after the node reported each of `blocks` in turn as its best
/// block.
pub open spec fn after_blocks(node: NodeView, blocks: Seq<Block>) -> NodeView
    decreases blocks.len(),
{
    if blocks.len() == 0 {
        node
    } else {
        after_blocks(node, blocks.drop_last()).update_block(blocks.last())
    }
}

/// The state after the node reported each of `blocks` in turn as finalized.
pub open spec fn after_finalized(node: NodeView, blocks: Seq<Block>) -> NodeView
    decreases blocks.len(),
{
    if blocks.len() == 0 {
        node
    } else {
        after_finalized(node, blocks.drop_last()).update_finalized(blocks.last())
    }
}

/// After any run of calls of `update_block` the height of the best block
/// is the greatest height seen: it is no less than the height at the start
/// or that of any reported block, and it is one of them.
pub proof fn lemma_best_height_is_greatest(node: NodeView, blocks: Seq<Block>)
    ensures
        after_blocks(node, blocks).best.block.height >= node.best.block.height,
        forall|i: int|
            0 <= i < blocks.len() ==> after_blocks(node, blocks).best.block.height
                >= (#[trigger] blocks[i]).height,
        after_blocks(node, blocks).best.block.height == node.best.block.height || exists|i: int|
            0 <= i < blocks.len() && after_blocks(node, blocks).best.block == #[trigger] blocks[i],
    decreases blocks.len(),
{
    if blocks.len() > 0 {
        let earlier = blocks.drop_last();
        lemma_best_height_is_greatest(node, earlier);
        let before = after_blocks(node, earlier);
        let after = after_blocks(node, blocks);
        assert forall|i: int| 0 <= i < blocks.len() implies after.best.block.height >= (
        #[trigger] blocks[i]).height by {
            if i < earlier.len() {
                assert(earlier[i] == blocks[i]);
            }
        }
        if after.best.block.height != node.best.block.height {
            if blocks.last().height > before.best.block.height {
                assert(after.best.block == blocks[blocks.len() - 1]);
            } else {
                let i = choose|i: int|
                    0 <= i < earlier.len() && before.best.block == #[trigger] earlier[i];
                assert(after.best.block == blocks[i]);
            }
        }
    }
}

/// After any run of calls of `update_finalized` the height of the
/// finalized block is the greatest height seen: it is no less than the
/// height at the start or that of any reported block, and it is one of them.
pub proof fn lemma_finalized_height_is_greatest(node: NodeView, blocks: Seq<Block>)
    ensures
        after_finalized(node, blocks).finalized.height >= node.finalized.height,
        forall|i: int|
            0 <= i < blocks.len() ==> after_finalized(node, blocks).finalized.height
                >= (#[trigger] blocks[i]).height,
        after_finalized(node, blocks).finalized.height == node.finalized.height || exists|i: int|
            0 <= i < blocks.len() && after_finalized(node, blocks).finalized == #[trigger] blocks[i],
    decreases blocks.len(),
{
    if blocks.len() > 0 {
        let earlier = blocks.drop_last();
        lemma_finalized_height_is_greatest(node, earlier);
        let before = after_finalized(node, earlier);
        let after = after_finalized(node, blocks);
        assert forall|i: int| 0 <= i < blocks.len() implies after.finalized.height >= (
        #[trigger] blocks[i]).height by {
            if i < earlier.len() {
                assert(earlier[i] == blocks[i]);
            }
        }
        if after.finalized.height != node.finalized.height {
            if blocks.last().height > before.finalized.height {
                assert(after.finalized == blocks[blocks.len() - 1]);
            } else {
                let i = choose|i: int|
                    0 <= i < earlier.len() && before.finalized == #[trigger] earlier[i];
                assert(after.finalized == blocks[i]);
            }
        }
    }
}

/// One call of `update_details`.
pub ghost struct DetailsUpdate {
    pub timestamp: u64,
    pub propagation_time: Option<u64>,
}

/// The state after each of `updates` in turn.
pub open spec fn after_details(node: NodeView, updates: Seq<DetailsUpdate>) -> NodeView
    decreases updates.len(),
{
    if updates.len() == 0 {
        node
    } else {
        after_details(node, updates.drop_last()).update_details(
            updates.last().timestamp,
            updates.last().propagation_time,
        )
    }
}

/// Whether `updates` can be made one after the other: no update is earlier
/// than the one before it or than the best block at the start, and none is
/// so late that the end of its throttle interval cannot be told.
pub open spec fn in_time_order(node: NodeView, updates: Seq<DetailsUpdate>) -> bool {
    &&& forall|i: int|
        0 <= i < updates.len() ==> node.best.block_timestamp <= (#[trigger] updates[i]).timestamp
            && updates[i].timestamp + THROTTLE_INTERVAL <= u64::MAX
    &&& forall|i: int, j: int|
        0 <= i < j < updates.len() ==> (#[trigger] updates[i]).timestamp <= (
        #[trigger] updates[j]).timestamp
}

/// Whether update `i` of `updates` is passed on.
pub open spec fn passed(node: NodeView, updates: Seq<DetailsUpdate>, i: int) -> bool {
    after_details(node, updates.take(i)).passes_details(updates[i].timestamp)
}

/// The time between update `i` of `updates` and the update before it.
pub open spec fn block_time_at(node: NodeView, updates: Seq<DetailsUpdate>, i: int) -> int {
    updates[i].timestamp - after_details(node, updates.take(i)).best.block_timestamp
}

proof fn lemma_details_timestamp(node: NodeView, updates: Seq<DetailsUpdate>)
    ensures
        after_details(node, updates).best.block_timestamp == if updates.len() == 0 {
            node.best.block_timestamp
        } else {
            updates.last().timestamp
        },
    decreases updates.len(),
{
}

proof fn lemma_throttle_holds(node: NodeView, updates: Seq<DetailsUpdate>, i: int, k: int)
    requires
        in_time_order(node, updates),
        0 <= i < k <= updates.len(),
        passed(node, updates, i),
        block_time_at(node, updates, i) <= THROTTLE_THRESHOLD,
        forall|l: int|
            i < l < k ==> (#[trigger] updates[l]).timestamp <= updates[i].timestamp
                + THROTTLE_INTERVAL,
    ensures
        after_details(node, updates.take(k)).throttle == updates[i].timestamp + THROTTLE_INTERVAL,
        forall|l: int| i < l < k ==> !passed(node, updates, l),
    decreases k - i,
{
    assert(updates.take(k).drop_last() =~= updates.take(k - 1));
    assert(updates.take(k).last() == updates[k - 1]);
    lemma_details_timestamp(node, updates.take(i));
    if k - 1 > i {
        lemma_throttle_holds(node, updates, i, k - 1);
    }
}

/// While blocks come within `THROTTLE_THRESHOLD` of each other, at most one
/// update is passed on per `THROTTLE_INTERVAL`: after an update that is
/// passed on for such a block, every update up to `THROTTLE_INTERVAL` later
/// is held back.
pub proof fn lemma_one_update_per_interval(
    node: NodeView,
    updates: Seq<DetailsUpdate>,
    i: int,
    j: int,
)
    requires
        in_time_order(node, updates),
        0 <= i < j < updates.len(),
        passed(node, updates, i),
        block_time_at(node, updates, i) <= THROTTLE_THRESHOLD,
        updates[j].timestamp <= updates[i].timestamp + THROTTLE_INTERVAL,
    ensures
        !passed(node, updates, j),
{
    lemma_throttle_holds(node, updates, i, j);
}

} // verus!
