//! A rolling record, per chain, of which nodes reported which interval for
//! which block, newest height first.

use crate::node_message::IntervalKind;
use crate::node_types::{view_opt, view_seq, Block, BlockHash, BlockNumber, NodeDetails, NodeStats};
use crate::scan::{first_index, lemma_first_index_is};
use std::collections::VecDeque;
use vstd::prelude::*;

verus! {

/// How many heights a `ChainOverview` keeps.
pub const MAX_BLOCKS_SIZE: usize = 15;

/// One interval that one node reported for one block.
#[derive(Debug)]
pub struct BlockStats {
    node_id: usize,
    node_name: String,
    node_network_id: String,
    kind: IntervalKind,
    start: String,
    end: String,
    duration_in_ms: u64,
}

/// A reported interval, with its texts as sequences of characters.
pub ghost struct BlockStatsView {
    pub node_id: usize,
    pub node_name: Seq<char>,
    pub node_network_id: Seq<char>,
    pub kind: IntervalKind,
    pub start: Seq<char>,
    pub end: Seq<char>,
    pub duration_in_ms: u64,
}

impl View for BlockStats {
    type V = BlockStatsView;

    closed spec fn view(&self) -> BlockStatsView {
        BlockStatsView {
            node_id: self.node_id,
            node_name: self.node_name@,
            node_network_id: self.node_network_id@,
            kind: self.kind,
            start: self.start@,
            end: self.end@,
            duration_in_ms: self.duration_in_ms,
        }
    }
}

/// The intervals reported for one block hash, in the order they arrived.
#[derive(Debug)]
pub struct BlockHashStats {
    hash: BlockHash,
    data: Vec<BlockStats>,
}

/// The intervals reported for one block hash.
pub ghost struct BlockHashStatsView {
    pub hash: BlockHash,
    pub data: Seq<BlockStatsView>,
}

impl View for BlockHashStats {
    type V = BlockHashStatsView;

    closed spec fn view(&self) -> BlockHashStatsView {
        BlockHashStatsView {
            hash: self.hash,
            data: view_seq(self.data@),
        }
    }
}

/// The hashes seen at one height, in the order they were first seen.
pub ghost struct HeightStatsView {
    pub height: BlockNumber,
    pub hashes: Seq<BlockHashStatsView>,
}

/// The rolling record of a chain: at most `MAX_BLOCKS_SIZE` heights, the
/// greatest first.
#[derive(Debug)]
pub struct ChainOverview {
    blocks: VecDeque<(BlockNumber, Vec<BlockHashStats>)>,
}

/// The entries at height `height`.
pub open spec fn at_height(height: BlockNumber) -> spec_fn(HeightStatsView) -> bool {
    |e: HeightStatsView| e.height == height
}

/// The entries below height `height`.
pub open spec fn below_height(height: BlockNumber) -> spec_fn(HeightStatsView) -> bool {
    |e: HeightStatsView| e.height < height
}

/// The entries for hash `hash`.
pub open spec fn with_hash(hash: BlockHash) -> spec_fn(BlockHashStatsView) -> bool {
    |h: BlockHashStatsView| h.hash == hash
}

/// The intervals of kind proposal.
pub open spec fn is_proposal() -> spec_fn(BlockStatsView) -> bool {
    |d: BlockStatsView| d.kind == IntervalKind::Proposal
}

/// Each height is greater than all that follow it.
pub open spec fn heights_descend(s: Seq<HeightStatsView>) -> bool {
    forall|i: int, j: int| 0 <= i < j < s.len() ==> s[i].height > s[j].height
}

/// `hashes` after `value` was reported for `hash`: appended to the intervals
/// of that hash, or to a new entry behind the others.
pub open spec fn add_stat(
    hashes: Seq<BlockHashStatsView>,
    hash: BlockHash,
    value: BlockStatsView,
) -> Seq<BlockHashStatsView> {
    let j = first_index(hashes, with_hash(hash));
    if j < hashes.len() {
        hashes.update(j, BlockHashStatsView { hash: hashes[j].hash, data: hashes[j].data.push(value) })
    } else {
        hashes.push(BlockHashStatsView { hash, data: seq![value] })
    }
}

/// The record `s` after `value` was reported for the block `hash` at
/// `height`. A known height takes the interval in; a new height enters
/// where the descending order puts it. Past `MAX_BLOCKS_SIZE` heights the
/// lowest one leaves.
pub open spec fn record(
    s: Seq<HeightStatsView>,
    hash: BlockHash,
    height: BlockNumber,
    value: BlockStatsView,
) -> Seq<HeightStatsView> {
    let i = first_index(s, at_height(height));
    let grown = if i < s.len() {
        s.update(i, HeightStatsView { height, hashes: add_stat(s[i].hashes, hash, value) })
    } else {
        s.insert(
            first_index(s, below_height(height)),
            HeightStatsView {
                height,
                hashes: seq![BlockHashStatsView { hash, data: seq![value] }],
            },
        )
    };
    if grown.len() > MAX_BLOCKS_SIZE {
        grown.drop_last()
    } else {
        grown
    }
}

/// A height at which more than one hash was seen, with those hashes.
#[derive(Debug)]
pub struct BlockNumberToHashes {
    pub block_number: BlockNumber,
    pub block_hashes: Vec<BlockHash>,
}

/// A fork as a height and the sequence of its hashes.
pub ghost struct BlockNumberToHashesView {
    pub block_number: BlockNumber,
    pub block_hashes: Seq<BlockHash>,
}

impl View for BlockNumberToHashes {
    type V = BlockNumberToHashesView;

    open spec fn view(&self) -> BlockNumberToHashesView {
        BlockNumberToHashesView {
            block_number: self.block_number,
            block_hashes: self.block_hashes@,
        }
    }
}

/// The node that proposed a block, and when its proposal ended.
#[derive(Debug)]
pub struct BlockProducer {
    pub proposed_time: String,
    pub node_id: usize,
    pub node_name: String,
    pub node_network_id: String,
}

/// A block producer with its texts as sequences of characters.
pub ghost struct BlockProducerView {
    pub proposed_time: Seq<char>,
    pub node_id: usize,
    pub node_name: Seq<char>,
    pub node_network_id: Seq<char>,
}

impl View for BlockProducer {
    type V = BlockProducerView;

    open spec fn view(&self) -> BlockProducerView {
        BlockProducerView {
            proposed_time: self.proposed_time@,
            node_id: self.node_id,
            node_name: self.node_name@,
            node_network_id: self.node_network_id@,
        }
    }
}

/// One block of the record with the node that proposed it, if any did.
#[derive(Debug)]
pub struct BlockNumberToBlockData {
    pub block_number: BlockNumber,
    pub block_hashes: BlockHash,
    pub block_producer: Option<BlockProducer>,
}

/// A block of the record with its producer as a view.
pub ghost struct BlockNumberToBlockDataView {
    pub block_number: BlockNumber,
    pub block_hashes: BlockHash,
    pub block_producer: Option<BlockProducerView>,
}

impl View for BlockNumberToBlockData {
    type V = BlockNumberToBlockDataView;

    open spec fn view(&self) -> BlockNumberToBlockDataView {
        BlockNumberToBlockDataView {
            block_number: self.block_number,
            block_hashes: self.block_hashes,
            block_producer: view_opt(self.block_producer),
        }
    }
}

/// A node that runs some version of the node software.
#[derive(Debug)]
pub struct NodeImplementationData {
    pub id: usize,
    pub node_name: String,
    pub network_id: String,
}

/// A version of the node software and the nodes that run it.
#[derive(Debug)]
pub struct NodeImplementation {
    pub version: String,
    pub count: usize,
    pub nodes: Vec<NodeImplementationData>,
}

/// A node with its details, counters and blocks.
#[derive(Debug)]
pub struct NodeOverview {
    pub id: usize,
    pub details: NodeDetails,
    pub stats: NodeStats,
    pub best_block: Block,
    pub finalized_block: Block,
}

/// A node with its details, blocks, counters and staleness.
#[derive(Debug)]
pub struct NodeDetailsEx {
    pub node_id: usize,
    pub details: NodeDetails,
    pub best_block: Block,
    pub finalized_block: Block,
    pub best_block_timestamp: u64,
    pub peers: u64,
    pub txcount: u64,
    pub stale: bool,
}

/// Everything about one chain in a single value.
#[derive(Debug)]
pub struct ChainOverviewEx {
    pub genesis_hash: BlockHash,
    pub max_nodes: usize,
    pub node_count: usize,
    pub best_block: Block,
    pub finalized_block: Block,
    pub average_block_time: Option<u64>,
    pub forks: Vec<BlockNumberToHashes>,
    pub node_implementations: Vec<NodeImplementation>,
    pub blocks: Vec<BlockNumberToBlockData>,
    pub nodes: Vec<NodeDetailsEx>,
}

/// The entries that hold more than one hash.
pub open spec fn is_fork() -> spec_fn(HeightStatsView) -> bool {
    |e: HeightStatsView| e.hashes.len() > 1
}

/// The height of an entry with the hashes seen at it.
pub open spec fn fork_of(e: HeightStatsView) -> BlockNumberToHashesView {
    BlockNumberToHashesView {
        block_number: e.height,
        block_hashes: e.hashes.map_values(|h: BlockHashStatsView| h.hash),
    }
}

/// The forks of a record: its entries with more than one hash, in the order
/// of the record.
pub open spec fn forks_of(s: Seq<HeightStatsView>) -> Seq<BlockNumberToHashesView> {
    s.filter(is_fork()).map_values(|e: HeightStatsView| fork_of(e))
}

/// The producer of a block: the node of the first interval of kind
/// proposal among those reported for it.
pub open spec fn producer_of(data: Seq<BlockStatsView>) -> Option<BlockProducerView> {
    let k = first_index(data, is_proposal());
    if k < data.len() {
        Some(
            BlockProducerView {
                proposed_time: data[k].end,
                node_id: data[k].node_id,
                node_name: data[k].node_name,
                node_network_id: data[k].node_network_id,
            },
        )
    } else {
        None
    }
}

/// The blocks of one entry, in the order their hashes were first seen.
pub open spec fn block_rows(e: HeightStatsView) -> Seq<BlockNumberToBlockDataView> {
    e.hashes.map_values(
        |h: BlockHashStatsView|
            BlockNumberToBlockDataView {
                block_number: e.height,
                block_hashes: h.hash,
                block_producer: producer_of(h.data),
            },
    )
}

/// The blocks of a record, entry after entry.
pub open spec fn blocks_of(s: Seq<HeightStatsView>) -> Seq<BlockNumberToBlockDataView> {
    s.flat_map(|e: HeightStatsView| block_rows(e))
}

/// The view of one entry of the record.
pub closed spec fn height_stats_view(e: (BlockNumber, Vec<BlockHashStats>)) -> HeightStatsView {
    HeightStatsView { height: e.0, hashes: view_seq(e.1@) }
}

impl View for ChainOverview {
    type V = Seq<HeightStatsView>;

    closed spec fn view(&self) -> Seq<HeightStatsView> {
        self.blocks@.map_values(|e: (BlockNumber, Vec<BlockHashStats>)| height_stats_view(e))
    }
}

/// The producer among the intervals reported for one block.
fn find_producer(data: &Vec<BlockStats>) -> (r: Option<BlockProducer>)
    ensures
        view_opt(r) == producer_of(view_seq(data@)),
{
    let n = data.len();
    let mut k: usize = 0;
    while k < n && data[k].kind != IntervalKind::Proposal
        invariant
            n == data@.len(),
            k <= n,
            forall|l: int| 0 <= l < k ==> !is_proposal()(#[trigger] view_seq(data@)[l]),
        decreases n - k,
    {
        k += 1;
    }
    proof {
        lemma_first_index_is(view_seq(data@), is_proposal(), k as int);
    }
    if k < n {
        let stat = &data[k];
        Some(
            BlockProducer {
                proposed_time: stat.end.clone(),
                node_id: stat.node_id,
                node_name: stat.node_name.clone(),
                node_network_id: stat.node_network_id.clone(),
            },
        )
    } else {
        None
    }
}

impl ChainOverview {
    /// The heights descend and there are no more than `MAX_BLOCKS_SIZE`.
    pub open spec fn wf(&self) -> bool {
        &&& self@.len() <= MAX_BLOCKS_SIZE
        &&& heights_descend(self@)
    }

    /// An empty record.
    pub fn new() -> (r: Self)
        ensures
            r.wf(),
            r@ == Seq::<HeightStatsView>::empty(),
    {
        let r = ChainOverview { blocks: VecDeque::with_capacity(MAX_BLOCKS_SIZE + 5) };
        assert(r@ =~= Seq::<HeightStatsView>::empty());
        r
    }

    /// The heights at which more than one hash was seen, the greatest
    /// first, each with its hashes.
    pub fn get_forks(&self) -> (forks: Vec<BlockNumberToHashes>)
        requires
            self.wf(),
        ensures
            view_seq(forks@) == forks_of(self@),
            forall|a: int, b: int|
                0 <= a < b < forks@.len() ==> forks@[a].block_number > forks@[b].block_number,
    {
        let mut forks: Vec<BlockNumberToHashes> = Vec::new();
        let n = self.blocks.len();
        let mut i: usize = 0;
        assert(self@.take(0) =~= Seq::<HeightStatsView>::empty());
        assert(view_seq(forks@) =~= forks_of(self@.take(0)));
        while i < n
            invariant
                n == self.blocks@.len(),
                i <= n,
                self.wf(),
                view_seq(forks@) == forks_of(self@.take(i as int)),
                forall|a: int, b: int|
                    0 <= a < b < forks@.len() ==> forks@[a].block_number > forks@[b].block_number,
                forall|a: int, k: int|
                    0 <= a < forks@.len() && i <= k < n ==> (#[trigger] forks@[a]).block_number
                        > (#[trigger] self@[k]).height,
            decreases n - i,
        {
            let entry = &self.blocks[i];
            let ghost e = self@[i as int];
            proof {
                self@.lemma_take_succ_push(i as int);
                self@.take(i as int).lemma_filter_push(e, is_fork());
            }
            if entry.1.len() > 1 {
                let m = entry.1.len();
                let mut block_hashes: Vec<BlockHash> = Vec::new();
                let mut j: usize = 0;
                while j < m
                    invariant
                        m == entry.1@.len(),
                        j <= m,
                        e.hashes == view_seq(entry.1@),
                        block_hashes@ == e.hashes.map_values(|h: BlockHashStatsView| h.hash).take(
                            j as int,
                        ),
                    decreases m - j,
                {
                    block_hashes.push(entry.1[j].hash);
                    j += 1;
                    assert(block_hashes@ =~= e.hashes.map_values(
                        |h: BlockHashStatsView| h.hash,
                    ).take(j as int));
                }
                assert(block_hashes@ =~= e.hashes.map_values(|h: BlockHashStatsView| h.hash));
                let ghost known = view_seq(forks@);
                forks.push(BlockNumberToHashes { block_number: entry.0, block_hashes });
                assert(view_seq(forks@) =~= known.push(fork_of(e)));
                assert(forks_of(self@.take(i as int + 1)) =~= known.push(fork_of(e)));
            }
            i += 1;
        }
        assert(self@.take(n as int) =~= self@);
        forks
    }

    /// The blocks of the record, the greatest height first, each with the
    /// node that proposed it, if any did.
    pub fn get_blocks(&self) -> (result: Vec<BlockNumberToBlockData>)
        requires
            self.wf(),
        ensures
            view_seq(result@) == blocks_of(self@),
            forall|a: int, b: int|
                0 <= a < b < result@.len() ==> result@[a].block_number >= result@[b].block_number,
    {
        let mut result: Vec<BlockNumberToBlockData> = Vec::new();
        let n = self.blocks.len();
        let mut i: usize = 0;
        assert(self@.take(0) =~= Seq::<HeightStatsView>::empty());
        assert(view_seq(result@) =~= blocks_of(self@.take(0)));
        while i < n
            invariant
                n == self.blocks@.len(),
                i <= n,
                self.wf(),
                view_seq(result@) == blocks_of(self@.take(i as int)),
                forall|a: int, b: int|
                    0 <= a < b < result@.len() ==> result@[a].block_number
                        >= result@[b].block_number,
                forall|a: int, k: int|
                    0 <= a < result@.len() && i <= k < n ==> (#[trigger] result@[a]).block_number
                        >= (#[trigger] self@[k]).height,
            decreases n - i,
        {
            let entry = &self.blocks[i];
            let ghost e = self@[i as int];
            let ghost done = blocks_of(self@.take(i as int));
            let m = entry.1.len();
            let mut j: usize = 0;
            assert(view_seq(result@) =~= done + block_rows(e).take(0));
            while j < m
                invariant
                    n == self.blocks@.len(),
                    i < n,
                    self.wf(),
                    e == self@[i as int],
                    entry.0 == e.height,
                    m == entry.1@.len(),
                    j <= m,
                    e.hashes == view_seq(entry.1@),
                    view_seq(result@) == done + block_rows(e).take(j as int),
                    forall|a: int, b: int|
                        0 <= a < b < result@.len() ==> result@[a].block_number
                            >= result@[b].block_number,
                    forall|a: int, k: int|
                        0 <= a < result@.len() && i <= k < n ==> (#[trigger] result@[a]).block_number
                            >= (#[trigger] self@[k]).height,
                decreases m - j,
            {
                let block = &entry.1[j];
                let block_producer = find_producer(&block.data);
                let ghost known = view_seq(result@);
                result.push(
                    BlockNumberToBlockData {
                        block_number: entry.0,
                        block_hashes: block.hash,
                        block_producer,
                    },
                );
                assert(view_seq(result@) =~= known.push(block_rows(e)[j as int]));
                j += 1;
                assert(done + block_rows(e).take(j as int) =~= known.push(
                    block_rows(e)[j as int - 1],
                ));
            }
            proof {
                assert(block_rows(e).take(m as int) =~= block_rows(e));
                self@.lemma_take_succ_push(i as int);
                self@.take(i as int).lemma_flat_map_push(|e: HeightStatsView| block_rows(e), e);
            }
            i += 1;
        }
        assert(self@.take(n as int) =~= self@);
        result
    }

    /// Records that node `node_id` reported an interval of kind
    /// `interval_kind` for the block `block_hash` at `block_height`.
    pub fn new_data(
        &mut self,
        node_id: usize,
        node_name: String,
        node_network_id: String,
        block_hash: BlockHash,
        block_height: BlockNumber,
        interval_kind: IntervalKind,
        interval_start: String,
        interval_end: String,
        interval_duration: u64,
    )
        requires
            old(self).wf(),
        ensures
            final(self).wf(),
            final(self)@ == record(
                old(self)@,
                block_hash,
                block_height,
                BlockStatsView {
                    node_id,
                    node_name: node_name@,
                    node_network_id: node_network_id@,
                    kind: interval_kind,
                    start: interval_start@,
                    end: interval_end@,
                    duration_in_ms: interval_duration,
                },
            ),
    {
        let value = BlockStats {
            node_id,
            node_name,
            node_network_id,
            kind: interval_kind,
            start: interval_start,
            end: interval_end,
            duration_in_ms: interval_duration,
        };
        let ghost before = self@;
        let ghost stat = value@;
        let n = self.blocks.len();
        let mut i: usize = 0;
        while i < n && self.blocks[i].0 != block_height
            invariant
                n == self.blocks@.len(),
                i <= n,
                self@ == before,
                forall|k: int| 0 <= k < i ==> !at_height(block_height)(#[trigger] before[k]),
            decreases n - i,
        {
            i += 1;
        }
        proof {
            lemma_first_index_is(before, at_height(block_height), i as int);
        }
        if i < n {
            let taken = self.blocks.remove(i);
            let mut entry = taken.unwrap();
            let ghost hashes = before[i as int].hashes;
            assert(hashes == view_seq(entry.1@));
            let m = entry.1.len();
            let mut j: usize = 0;
            while j < m && !entry.1[j].hash.same(&block_hash)
                invariant
                    m == entry.1@.len(),
                    j <= m,
                    hashes == view_seq(entry.1@),
                    forall|k: int| 0 <= k < j ==> !with_hash(block_hash)(#[trigger] hashes[k]),
                decreases m - j,
            {
                j += 1;
            }
            proof {
                lemma_first_index_is(hashes, with_hash(block_hash), j as int);
            }
            let ghost known = entry.1@;
            if j < m {
                entry.1[j].data.push(value);
                assert(entry.1@[j as int]@.data =~= known[j as int]@.data.push(stat));
                assert(view_seq(entry.1@) =~= hashes.update(
                    j as int,
                    BlockHashStatsView {
                        hash: hashes[j as int].hash,
                        data: hashes[j as int].data.push(stat),
                    },
                ));
            } else {
                let fresh = BlockHashStats { hash: block_hash, data: vec![value] };
                assert(fresh@.data =~= seq![stat]);
                entry.1.push(fresh);
                assert(view_seq(entry.1@) =~= hashes.push(
                    BlockHashStatsView { hash: block_hash, data: seq![stat] },
                ));
            }
            self.blocks.insert(i, entry);
            assert(self@ =~= before.update(
                i as int,
                HeightStatsView {
                    height: block_height,
                    hashes: add_stat(hashes, block_hash, stat),
                },
            ));
        } else {
            let mut k: usize = 0;
            while k < n && self.blocks[k].0 >= block_height
                invariant
                    n == self.blocks@.len(),
                    k <= n,
                    self@ == before,
                    forall|l: int| 0 <= l < k ==> !below_height(block_height)(#[trigger] before[l]),
                decreases n - k,
            {
                k += 1;
            }
            proof {
                lemma_first_index_is(before, below_height(block_height), k as int);
            }
            let fresh = BlockHashStats { hash: block_hash, data: vec![value] };
            assert(fresh@.data =~= seq![stat]);
            let hashes = vec![fresh];
            assert(view_seq(hashes@) =~= seq![
                BlockHashStatsView { hash: block_hash, data: seq![stat] },
            ]);
            self.blocks.insert(k, (block_height, hashes));
            assert(self@ =~= before.insert(
                k as int,
                HeightStatsView {
                    height: block_height,
                    hashes: seq![BlockHashStatsView { hash: block_hash, data: seq![stat] }],
                },
            ));
            assert(heights_descend(self@)) by {
                assert forall|a: int, b: int| 0 <= a < b < self@.len() implies self@[a].height
                    > self@[b].height by {
                    if a < k && b > k {
                        assert(!below_height(block_height)(before[a]));
                        assert(before[a].height > before[b - 1].height || a == b - 1);
                    } else if a < k && b == k {
                        assert(!below_height(block_height)(before[a]));
                        assert(!at_height(block_height)(before[a]));
                    } else if a == k {
                        assert(below_height(block_height)(before[k as int]));
                        assert(before[k as int].height >= before[b - 1].height);
                    }
                }
            }
        }
        if self.blocks.len() > MAX_BLOCKS_SIZE {
            let ghost grown = self@;
            self.blocks.pop_back();
            assert(self@ =~= grown.drop_last());
        }
    }
}

} // verus!
