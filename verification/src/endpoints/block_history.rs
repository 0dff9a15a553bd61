//! The block history of a chain: every observation in its block window.

use crate::endpoints::shared::{date_time_of, SDateTime, SDateTimeView, SUniqueNodeIdentity};
use crate::node_message::{IntervalFromNode, IntervalView};
use crate::node_types::{copy_text_opt, view_opt, view_seq, BlockHash};
use crate::state::blocks::{
    heights_ascend, HashEntry, HashEntryView, HeightEntryView, NodeEntry, NodeEntryView,
    StoredBlocks,
};
use crate::state::node::IdentityView;
use vstd::prelude::*;

verus! {

/// One interval as the history shows it.
#[derive(Debug)]
pub struct BlockHistoryDetail {
    pub peer_id: Option<String>,
    pub start_timestamp: SDateTime,
    pub end_timestamp: SDateTime,
}

/// One shown interval, as views.
pub ghost struct BlockHistoryDetailView {
    pub peer_id: Option<Seq<char>>,
    pub start_timestamp: SDateTimeView,
    pub end_timestamp: SDateTimeView,
}

impl View for BlockHistoryDetail {
    type V = BlockHistoryDetailView;

    open spec fn view(&self) -> BlockHistoryDetailView {
        BlockHistoryDetailView {
            peer_id: view_opt(self.peer_id),
            start_timestamp: self.start_timestamp@,
            end_timestamp: self.end_timestamp@,
        }
    }
}

/// How the history shows the interval `interval`.
pub open spec fn detail_of(interval: IntervalView) -> BlockHistoryDetailView {
    BlockHistoryDetailView {
        peer_id: interval.peer_id,
        start_timestamp: date_time_of(interval.start_timestamp),
        end_timestamp: date_time_of(interval.end_timestamp),
    }
}

/// How the history shows an interval that may be missing.
pub open spec fn detail_of_opt(interval: Option<IntervalView>) -> Option<BlockHistoryDetailView> {
    match interval {
        Some(i) => Some(detail_of(i)),
        None => None,
    }
}

impl BlockHistoryDetail {
    /// How the history shows `value`.
    pub fn from(value: &IntervalFromNode) -> (r: Self)
        ensures
            r@ == detail_of(value@),
    {
        BlockHistoryDetail {
            peer_id: copy_text_opt(&value.peer_id),
            start_timestamp: SDateTime::from(value.start_timestamp),
            end_timestamp: SDateTime::from(value.end_timestamp),
        }
    }

    /// How the history shows an interval that may be missing.
    pub fn from_opt(value: &Option<IntervalFromNode>) -> (r: Option<Self>)
        ensures
            view_opt(r) == detail_of_opt(view_opt(*value)),
    {
        match value {
            Some(interval) => Some(BlockHistoryDetail::from(interval)),
            None => None,
        }
    }
}

/// What one node observed of one block, as the history shows it.
#[derive(Debug)]
pub struct BlockHistoryNodeData {
    pub identity: SUniqueNodeIdentity,
    pub proposal: Option<BlockHistoryDetail>,
    pub import: Option<BlockHistoryDetail>,
    pub sync: Option<BlockHistoryDetail>,
}

/// The shown observation of one node, as views.
pub ghost struct BlockHistoryNodeDataView {
    pub identity: IdentityView,
    pub proposal: Option<BlockHistoryDetailView>,
    pub import: Option<BlockHistoryDetailView>,
    pub sync: Option<BlockHistoryDetailView>,
}

impl View for BlockHistoryNodeData {
    type V = BlockHistoryNodeDataView;

    open spec fn view(&self) -> BlockHistoryNodeDataView {
        BlockHistoryNodeDataView {
            identity: self.identity@,
            proposal: view_opt(self.proposal),
            import: view_opt(self.import),
            sync: view_opt(self.sync),
        }
    }
}

/// One block with the nodes that observed it.
#[derive(Debug)]
pub struct BlockHistoryBlock {
    pub block_hash: BlockHash,
    pub nodes: Vec<BlockHistoryNodeData>,
}

/// One block of the history, as views.
pub ghost struct BlockHistoryBlockView {
    pub block_hash: BlockHash,
    pub nodes: Seq<BlockHistoryNodeDataView>,
}

impl View for BlockHistoryBlock {
    type V = BlockHistoryBlockView;

    open spec fn view(&self) -> BlockHistoryBlockView {
        BlockHistoryBlockView { block_hash: self.block_hash, nodes: view_seq(self.nodes@) }
    }
}

/// One height with the blocks observed at it.
#[derive(Debug)]
pub struct BlockHistoryBlockHeight {
    pub block_height: u64,
    pub blocks: Vec<BlockHistoryBlock>,
}

/// One height of the history, as views.
pub ghost struct BlockHistoryBlockHeightView {
    pub block_height: u64,
    pub blocks: Seq<BlockHistoryBlockView>,
}

impl View for BlockHistoryBlockHeight {
    type V = BlockHistoryBlockHeightView;

    open spec fn view(&self) -> BlockHistoryBlockHeightView {
        BlockHistoryBlockHeightView { block_height: self.block_height, blocks: view_seq(self.blocks@) }
    }
}

/// The block history of a chain, the greatest height first.
#[derive(Debug)]
pub struct BlockHistory(Vec<BlockHistoryBlockHeight>);

impl View for BlockHistory {
    type V = Seq<BlockHistoryBlockHeightView>;

    closed spec fn view(&self) -> Seq<BlockHistoryBlockHeightView> {
        view_seq(self.0@)
    }
}

/// How the history shows what one node observed.
pub open spec fn node_data_of(n: NodeEntryView) -> BlockHistoryNodeDataView {
    BlockHistoryNodeDataView {
        identity: n.identity,
        proposal: detail_of_opt(n.details.proposal),
        import: detail_of_opt(n.details.import),
        sync: detail_of_opt(n.details.sync),
    }
}

/// How the history shows one block: its nodes in ascending order of
/// identity.
pub open spec fn history_block_of(h: HashEntryView) -> BlockHistoryBlockView {
    BlockHistoryBlockView {
        block_hash: h.hash,
        nodes: h.nodes.map_values(|n: NodeEntryView| node_data_of(n)),
    }
}

/// How the history shows one height: its blocks in ascending order of
/// hash.
pub open spec fn history_height_of(e: HeightEntryView) -> BlockHistoryBlockHeightView {
    BlockHistoryBlockHeightView {
        block_height: e.height,
        blocks: e.hashes.map_values(|h: HashEntryView| history_block_of(h)),
    }
}

/// The history of a window: all of its heights, the greatest first.
pub open spec fn history_of(window: Seq<HeightEntryView>) -> Seq<BlockHistoryBlockHeightView> {
    window.reverse().map_values(|e: HeightEntryView| history_height_of(e))
}

fn history_nodes(nodes: &Vec<NodeEntry>) -> (r: Vec<BlockHistoryNodeData>)
    ensures
        view_seq(r@) == view_seq(nodes@).map_values(|n: NodeEntryView| node_data_of(n)),
{
    let n = nodes.len();
    let mut shown: Vec<BlockHistoryNodeData> = Vec::new();
    let mut k: usize = 0;
    assert(view_seq(shown@) =~= view_seq(nodes@).map_values(
        |n: NodeEntryView| node_data_of(n),
    ).take(0));
    while k < n
        invariant
            n == nodes@.len(),
            k <= n,
            view_seq(shown@) == view_seq(nodes@).map_values(
                |n: NodeEntryView| node_data_of(n),
            ).take(k as int),
        decreases n - k,
    {
        let node = &nodes[k];
        let detail = BlockHistoryNodeData {
            identity: SUniqueNodeIdentity::from(&node.identity),
            proposal: BlockHistoryDetail::from_opt(&node.details.proposal),
            import: BlockHistoryDetail::from_opt(&node.details.import),
            sync: BlockHistoryDetail::from_opt(&node.details.sync),
        };
        assert(detail@ == node_data_of(node@));
        let ghost known = view_seq(shown@);
        shown.push(detail);
        assert(view_seq(shown@) =~= known.push(node_data_of(node@)));
        k += 1;
        assert(view_seq(nodes@).map_values(|n: NodeEntryView| node_data_of(n)).take(k as int)
            =~= known.push(node_data_of(node@)));
    }
    assert(view_seq(nodes@).map_values(|n: NodeEntryView| node_data_of(n)).take(n as int)
        =~= view_seq(nodes@).map_values(|n: NodeEntryView| node_data_of(n)));
    shown
}

fn history_blocks(hashes: &Vec<HashEntry>) -> (r: Vec<BlockHistoryBlock>)
    ensures
        view_seq(r@) == view_seq(hashes@).map_values(|h: HashEntryView| history_block_of(h)),
{
    let n = hashes.len();
    let mut shown: Vec<BlockHistoryBlock> = Vec::new();
    let mut j: usize = 0;
    assert(view_seq(shown@) =~= view_seq(hashes@).map_values(
        |h: HashEntryView| history_block_of(h),
    ).take(0));
    while j < n
        invariant
            n == hashes@.len(),
            j <= n,
            view_seq(shown@) == view_seq(hashes@).map_values(
                |h: HashEntryView| history_block_of(h),
            ).take(j as int),
        decreases n - j,
    {
        let block = &hashes[j];
        let bh_block = BlockHistoryBlock { block_hash: block.hash, nodes: history_nodes(&block.nodes) };
        assert(bh_block@ == history_block_of(block@));
        let ghost known = view_seq(shown@);
        shown.push(bh_block);
        assert(view_seq(shown@) =~= known.push(history_block_of(block@)));
        j += 1;
        assert(view_seq(hashes@).map_values(|h: HashEntryView| history_block_of(h)).take(j as int)
            =~= known.push(history_block_of(block@)));
    }
    assert(view_seq(hashes@).map_values(|h: HashEntryView| history_block_of(h)).take(n as int)
        =~= view_seq(hashes@).map_values(|h: HashEntryView| history_block_of(h)));
    shown
}

impl BlockHistory {
    /// The history of the window `value`: its heights, the greatest first,
    /// each with its blocks in ascending order of hash, each block with its
    /// nodes in ascending order of identity.
    pub fn from(value: &StoredBlocks) -> (r: Self)
        ensures
            r@ == history_of(value@),
    {
        let heights = value.heights();
        let ghost rev = value@.reverse();
        let n = heights.len();
        let mut result: Vec<BlockHistoryBlockHeight> = Vec::new();
        let mut k: usize = 0;
        assert(view_seq(result@) =~= rev.map_values(
            |e: HeightEntryView| history_height_of(e),
        ).take(0));
        while k < n
            invariant
                n == heights@.len(),
                k <= n,
                rev == view_seq(heights@).reverse(),
                view_seq(result@) == rev.map_values(
                    |e: HeightEntryView| history_height_of(e),
                ).take(k as int),
            decreases n - k,
        {
            let entry = &heights[n - 1 - k];
            assert(rev[k as int] == entry@);
            let shown = BlockHistoryBlockHeight {
                block_height: entry.height,
                blocks: history_blocks(&entry.hashes),
            };
            assert(shown@ == history_height_of(entry@));
            let ghost known = view_seq(result@);
            result.push(shown);
            assert(view_seq(result@) =~= known.push(history_height_of(entry@)));
            k += 1;
            assert(rev.map_values(|e: HeightEntryView| history_height_of(e)).take(k as int)
                =~= known.push(history_height_of(entry@)));
        }
        assert(rev.map_values(|e: HeightEntryView| history_height_of(e)).take(n as int)
            =~= rev.map_values(|e: HeightEntryView| history_height_of(e)));
        BlockHistory(result)
    }

    /// The heights of the history, the greatest first.
    pub fn entries(&self) -> (r: &Vec<BlockHistoryBlockHeight>)
        ensures
            view_seq(r@) == self@,
    {
        &self.0
    }
}

/// The history of a window in order comes with the greatest height first.
pub proof fn lemma_history_newest_first(window: Seq<HeightEntryView>)
    requires
        heights_ascend(window),
    ensures
        history_of(window).len() == window.len(),
        forall|a: int, b: int|
            0 <= a < b < history_of(window).len() ==> (#[trigger] history_of(
                window,
            )[a]).block_height > (#[trigger] history_of(window)[b]).block_height,
{
    let shown = history_of(window);
    assert forall|a: int, b: int| 0 <= a < b < shown.len() implies (#[trigger] shown[a]).block_height
        > (#[trigger] shown[b]).block_height by {
        assert(window[window.len() - 1 - b].height < window[window.len() - 1 - a].height);
    }
}

} // verus!
