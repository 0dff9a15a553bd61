//! The overview of a chain: its blocks, its forks and the versions of the
//! node software that its nodes run.

use crate::byte_order::text_lt;
use crate::endpoints::node_list::{
    counted_groups, group_nodes, group_versions, lemma_groups_descend, ImplementationView,
};
use crate::endpoints::shared::{
    date_time_of, BlockProducer, BlockProducerView, SDateTime, SUniqueNodeIdentity,
};
use crate::node_types::{view_opt, view_seq, Block, BlockHash, BlockNumber};
use crate::scan::{first_index, lemma_first_index_is};
use crate::state::blocks::{
    heights_ascend, HashEntryView, HeightEntryView, NodeEntry, NodeEntryView, StoredBlocks,
};
use crate::state::chain::{Chain, ChainView};
use vstd::prelude::*;

verus! {

/// One block of a fork.
#[derive(Debug)]
pub struct OverviewForkBlock {
    pub block_hash: BlockHash,
    pub block_producer: Option<BlockProducer>,
    pub number_of_witnesses: usize,
}

/// One block of a fork, as views.
pub ghost struct OverviewForkBlockView {
    pub block_hash: BlockHash,
    pub block_producer: Option<BlockProducerView>,
    pub number_of_witnesses: usize,
}

impl View for OverviewForkBlock {
    type V = OverviewForkBlockView;

    open spec fn view(&self) -> OverviewForkBlockView {
        OverviewForkBlockView {
            block_hash: self.block_hash,
            block_producer: view_opt(self.block_producer),
            number_of_witnesses: self.number_of_witnesses,
        }
    }
}

/// A height at which two or more blocks were observed.
#[derive(Debug)]
pub struct OverviewFork {
    pub block_height: BlockNumber,
    pub blocks: Vec<OverviewForkBlock>,
}

/// A fork, as views.
pub ghost struct OverviewForkView {
    pub block_height: BlockNumber,
    pub blocks: Seq<OverviewForkBlockView>,
}

impl View for OverviewFork {
    type V = OverviewForkView;

    open spec fn view(&self) -> OverviewForkView {
        OverviewForkView { block_height: self.block_height, blocks: view_seq(self.blocks@) }
    }
}

impl OverviewFork {
    /// A fork at `block_height` that holds no block yet.
    pub fn new(block_height: BlockNumber) -> (r: Self)
        ensures
            r@ == (OverviewForkView { block_height, blocks: Seq::empty() }),
    {
        let r = OverviewFork { block_height, blocks: Vec::new() };
        assert(r@.blocks =~= Seq::empty());
        r
    }
}

/// The forks of a chain, the greatest height first.
#[derive(Debug)]
pub struct OverviewForks(Vec<OverviewFork>);

impl View for OverviewForks {
    type V = Seq<OverviewForkView>;

    closed spec fn view(&self) -> Seq<OverviewForkView> {
        view_seq(self.0@)
    }
}

/// One block of the window.
#[derive(Debug)]
pub struct OverviewBlock {
    pub block_height: BlockNumber,
    pub block_hash: BlockHash,
    pub block_producer: Option<BlockProducer>,
}

/// One block of the window, as views.
pub ghost struct OverviewBlockView {
    pub block_height: BlockNumber,
    pub block_hash: BlockHash,
    pub block_producer: Option<BlockProducerView>,
}

impl View for OverviewBlock {
    type V = OverviewBlockView;

    open spec fn view(&self) -> OverviewBlockView {
        OverviewBlockView {
            block_height: self.block_height,
            block_hash: self.block_hash,
            block_producer: view_opt(self.block_producer),
        }
    }
}

/// The blocks of a chain, the greatest height first.
#[derive(Debug)]
pub struct OverviewBlocks(Vec<OverviewBlock>);

impl View for OverviewBlocks {
    type V = Seq<OverviewBlockView>;

    closed spec fn view(&self) -> Seq<OverviewBlockView> {
        view_seq(self.0@)
    }
}

/// A version of the node software and how many nodes run it.
#[derive(Debug)]
pub struct OverviewImplementation {
    pub version: String,
    pub count: usize,
}

/// A version and its count of nodes, as views.
pub ghost struct OverviewImplementationView {
    pub version: Seq<char>,
    pub count: usize,
}

impl View for OverviewImplementation {
    type V = OverviewImplementationView;

    open spec fn view(&self) -> OverviewImplementationView {
        OverviewImplementationView { version: self.version@, count: self.count }
    }
}

/// The versions that the nodes of a chain run, the greatest first.
#[derive(Debug)]
pub struct OverviewImplementations(Vec<OverviewImplementation>);

impl View for OverviewImplementations {
    type V = Seq<OverviewImplementationView>;

    closed spec fn view(&self) -> Seq<OverviewImplementationView> {
        view_seq(self.0@)
    }
}

/// The observations that hold a proposal.
pub open spec fn has_proposal() -> spec_fn(NodeEntryView) -> bool {
    |n: NodeEntryView| n.details.proposal is Some
}

/// The producer of a block: the first of its nodes, in the order of their
/// identities, that observed a proposal, with the start and the end of that
/// proposal.
pub open spec fn producer_of(nodes: Seq<NodeEntryView>) -> Option<BlockProducerView> {
    let k = first_index(nodes, has_proposal());
    if k < nodes.len() {
        Some(
            BlockProducerView {
                identity: nodes[k].identity,
                start: date_time_of(nodes[k].details.proposal->0.start_timestamp),
                end: date_time_of(nodes[k].details.proposal->0.end_timestamp),
            },
        )
    } else {
        None
    }
}

/// The heights with two or more blocks.
pub open spec fn is_fork() -> spec_fn(HeightEntryView) -> bool {
    |e: HeightEntryView| e.hashes.len() >= 2
}

/// A block as part of a fork: its hash, its producer and how many nodes
/// observed it.
pub open spec fn fork_block_of(h: HashEntryView) -> OverviewForkBlockView {
    OverviewForkBlockView {
        block_hash: h.hash,
        block_producer: producer_of(h.nodes),
        number_of_witnesses: h.nodes.len() as usize,
    }
}

/// The blocks of a height as a fork, in ascending order of hash.
pub open spec fn fork_of(e: HeightEntryView) -> OverviewForkView {
    OverviewForkView {
        block_height: e.height,
        blocks: e.hashes.map_values(|h: HashEntryView| fork_block_of(h)),
    }
}

/// The forks among `heights`, in their order.
pub open spec fn forks_among(heights: Seq<HeightEntryView>) -> Seq<OverviewForkView> {
    heights.filter(is_fork()).map_values(|e: HeightEntryView| fork_of(e))
}

/// The forks of a window, the greatest height first.
pub open spec fn forks_of(window: Seq<HeightEntryView>) -> Seq<OverviewForkView> {
    forks_among(window.reverse())
}

/// A block of the window with its height and its producer.
pub open spec fn block_of(height: BlockNumber, h: HashEntryView) -> OverviewBlockView {
    OverviewBlockView {
        block_height: height,
        block_hash: h.hash,
        block_producer: producer_of(h.nodes),
    }
}

/// The blocks of a height, in ascending order of hash.
pub open spec fn blocks_at(e: HeightEntryView) -> Seq<OverviewBlockView> {
    e.hashes.map_values(|h: HashEntryView| block_of(e.height, h))
}

/// The blocks of `heights`, height after height.
pub open spec fn blocks_among(heights: Seq<HeightEntryView>) -> Seq<OverviewBlockView> {
    heights.flat_map(|e: HeightEntryView| blocks_at(e))
}

/// The blocks of a window, the greatest height first.
pub open spec fn blocks_of(window: Seq<HeightEntryView>) -> Seq<OverviewBlockView> {
    blocks_among(window.reverse())
}

/// A group of nodes as its version and its size.
pub open spec fn tally_of(g: ImplementationView) -> OverviewImplementationView {
    OverviewImplementationView { version: g.version, count: g.nodes.len() as usize }
}

/// The producer among the nodes that observed one block.
pub fn find_producer(nodes: &Vec<NodeEntry>) -> (r: Option<BlockProducer>)
    ensures
        view_opt(r) == producer_of(view_seq(nodes@)),
{
    let n = nodes.len();
    let mut k: usize = 0;
    while k < n && nodes[k].details.proposal.is_none()
        invariant
            n == nodes@.len(),
            k <= n,
            forall|l: int| 0 <= l < k ==> !has_proposal()(#[trigger] view_seq(nodes@)[l]),
        decreases n - k,
    {
        k += 1;
    }
    proof {
        lemma_first_index_is(view_seq(nodes@), has_proposal(), k as int);
    }
    if k < n {
        match &nodes[k].details.proposal {
            Some(proposal) => Some(
                BlockProducer {
                    identity: SUniqueNodeIdentity::from(&nodes[k].identity),
                    start: SDateTime::from(proposal.start_timestamp),
                    end: SDateTime::from(proposal.end_timestamp),
                },
            ),
            None => None,
        }
    } else {
        None
    }
}

impl OverviewForks {
    /// The forks of the window `value`: for each height with two or more
    /// blocks, the greatest height first, its blocks in ascending order of
    /// hash.
    pub fn from(value: &StoredBlocks) -> (r: Self)
        ensures
            r@ == forks_of(value@),
    {
        let heights = value.heights();
        let ghost rev = value@.reverse();
        let n = heights.len();
        let mut forks: Vec<OverviewFork> = Vec::new();
        let mut k: usize = 0;
        assert(rev.take(0) =~= Seq::<HeightEntryView>::empty());
        assert(view_seq(forks@) =~= forks_among(rev.take(0)));
        while k < n
            invariant
                n == heights@.len(),
                k <= n,
                rev == view_seq(heights@).reverse(),
                view_seq(forks@) == forks_among(rev.take(k as int)),
            decreases n - k,
        {
            let entry = &heights[n - 1 - k];
            let ghost e = rev[k as int];
            assert(e == entry@);
            proof {
                rev.lemma_take_succ_push(k as int);
                rev.take(k as int).lemma_filter_push(e, is_fork());
            }
            if entry.hashes.len() >= 2 {
                let mut fork = OverviewFork::new(entry.height);
                let m = entry.hashes.len();
                let mut j: usize = 0;
                while j < m
                    invariant
                        m == entry.hashes@.len(),
                        j <= m,
                        e == entry@,
                        fork.block_height == e.height,
                        view_seq(fork.blocks@) == fork_of(e).blocks.take(j as int),
                    decreases m - j,
                {
                    let block = &entry.hashes[j];
                    assert(e.hashes[j as int] == block@);
                    let block_producer = find_producer(&block.nodes);
                    let ghost known = view_seq(fork.blocks@);
                    fork.blocks.push(
                        OverviewForkBlock {
                            block_hash: block.hash,
                            block_producer,
                            number_of_witnesses: block.nodes.len(),
                        },
                    );
                    assert(view_seq(fork.blocks@) =~= known.push(fork_block_of(block@)));
                    j += 1;
                    assert(fork_of(e).blocks.take(j as int) =~= known.push(fork_block_of(block@)));
                }
                assert(fork_of(e).blocks.take(m as int) =~= fork_of(e).blocks);
                let ghost known = view_seq(forks@);
                forks.push(fork);
                assert(view_seq(forks@) =~= known.push(fork_of(e)));
                assert(forks_among(rev.take(k as int + 1)) =~= known.push(fork_of(e)));
            }
            k += 1;
        }
        assert(rev.take(n as int) =~= rev);
        OverviewForks(forks)
    }

    /// The forks, the greatest height first.
    pub fn entries(&self) -> (r: &Vec<OverviewFork>)
        ensures
            view_seq(r@) == self@,
    {
        &self.0
    }
}

impl OverviewBlocks {
    /// The blocks of the window `value`, the greatest height first and
    /// within a height in ascending order of hash.
    pub fn from(value: &StoredBlocks) -> (r: Self)
        ensures
            r@ == blocks_of(value@),
    {
        let heights = value.heights();
        let ghost rev = value@.reverse();
        let n = heights.len();
        let mut overview_blocks: Vec<OverviewBlock> = Vec::new();
        let mut k: usize = 0;
        assert(rev.take(0) =~= Seq::<HeightEntryView>::empty());
        assert(view_seq(overview_blocks@) =~= blocks_among(rev.take(0)));
        while k < n
            invariant
                n == heights@.len(),
                k <= n,
                rev == view_seq(heights@).reverse(),
                view_seq(overview_blocks@) == blocks_among(rev.take(k as int)),
            decreases n - k,
        {
            let entry = &heights[n - 1 - k];
            let ghost e = rev[k as int];
            assert(e == entry@);
            let ghost done = blocks_among(rev.take(k as int));
            let m = entry.hashes.len();
            let mut j: usize = 0;
            assert(view_seq(overview_blocks@) =~= done + blocks_at(e).take(0));
            while j < m
                invariant
                    m == entry.hashes@.len(),
                    j <= m,
                    e == entry@,
                    view_seq(overview_blocks@) == done + blocks_at(e).take(j as int),
                decreases m - j,
            {
                let block = &entry.hashes[j];
                assert(e.hashes[j as int] == block@);
                let block_producer = find_producer(&block.nodes);
                let ghost known = view_seq(overview_blocks@);
                overview_blocks.push(
                    OverviewBlock {
                        block_height: entry.height,
                        block_hash: block.hash,
                        block_producer,
                    },
                );
                assert(view_seq(overview_blocks@) =~= known.push(blocks_at(e)[j as int]));
                j += 1;
                assert(done + blocks_at(e).take(j as int) =~= known.push(blocks_at(e)[j as int - 1]));
            }
            proof {
                assert(blocks_at(e).take(m as int) =~= blocks_at(e));
                rev.lemma_take_succ_push(k as int);
                rev.take(k as int).lemma_flat_map_push(|e: HeightEntryView| blocks_at(e), e);
            }
            k += 1;
        }
        assert(rev.take(n as int) =~= rev);
        OverviewBlocks(overview_blocks)
    }

    /// The blocks, the greatest height first.
    pub fn entries(&self) -> (r: &Vec<OverviewBlock>)
        ensures
            view_seq(r@) == self@,
    {
        &self.0
    }
}

impl OverviewImplementations {
    /// The versions that the nodes of `value` run, the greatest version
    /// first, each with the number of nodes that run it.
    pub fn from(value: &Chain) -> (r: Self)
        ensures
            r@ == group_nodes(value@.nodes).map_values(|g: ImplementationView| tally_of(g)),
            forall|a: int, b: int|
                0 <= a < b < r@.len() ==> text_lt(
                    (#[trigger] r@[b]).version,
                    (#[trigger] r@[a]).version,
                ),
    {
        proof {
            lemma_groups_descend(value@.nodes);
            let groups = group_nodes(value@.nodes);
            let tallies = groups.map_values(|g: ImplementationView| tally_of(g));
            assert forall|a: int, b: int| 0 <= a < b < tallies.len() implies text_lt(
                (#[trigger] tallies[b]).version,
                (#[trigger] tallies[a]).version,
            ) by {
                assert(text_lt(groups[b].version, groups[a].version));
            }
        }
        let groups = group_versions(value);
        let ghost grouped = group_nodes(value@.nodes);
        let n = groups.len();
        let mut implementations: Vec<OverviewImplementation> = Vec::new();
        let mut i: usize = 0;
        assert(view_seq(groups@).len() == n);
        assert(counted_groups(value@.nodes).len() == grouped.len());
        assert(view_seq(implementations@) =~= grouped.map_values(
            |g: ImplementationView| tally_of(g),
        ).take(0));
        while i < n
            invariant
                n == groups@.len(),
                n == grouped.len(),
                i <= n,
                view_seq(groups@) == counted_groups(value@.nodes),
                grouped == group_nodes(value@.nodes),
                view_seq(implementations@) == grouped.map_values(
                    |g: ImplementationView| tally_of(g),
                ).take(i as int),
            decreases n - i,
        {
            let group = &groups[i];
            assert(group@ == counted_groups(value@.nodes)[i as int]);
            assert(group@.nodes.len() == group.nodes@.len());
            let ghost known = view_seq(implementations@);
            implementations.push(
                OverviewImplementation { version: group.version.clone(), count: group.nodes.len() },
            );
            assert(view_seq(implementations@) =~= known.push(tally_of(grouped[i as int])));
            i += 1;
            assert(grouped.map_values(|g: ImplementationView| tally_of(g)).take(i as int)
                =~= known.push(tally_of(grouped[i as int - 1])));
        }
        assert(n == grouped.len());
        assert(grouped.map_values(|g: ImplementationView| tally_of(g)).take(n as int)
            =~= grouped.map_values(|g: ImplementationView| tally_of(g)));
        OverviewImplementations(implementations)
    }

    /// The versions, the greatest first.
    pub fn entries(&self) -> (r: &Vec<OverviewImplementation>)
        ensures
            view_seq(r@) == self@,
    {
        &self.0
    }
}

/// The overview of one chain.
#[derive(Debug)]
pub struct ChainOverview {
    pub genesis_hash: BlockHash,
    pub best_block: Block,
    pub finalized_block: Block,
    pub max_nodes: usize,
    pub node_count: usize,
    pub average_block_time: Option<u64>,
    pub implementations: OverviewImplementations,
    pub forks: OverviewForks,
    pub blocks: OverviewBlocks,
}

/// The overview of one chain, as views.
pub ghost struct ChainOverviewView {
    pub genesis_hash: BlockHash,
    pub best_block: Block,
    pub finalized_block: Block,
    pub max_nodes: usize,
    pub node_count: usize,
    pub average_block_time: Option<u64>,
    pub implementations: Seq<OverviewImplementationView>,
    pub forks: Seq<OverviewForkView>,
    pub blocks: Seq<OverviewBlockView>,
}

impl View for ChainOverview {
    type V = ChainOverviewView;

    open spec fn view(&self) -> ChainOverviewView {
        ChainOverviewView {
            genesis_hash: self.genesis_hash,
            best_block: self.best_block,
            finalized_block: self.finalized_block,
            max_nodes: self.max_nodes,
            node_count: self.node_count,
            average_block_time: self.average_block_time,
            implementations: self.implementations@,
            forks: self.forks@,
            blocks: self.blocks@,
        }
    }
}

/// The overview of the chain `chain`.
pub open spec fn overview_of(chain: ChainView) -> ChainOverviewView {
    ChainOverviewView {
        genesis_hash: chain.genesis_hash,
        best_block: chain.best,
        finalized_block: chain.finalized,
        max_nodes: chain.max_nodes,
        node_count: chain.node_count,
        average_block_time: chain.average_block_time(),
        implementations: group_nodes(chain.nodes).map_values(|g: ImplementationView| tally_of(g)),
        forks: forks_of(chain.blocks),
        blocks: blocks_of(chain.blocks),
    }
}

impl ChainOverview {
    /// The overview of `value` as it is now.
    pub fn from(value: &Chain) -> (r: Self)
        ensures
            r@ == overview_of(value@),
    {
        ChainOverview {
            genesis_hash: value.genesis_hash(),
            best_block: *value.best_block(),
            finalized_block: *value.finalized_block(),
            max_nodes: value.max_nodes(),
            node_count: value.node_count(),
            average_block_time: value.average_block_time(),
            implementations: OverviewImplementations::from(value),
            forks: OverviewForks::from(value.blocks()),
            blocks: OverviewBlocks::from(value.blocks()),
        }
    }
}

/// Each height is greater than all that follow it.
pub open spec fn newest_first(heights: Seq<HeightEntryView>) -> bool {
    forall|a: int, b: int|
        0 <= a < b < heights.len() ==> (#[trigger] heights[a]).height > (
        #[trigger] heights[b]).height
}

/// A window in order, read from its end, has its newest height first.
pub proof fn lemma_reverse_newest_first(window: Seq<HeightEntryView>)
    requires
        heights_ascend(window),
    ensures
        newest_first(window.reverse()),
{
    let rev = window.reverse();
    assert forall|a: int, b: int| 0 <= a < b < rev.len() implies (#[trigger] rev[a]).height > (
    #[trigger] rev[b]).height by {
        assert(window[window.len() - 1 - b].height < window[window.len() - 1 - a].height);
    }
}

proof fn lemma_forks_among(heights: Seq<HeightEntryView>)
    requires
        newest_first(heights),
    ensures
        forall|a: int, b: int|
            0 <= a < b < forks_among(heights).len() ==> (#[trigger] forks_among(
                heights,
            )[a]).block_height > (#[trigger] forks_among(heights)[b]).block_height,
        forall|a: int|
            0 <= a < forks_among(heights).len() ==> (#[trigger] forks_among(heights)[a]).blocks.len()
                >= 2 && exists|i: int|
                0 <= i < heights.len() && (#[trigger] heights[i]).height == forks_among(
                    heights,
                )[a].block_height,
    decreases heights.len(),
{
    if heights.len() > 0 {
        let earlier = heights.drop_last();
        let last = heights.last();
        lemma_forks_among(earlier);
        assert(heights =~= earlier.push(last));
        earlier.lemma_filter_push(last, is_fork());
        let before = forks_among(earlier);
        let after = forks_among(heights);
        if is_fork()(last) {
            assert(after =~= before.push(fork_of(last)));
        } else {
            assert(after =~= before);
        }
        assert forall|a: int| 0 <= a < after.len() implies (#[trigger] after[a]).blocks.len() >= 2
            && exists|i: int|
            0 <= i < heights.len() && (#[trigger] heights[i]).height == after[a].block_height by {
            if a < before.len() {
                let i = choose|i: int|
                    0 <= i < earlier.len() && (#[trigger] earlier[i]).height
                        == before[a].block_height;
                assert(heights[i].height == after[a].block_height);
            } else {
                assert(heights[heights.len() - 1].height == after[a].block_height);
            }
        }
        assert forall|a: int, b: int| 0 <= a < b < after.len() implies (
        #[trigger] after[a]).block_height > (#[trigger] after[b]).block_height by {
            if b == before.len() {
                let i = choose|i: int|
                    0 <= i < earlier.len() && (#[trigger] earlier[i]).height
                        == before[a].block_height;
                assert(heights[i].height > heights[heights.len() - 1].height);
            }
        }
    } else {
        heights.lemma_filter_len(is_fork());
    }
}

/// The forks of a window in order come with the greatest height first, and
/// each of them holds two blocks or more.
pub proof fn lemma_forks_newest_first(window: Seq<HeightEntryView>)
    requires
        heights_ascend(window),
    ensures
        forall|a: int, b: int|
            0 <= a < b < forks_of(window).len() ==> (#[trigger] forks_of(window)[a]).block_height
                > (#[trigger] forks_of(window)[b]).block_height,
        forall|a: int|
            0 <= a < forks_of(window).len() ==> (#[trigger] forks_of(window)[a]).blocks.len() >= 2,
{
    lemma_reverse_newest_first(window);
    lemma_forks_among(window.reverse());
}

proof fn lemma_blocks_among(heights: Seq<HeightEntryView>)
    requires
        newest_first(heights),
    ensures
        forall|a: int, b: int|
            0 <= a < b < blocks_among(heights).len() ==> (#[trigger] blocks_among(
                heights,
            )[a]).block_height >= (#[trigger] blocks_among(heights)[b]).block_height,
        forall|a: int|
            0 <= a < blocks_among(heights).len() ==> exists|i: int|
                0 <= i < heights.len() && (#[trigger] heights[i]).height == (#[trigger] blocks_among(
                    heights,
                )[a]).block_height,
    decreases heights.len(),
{
    if heights.len() > 0 {
        let earlier = heights.drop_last();
        let last = heights.last();
        lemma_blocks_among(earlier);
        assert(heights =~= earlier.push(last));
        earlier.lemma_flat_map_push(|e: HeightEntryView| blocks_at(e), last);
        let before = blocks_among(earlier);
        let after = blocks_among(heights);
        assert(after =~= before + blocks_at(last));
        assert forall|a: int| 0 <= a < after.len() implies exists|i: int|
            0 <= i < heights.len() && (#[trigger] heights[i]).height == (
            #[trigger] after[a]).block_height by {
            if a < before.len() {
                let i = choose|i: int|
                    0 <= i < earlier.len() && (#[trigger] earlier[i]).height
                        == before[a].block_height;
                assert(heights[i].height == after[a].block_height);
            } else {
                assert(after[a] == blocks_at(last)[a - before.len()]);
                assert(heights[heights.len() - 1].height == after[a].block_height);
            }
        }
        assert forall|a: int, b: int| 0 <= a < b < after.len() implies (
        #[trigger] after[a]).block_height >= (#[trigger] after[b]).block_height by {
            if b >= before.len() {
                assert(after[b] == blocks_at(last)[b - before.len()]);
                if a < before.len() {
                    let i = choose|i: int|
                        0 <= i < earlier.len() && (#[trigger] earlier[i]).height
                            == before[a].block_height;
                    assert(heights[i].height > heights[heights.len() - 1].height);
                } else {
                    assert(after[a] == blocks_at(last)[a - before.len()]);
                }
            }
        }
    } else {
        assert(blocks_among(heights) =~= Seq::<OverviewBlockView>::empty());
    }
}

/// The blocks of a window in order come with the greatest height first.
pub proof fn lemma_blocks_newest_first(window: Seq<HeightEntryView>)
    requires
        heights_ascend(window),
    ensures
        forall|a: int, b: int|
            0 <= a < b < blocks_of(window).len() ==> (#[trigger] blocks_of(window)[a]).block_height
                >= (#[trigger] blocks_of(window)[b]).block_height,
{
    lemma_reverse_newest_first(window);
    lemma_blocks_among(window.reverse());
}

} // verus!
