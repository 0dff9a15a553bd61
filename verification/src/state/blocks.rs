//! The block window of a chain: for the newest heights, which node observed
//! which block, and when.

use crate::byte_order::Rank;
use crate::node_message::{IntervalFromNode, IntervalView};
use crate::node_types::{
    hash_lt, lemma_hash_lt_total, lemma_hash_lt_transitive, view_opt, view_seq, Block, BlockHash,
    BlockNumber,
};
use crate::scan::{
    first_index, lemma_first_index_after_insert, lemma_first_index_after_update,
    lemma_first_index_bounds, lemma_first_index_is,
};
use crate::state::node::{
    identity_lt, lemma_identity_lt_total, lemma_identity_lt_transitive, IdentityView,
    UniqueNodeIdentity,
};
use vstd::prelude::*;

verus! {

/// How many heights the window keeps.
pub const MAX_BLOCK_HEIGHT_STORED: usize = 30;

/// The intervals that one node reported for one block.
#[derive(Debug)]
pub struct BlockIntervalDetails {
    pub proposal: Option<IntervalFromNode>,
    pub import: Option<IntervalFromNode>,
    pub sync: Option<IntervalFromNode>,
}

/// The intervals of one node for one block, as views.
pub ghost struct DetailsView {
    pub proposal: Option<IntervalView>,
    pub import: Option<IntervalView>,
    pub sync: Option<IntervalView>,
}

impl View for BlockIntervalDetails {
    type V = DetailsView;

    open spec fn view(&self) -> DetailsView {
        DetailsView {
            proposal: view_opt(self.proposal),
            import: view_opt(self.import),
            sync: view_opt(self.sync),
        }
    }
}

/// What one node observed of one block.
#[derive(Debug)]
pub struct NodeEntry {
    pub identity: UniqueNodeIdentity,
    pub details: BlockIntervalDetails,
}

/// What one node observed of one block, as views.
pub ghost struct NodeEntryView {
    pub identity: IdentityView,
    pub details: DetailsView,
}

impl View for NodeEntry {
    type V = NodeEntryView;

    open spec fn view(&self) -> NodeEntryView {
        NodeEntryView { identity: self.identity@, details: self.details@ }
    }
}

/// The nodes that observed one block, in ascending order of identity.
#[derive(Debug)]
pub struct HashEntry {
    pub hash: BlockHash,
    pub nodes: Vec<NodeEntry>,
}

/// The observations of one block, as views.
pub ghost struct HashEntryView {
    pub hash: BlockHash,
    pub nodes: Seq<NodeEntryView>,
}

impl View for HashEntry {
    type V = HashEntryView;

    open spec fn view(&self) -> HashEntryView {
        HashEntryView { hash: self.hash, nodes: view_seq(self.nodes@) }
    }
}

/// The blocks observed at one height, in ascending order of hash.
#[derive(Debug)]
pub struct HeightEntry {
    pub height: BlockNumber,
    pub hashes: Vec<HashEntry>,
}

/// The blocks observed at one height, as views.
pub ghost struct HeightEntryView {
    pub height: BlockNumber,
    pub hashes: Seq<HashEntryView>,
}

impl View for HeightEntry {
    type V = HeightEntryView;

    open spec fn view(&self) -> HeightEntryView {
        HeightEntryView { height: self.height, hashes: view_seq(self.hashes@) }
    }
}

/// The block window: the observations of the newest heights, in ascending
/// order of height.
#[derive(Debug)]
pub struct StoredBlocks {
    heights: Vec<HeightEntry>,
}

impl View for StoredBlocks {
    type V = Seq<HeightEntryView>;

    closed spec fn view(&self) -> Seq<HeightEntryView> {
        view_seq(self.heights@)
    }
}

/// The identities ascend strictly.
pub open spec fn nodes_ascend(nodes: Seq<NodeEntryView>) -> bool {
    forall|a: int, b: int|
        0 <= a < b < nodes.len() ==> identity_lt(
            (#[trigger] nodes[a]).identity,
            (#[trigger] nodes[b]).identity,
        )
}

/// The hashes ascend strictly, and each has its nodes in order and at least
/// one of them.
pub open spec fn hashes_ascend(hashes: Seq<HashEntryView>) -> bool {
    &&& forall|a: int, b: int|
        0 <= a < b < hashes.len() ==> hash_lt((#[trigger] hashes[a]).hash, (#[trigger] hashes[b]).hash)
    &&& forall|a: int|
        0 <= a < hashes.len() ==> (#[trigger] hashes[a]).nodes.len() > 0 && nodes_ascend(
            hashes[a].nodes,
        )
}

/// The heights ascend strictly, and each has its hashes in order and at
/// least one of them.
pub open spec fn heights_ascend(heights: Seq<HeightEntryView>) -> bool {
    &&& forall|a: int, b: int|
        0 <= a < b < heights.len() ==> (#[trigger] heights[a]).height < (
        #[trigger] heights[b]).height
    &&& forall|a: int|
        0 <= a < heights.len() ==> (#[trigger] heights[a]).hashes.len() > 0 && hashes_ascend(
            heights[a].hashes,
        )
}

/// The entries whose identity does not precede `identity`.
pub open spec fn identity_reached(identity: IdentityView) -> spec_fn(NodeEntryView) -> bool {
    |n: NodeEntryView| !identity_lt(n.identity, identity)
}

/// The entries whose hash does not precede `hash`.
pub open spec fn hash_reached(hash: BlockHash) -> spec_fn(HashEntryView) -> bool {
    |h: HashEntryView| !hash_lt(h.hash, hash)
}

/// The entries whose height is at least `height`.
pub open spec fn height_reached(height: BlockNumber) -> spec_fn(HeightEntryView) -> bool {
    |e: HeightEntryView| e.height >= height
}

/// The nodes of a block after `identity` observed `details`: its earlier
/// observation is replaced, or it enters where the order puts it.
pub open spec fn upsert_node(
    nodes: Seq<NodeEntryView>,
    identity: IdentityView,
    details: DetailsView,
) -> Seq<NodeEntryView> {
    let k = first_index(nodes, identity_reached(identity));
    let entry = NodeEntryView { identity, details };
    if k < nodes.len() && nodes[k].identity == identity {
        nodes.update(k, entry)
    } else {
        nodes.insert(k, entry)
    }
}

/// The blocks of a height after `identity` observed `details` of the block
/// `hash`.
pub open spec fn upsert_hash(
    hashes: Seq<HashEntryView>,
    hash: BlockHash,
    identity: IdentityView,
    details: DetailsView,
) -> Seq<HashEntryView> {
    let j = first_index(hashes, hash_reached(hash));
    if j < hashes.len() && hashes[j].hash == hash {
        hashes.update(
            j,
            HashEntryView { hash, nodes: upsert_node(hashes[j].nodes, identity, details) },
        )
    } else {
        hashes.insert(
            j,
            HashEntryView { hash, nodes: seq![NodeEntryView { identity, details }] },
        )
    }
}

/// The heights after `identity` observed `details` of `block`, with nothing
/// evicted yet.
pub open spec fn upsert_height(
    heights: Seq<HeightEntryView>,
    block: Block,
    identity: IdentityView,
    details: DetailsView,
) -> Seq<HeightEntryView> {
    let i = first_index(heights, height_reached(block.height));
    if i < heights.len() && heights[i].height == block.height {
        heights.update(
            i,
            HeightEntryView {
                height: block.height,
                hashes: upsert_hash(heights[i].hashes, block.hash, identity, details),
            },
        )
    } else {
        heights.insert(
            i,
            HeightEntryView {
                height: block.height,
                hashes: seq![
                    HashEntryView {
                        hash: block.hash,
                        nodes: seq![NodeEntryView { identity, details }],
                    },
                ],
            },
        )
    }
}

/// The greatest `MAX_BLOCK_HEIGHT_STORED` heights of `heights`: the lowest
/// ones are evicted.
pub open spec fn newest(heights: Seq<HeightEntryView>) -> Seq<HeightEntryView> {
    if heights.len() > MAX_BLOCK_HEIGHT_STORED {
        heights.skip(heights.len() - MAX_BLOCK_HEIGHT_STORED)
    } else {
        heights
    }
}

/// The window after `identity` observed `details` of `block`.
pub open spec fn observe(
    heights: Seq<HeightEntryView>,
    block: Block,
    identity: IdentityView,
    details: DetailsView,
) -> Seq<HeightEntryView> {
    newest(upsert_height(heights, block, identity, details))
}

/// Whether some entry of `heights` is at height `height`.
pub open spec fn holds_height(heights: Seq<HeightEntryView>, height: BlockNumber) -> bool {
    exists|i: int| 0 <= i < heights.len() && (#[trigger] heights[i]).height == height
}

/// Putting a node into ordered nodes leaves them ordered, and not empty.
pub proof fn lemma_upsert_node(
    nodes: Seq<NodeEntryView>,
    identity: IdentityView,
    details: DetailsView,
)
    requires
        nodes_ascend(nodes),
    ensures
        nodes_ascend(upsert_node(nodes, identity, details)),
        upsert_node(nodes, identity, details).len() > 0,
{
    let k = first_index(nodes, identity_reached(identity));
    let after = upsert_node(nodes, identity, details);
    lemma_first_index_bounds(nodes, identity_reached(identity));
    if k < nodes.len() && nodes[k].identity == identity {
        assert forall|a: int, b: int| 0 <= a < b < after.len() implies identity_lt(
            (#[trigger] after[a]).identity,
            (#[trigger] after[b]).identity,
        ) by {
            assert(identity_lt(nodes[a].identity, nodes[b].identity));
        }
    } else {
        assert forall|a: int, b: int| 0 <= a < b < after.len() implies identity_lt(
            (#[trigger] after[a]).identity,
            (#[trigger] after[b]).identity,
        ) by {
            if b == k {
                assert(!identity_reached(identity)(nodes[a]));
            } else if a == k {
                lemma_identity_lt_total(nodes[k].identity, identity);
                assert(identity_reached(identity)(nodes[k]));
                if b - 1 > k {
                    assert(identity_lt(nodes[k].identity, nodes[b - 1].identity));
                    lemma_identity_lt_transitive(identity, nodes[k].identity, nodes[b - 1].identity);
                }
            } else if a < k && b > k {
                assert(after[a] == nodes[a]);
                assert(after[b] == nodes[b - 1]);
            } else if a < k {
                assert(after[a] == nodes[a] && after[b] == nodes[b]);
            } else {
                assert(after[a] == nodes[a - 1] && after[b] == nodes[b - 1]);
            }
        }
    }
}

/// Putting an observation into ordered hashes leaves them ordered, and not
/// empty.
pub proof fn lemma_upsert_hash(
    hashes: Seq<HashEntryView>,
    hash: BlockHash,
    identity: IdentityView,
    details: DetailsView,
)
    requires
        hashes_ascend(hashes),
    ensures
        hashes_ascend(upsert_hash(hashes, hash, identity, details)),
        upsert_hash(hashes, hash, identity, details).len() > 0,
{
    let j = first_index(hashes, hash_reached(hash));
    let after = upsert_hash(hashes, hash, identity, details);
    lemma_first_index_bounds(hashes, hash_reached(hash));
    if j < hashes.len() && hashes[j].hash == hash {
        lemma_upsert_node(hashes[j].nodes, identity, details);
        assert forall|a: int, b: int| 0 <= a < b < after.len() implies hash_lt(
            (#[trigger] after[a]).hash,
            (#[trigger] after[b]).hash,
        ) by {
            assert(hash_lt(hashes[a].hash, hashes[b].hash));
        }
        assert forall|a: int| 0 <= a < after.len() implies (#[trigger] after[a]).nodes.len() > 0
            && nodes_ascend(after[a].nodes) by {
            if a != j {
                assert(after[a] == hashes[a]);
            }
        }
    } else {
        assert forall|a: int, b: int| 0 <= a < b < after.len() implies hash_lt(
            (#[trigger] after[a]).hash,
            (#[trigger] after[b]).hash,
        ) by {
            if b == j {
                assert(!hash_reached(hash)(hashes[a]));
            } else if a == j {
                lemma_hash_lt_total(hashes[j].hash, hash);
                assert(hash_reached(hash)(hashes[j]));
                if b - 1 > j {
                    assert(hash_lt(hashes[j].hash, hashes[b - 1].hash));
                    lemma_hash_lt_transitive(hash, hashes[j].hash, hashes[b - 1].hash);
                }
            } else if a < j && b > j {
                assert(after[a] == hashes[a]);
                assert(after[b] == hashes[b - 1]);
            } else if a < j {
                assert(after[a] == hashes[a] && after[b] == hashes[b]);
            } else {
                assert(after[a] == hashes[a - 1] && after[b] == hashes[b - 1]);
            }
        }
        assert forall|a: int| 0 <= a < after.len() implies (#[trigger] after[a]).nodes.len() > 0
            && nodes_ascend(after[a].nodes) by {
            if a < j {
                assert(after[a] == hashes[a]);
            } else if a > j {
                assert(after[a] == hashes[a - 1]);
            }
        }
    }
}

/// Putting an observation into ordered heights leaves them ordered. The
/// heights held afterwards are those held before and the observed one, and
/// the window grows by one entry exactly when that height is new.
pub proof fn lemma_upsert_height(
    heights: Seq<HeightEntryView>,
    block: Block,
    identity: IdentityView,
    details: DetailsView,
)
    requires
        heights_ascend(heights),
    ensures
        heights_ascend(upsert_height(heights, block, identity, details)),
        forall|h: BlockNumber|
            holds_height(upsert_height(heights, block, identity, details), h) <==> (holds_height(
                heights,
                h,
            ) || h == block.height),
        upsert_height(heights, block, identity, details).len() == heights.len() + (if holds_height(
            heights,
            block.height,
        ) {
            0int
        } else {
            1int
        }),
{
    let i = first_index(heights, height_reached(block.height));
    let after = upsert_height(heights, block, identity, details);
    lemma_first_index_bounds(heights, height_reached(block.height));
    if i < heights.len() && heights[i].height == block.height {
        lemma_upsert_hash(heights[i].hashes, block.hash, identity, details);
        assert forall|a: int, b: int| 0 <= a < b < after.len() implies (#[trigger] after[a]).height
            < (#[trigger] after[b]).height by {
            assert(heights[a].height < heights[b].height);
        }
        assert forall|a: int| 0 <= a < after.len() implies (#[trigger] after[a]).hashes.len() > 0
            && hashes_ascend(after[a].hashes) by {
            if a != i {
                assert(after[a] == heights[a]);
            }
        }
        assert forall|h: BlockNumber| holds_height(after, h) <==> (holds_height(heights, h) || h
            == block.height) by {
            if holds_height(after, h) {
                let a = choose|a: int| 0 <= a < after.len() && (#[trigger] after[a]).height == h;
                assert(heights[a].height == h);
            }
            if holds_height(heights, h) {
                let a = choose|a: int| 0 <= a < heights.len() && (#[trigger] heights[a]).height == h;
                assert(after[a].height == h);
            }
            if h == block.height {
                assert(after[i].height == h);
            }
        }
        assert(holds_height(heights, block.height));
    } else {
        assert(hashes_ascend(after[i].hashes)) by {
            assert(nodes_ascend(after[i].hashes[0].nodes));
        }
        assert forall|a: int, b: int| 0 <= a < b < after.len() implies (#[trigger] after[a]).height
            < (#[trigger] after[b]).height by {
            if b == i {
                assert(!height_reached(block.height)(heights[a]));
            } else if a == i {
                assert(height_reached(block.height)(heights[i]));
                assert(heights[i].height <= heights[b - 1].height);
            } else if a < i && b > i {
                assert(after[a] == heights[a]);
                assert(after[b] == heights[b - 1]);
            } else if a < i {
                assert(after[a] == heights[a] && after[b] == heights[b]);
            } else {
                assert(after[a] == heights[a - 1] && after[b] == heights[b - 1]);
            }
        }
        assert forall|a: int| 0 <= a < after.len() implies (#[trigger] after[a]).hashes.len() > 0
            && hashes_ascend(after[a].hashes) by {
            if a < i {
                assert(after[a] == heights[a]);
            } else if a > i {
                assert(after[a] == heights[a - 1]);
            }
        }
        assert forall|h: BlockNumber| holds_height(after, h) <==> (holds_height(heights, h) || h
            == block.height) by {
            if holds_height(after, h) && h != block.height {
                let a = choose|a: int| 0 <= a < after.len() && (#[trigger] after[a]).height == h;
                if a < i {
                    assert(heights[a].height == h);
                } else {
                    assert(heights[a - 1].height == h);
                }
            }
            if holds_height(heights, h) {
                let a = choose|a: int| 0 <= a < heights.len() && (#[trigger] heights[a]).height == h;
                if a < i {
                    assert(after[a].height == h);
                } else {
                    assert(after[a + 1].height == h);
                }
            }
            if h == block.height {
                assert(after[i].height == h);
            }
        }
        if holds_height(heights, block.height) {
            let a = choose|a: int|
                0 <= a < heights.len() && (#[trigger] heights[a]).height == block.height;
            if a < i {
                assert(!height_reached(block.height)(heights[a]));
            } else if a > i {
                assert(heights[i].height < heights[a].height);
                assert(height_reached(block.height)(heights[i]));
            }
        }
    }
}

/// The entries of the node `identity`.
pub open spec fn at_identity(identity: IdentityView) -> spec_fn(NodeEntryView) -> bool {
    |n: NodeEntryView| n.identity == identity
}

/// The entries of the block `hash`.
pub open spec fn at_hash(hash: BlockHash) -> spec_fn(HashEntryView) -> bool {
    |h: HashEntryView| h.hash == hash
}

/// The entries at height `height`.
pub open spec fn at_height(height: BlockNumber) -> spec_fn(HeightEntryView) -> bool {
    |e: HeightEntryView| e.height == height
}

/// What `identity` observed, among the nodes of one block. No nodes where
/// it observed nothing.
pub open spec fn details_among(nodes: Seq<NodeEntryView>, identity: IdentityView) -> Option<
    DetailsView,
> {
    let k = first_index(nodes, at_identity(identity));
    if k < nodes.len() {
        Some(nodes[k].details)
    } else {
        None
    }
}

/// The nodes that observed the block `hash`, among the blocks of one
/// height. No nodes where the block was not observed.
pub open spec fn nodes_among(hashes: Seq<HashEntryView>, hash: BlockHash) -> Seq<NodeEntryView> {
    let j = first_index(hashes, at_hash(hash));
    if j < hashes.len() {
        hashes[j].nodes
    } else {
        Seq::empty()
    }
}

/// The blocks observed at `height`. No blocks where the window does not
/// hold the height.
pub open spec fn hashes_among(heights: Seq<HeightEntryView>, height: BlockNumber) -> Seq<
    HashEntryView,
> {
    let i = first_index(heights, at_height(height));
    if i < heights.len() {
        heights[i].hashes
    } else {
        Seq::empty()
    }
}

/// What the node `identity` observed of the block `hash` at `height`, as
/// far as the window holds it.
pub open spec fn observation(
    heights: Seq<HeightEntryView>,
    height: BlockNumber,
    hash: BlockHash,
    identity: IdentityView,
) -> Option<DetailsView> {
    details_among(nodes_among(hashes_among(heights, height), hash), identity)
}

/// After a node was put among ordered nodes, it is found with what it
/// observed, and every other node with what it had observed before.
pub proof fn lemma_details_after_upsert(
    nodes: Seq<NodeEntryView>,
    identity: IdentityView,
    details: DetailsView,
    other: IdentityView,
)
    requires
        nodes_ascend(nodes),
    ensures
        details_among(upsert_node(nodes, identity, details), other) == if other == identity {
            Some(details)
        } else {
            details_among(nodes, other)
        },
{
    let k = first_index(nodes, identity_reached(identity));
    let entry = NodeEntryView { identity, details };
    let after = upsert_node(nodes, identity, details);
    lemma_first_index_bounds(nodes, identity_reached(identity));
    lemma_first_index_bounds(nodes, at_identity(other));
    let found = first_index(nodes, at_identity(other));
    if k < nodes.len() && nodes[k].identity == identity {
        lemma_first_index_after_update(nodes, k, entry, at_identity(other));
        if other == identity {
            assert forall|l: int| 0 <= l < k implies !at_identity(identity)(#[trigger] nodes[l]) by {
                assert(!identity_reached(identity)(nodes[l]));
                lemma_identity_lt_total(nodes[l].identity, identity);
            }
            lemma_first_index_is(nodes, at_identity(identity), k);
        } else if found < nodes.len() {
            assert(at_identity(other)(nodes[found]));
        }
    } else {
        assert forall|l: int| 0 <= l < nodes.len() implies !at_identity(identity)(
            #[trigger] nodes[l],
        ) by {
            if l < k {
                assert(!identity_reached(identity)(nodes[l]));
                lemma_identity_lt_total(nodes[l].identity, identity);
            } else {
                assert(identity_reached(identity)(nodes[k]));
                lemma_identity_lt_total(nodes[k].identity, identity);
                if l > k {
                    assert(identity_lt(nodes[k].identity, nodes[l].identity));
                    lemma_identity_lt_transitive(identity, nodes[k].identity, nodes[l].identity);
                    lemma_identity_lt_total(nodes[l].identity, identity);
                }
            }
        }
        lemma_first_index_is(nodes, at_identity(identity), nodes.len() as int);
        lemma_first_index_after_insert(nodes, k, entry, at_identity(other));
        if other != identity && found < nodes.len() {
            if found < k {
                assert(after[found] == nodes[found]);
            } else {
                assert(after[found + 1] == nodes[found]);
            }
        }
    }
}

/// After an observation was put among the ordered blocks of a height, the
/// observed block is found with the observing node put among its nodes, and
/// every other block with the nodes it had.
pub proof fn lemma_nodes_after_upsert(
    hashes: Seq<HashEntryView>,
    hash: BlockHash,
    identity: IdentityView,
    details: DetailsView,
    other: BlockHash,
)
    requires
        hashes_ascend(hashes),
    ensures
        nodes_among(upsert_hash(hashes, hash, identity, details), other) == if other == hash {
            upsert_node(nodes_among(hashes, hash), identity, details)
        } else {
            nodes_among(hashes, other)
        },
        nodes_ascend(nodes_among(hashes, other)),
{
    let j = first_index(hashes, hash_reached(hash));
    let after = upsert_hash(hashes, hash, identity, details);
    lemma_first_index_bounds(hashes, hash_reached(hash));
    lemma_first_index_bounds(hashes, at_hash(other));
    let found = first_index(hashes, at_hash(other));
    if found < hashes.len() {
        assert(nodes_ascend(hashes[found].nodes));
    }
    if j < hashes.len() && hashes[j].hash == hash {
        let entry = HashEntryView { hash, nodes: upsert_node(hashes[j].nodes, identity, details) };
        lemma_first_index_after_update(hashes, j, entry, at_hash(other));
        if other == hash {
            assert forall|l: int| 0 <= l < j implies !at_hash(hash)(#[trigger] hashes[l]) by {
                assert(!hash_reached(hash)(hashes[l]));
                lemma_hash_lt_total(hashes[l].hash, hash);
            }
            lemma_first_index_is(hashes, at_hash(hash), j);
        } else if found < hashes.len() {
            assert(at_hash(other)(hashes[found]));
        }
    } else {
        let fresh = NodeEntryView { identity, details };
        let entry = HashEntryView { hash, nodes: seq![fresh] };
        assert forall|l: int| 0 <= l < hashes.len() implies !at_hash(hash)(#[trigger] hashes[l]) by {
            if l < j {
                assert(!hash_reached(hash)(hashes[l]));
                lemma_hash_lt_total(hashes[l].hash, hash);
            } else {
                assert(hash_reached(hash)(hashes[j]));
                lemma_hash_lt_total(hashes[j].hash, hash);
                if l > j {
                    assert(hash_lt(hashes[j].hash, hashes[l].hash));
                    lemma_hash_lt_transitive(hash, hashes[j].hash, hashes[l].hash);
                    lemma_hash_lt_total(hashes[l].hash, hash);
                }
            }
        }
        lemma_first_index_is(hashes, at_hash(hash), hashes.len() as int);
        lemma_first_index_after_insert(hashes, j, entry, at_hash(other));
        if other == hash {
            let none = Seq::<NodeEntryView>::empty();
            lemma_first_index_is(none, identity_reached(identity), 0);
            assert(upsert_node(none, identity, details) =~= seq![fresh]);
        } else if found < hashes.len() {
            if found < j {
                assert(after[found] == hashes[found]);
            } else {
                assert(after[found + 1] == hashes[found]);
            }
        }
    }
}

/// After an observation was put into ordered heights, the observed height
/// is found with the observation put among its blocks, and every other
/// height with the blocks it had.
pub proof fn lemma_hashes_after_upsert(
    heights: Seq<HeightEntryView>,
    block: Block,
    identity: IdentityView,
    details: DetailsView,
    other: BlockNumber,
)
    requires
        heights_ascend(heights),
    ensures
        hashes_among(upsert_height(heights, block, identity, details), other) == if other
            == block.height {
            upsert_hash(hashes_among(heights, block.height), block.hash, identity, details)
        } else {
            hashes_among(heights, other)
        },
        hashes_ascend(hashes_among(heights, other)),
{
    let i = first_index(heights, height_reached(block.height));
    let after = upsert_height(heights, block, identity, details);
    lemma_first_index_bounds(heights, height_reached(block.height));
    lemma_first_index_bounds(heights, at_height(other));
    let found = first_index(heights, at_height(other));
    if found < heights.len() {
        assert(hashes_ascend(heights[found].hashes));
    }
    if i < heights.len() && heights[i].height == block.height {
        let entry = HeightEntryView {
            height: block.height,
            hashes: upsert_hash(heights[i].hashes, block.hash, identity, details),
        };
        lemma_first_index_after_update(heights, i, entry, at_height(other));
        if other == block.height {
            assert forall|l: int| 0 <= l < i implies !at_height(other)(#[trigger] heights[l]) by {
                assert(!height_reached(block.height)(heights[l]));
            }
            lemma_first_index_is(heights, at_height(other), i);
        } else if found < heights.len() {
            assert(at_height(other)(heights[found]));
        }
    } else {
        let fresh = NodeEntryView { identity, details };
        let entry = HeightEntryView {
            height: block.height,
            hashes: seq![HashEntryView { hash: block.hash, nodes: seq![fresh] }],
        };
        assert forall|l: int| 0 <= l < heights.len() implies !at_height(block.height)(
            #[trigger] heights[l],
        ) by {
            if l < i {
                assert(!height_reached(block.height)(heights[l]));
            } else {
                assert(height_reached(block.height)(heights[i]));
                assert(heights[i].height <= heights[l].height);
            }
        }
        lemma_first_index_is(heights, at_height(block.height), heights.len() as int);
        lemma_first_index_after_insert(heights, i, entry, at_height(other));
        if other == block.height {
            let none = Seq::<HashEntryView>::empty();
            lemma_first_index_is(none, hash_reached(block.hash), 0);
            assert(upsert_hash(none, block.hash, identity, details) =~= entry.hashes);
        } else if found < heights.len() {
            if found < i {
                assert(after[found] == heights[found]);
            } else {
                assert(after[found + 1] == heights[found]);
            }
        }
    }
}

/// The last observation wins: after `identity` observed `details` of
/// `block`, the window, with nothing evicted yet, holds that observation for
/// that node and block and, for every other node and block, what it held
/// before.
pub proof fn lemma_observation_after_upsert(
    heights: Seq<HeightEntryView>,
    block: Block,
    identity: IdentityView,
    details: DetailsView,
    height: BlockNumber,
    hash: BlockHash,
    node: IdentityView,
)
    requires
        heights_ascend(heights),
    ensures
        observation(upsert_height(heights, block, identity, details), height, hash, node) == if height
            == block.height && hash == block.hash && node == identity {
            Some(details)
        } else {
            observation(heights, height, hash, node)
        },
{
    lemma_hashes_after_upsert(heights, block, identity, details, height);
    if height == block.height {
        let hashes = hashes_among(heights, height);
        lemma_nodes_after_upsert(hashes, block.hash, identity, details, hash);
        if hash == block.hash {
            lemma_details_after_upsert(nodes_among(hashes, hash), identity, details, node);
        }
    }
}

/// Eviction forgets whole heights and nothing else: what the newest
/// heights hold of a node and a block is what the window held, if the
/// height is among them, and nothing otherwise.
pub proof fn lemma_observation_after_newest(
    heights: Seq<HeightEntryView>,
    height: BlockNumber,
    hash: BlockHash,
    node: IdentityView,
)
    requires
        heights_ascend(heights),
    ensures
        observation(newest(heights), height, hash, node) == if holds_height(
            newest(heights),
            height,
        ) {
            observation(heights, height, hash, node)
        } else {
            None
        },
{
    let kept = newest(heights);
    let cut = heights.len() - kept.len();
    assert forall|a: int| 0 <= a < kept.len() implies (#[trigger] kept[a]) == heights[a + cut] by {}
    if holds_height(kept, height) {
        let a = choose|a: int| 0 <= a < kept.len() && (#[trigger] kept[a]).height == height;
        assert forall|l: int| 0 <= l < a implies !at_height(height)(#[trigger] kept[l]) by {
            assert(heights[l + cut].height < heights[a + cut].height);
        }
        lemma_first_index_is(kept, at_height(height), a);
        assert forall|l: int| 0 <= l < a + cut implies !at_height(height)(#[trigger] heights[l]) by {
            assert(heights[l].height < heights[a + cut].height);
        }
        lemma_first_index_is(heights, at_height(height), a + cut);
    } else {
        assert forall|l: int| 0 <= l < kept.len() implies !at_height(height)(#[trigger] kept[l]) by {}
        lemma_first_index_is(kept, at_height(height), kept.len() as int);
        lemma_first_index_is(Seq::<HashEntryView>::empty(), at_hash(hash), 0);
        lemma_first_index_is(Seq::<NodeEntryView>::empty(), at_identity(node), 0);
    }
}

/// One call of `StoredBlocks::new_entry`, as what it records.
pub ghost struct Observation {
    pub block: Block,
    pub identity: IdentityView,
    pub details: DetailsView,
}

/// The window that a run of observations leaves, starting from the empty
/// window.
pub open spec fn observe_all(run: Seq<Observation>) -> Seq<HeightEntryView>
    decreases run.len(),
{
    if run.len() == 0 {
        Seq::empty()
    } else {
        observe(
            observe_all(run.drop_last()),
            run.last().block,
            run.last().identity,
            run.last().details,
        )
    }
}

/// Whether some observation of `run` was of a block at height `height`.
pub open spec fn observed_height(run: Seq<Observation>, height: BlockNumber) -> bool {
    exists|i: int| 0 <= i < run.len() && (#[trigger] run[i]).block.height == height
}

/// Dropping all but the newest heights leaves the entries ordered, keeps at
/// most `MAX_BLOCK_HEIGHT_STORED` of them, and keeps a height exactly when
/// fewer than that many entries follow it.
pub proof fn lemma_newest(heights: Seq<HeightEntryView>)
    requires
        heights_ascend(heights),
    ensures
        heights_ascend(newest(heights)),
        newest(heights).len() <= MAX_BLOCK_HEIGHT_STORED,
        heights.len() >= MAX_BLOCK_HEIGHT_STORED ==> newest(heights).len()
            == MAX_BLOCK_HEIGHT_STORED,
        heights.len() <= MAX_BLOCK_HEIGHT_STORED ==> newest(heights) == heights,
        forall|i: int|
            0 <= i < heights.len() ==> (holds_height(newest(heights), (#[trigger] heights[i]).height)
                <==> heights.len() - i <= MAX_BLOCK_HEIGHT_STORED),
        forall|h: BlockNumber| holds_height(newest(heights), h) ==> holds_height(heights, h),
{
    let kept = newest(heights);
    let cut = heights.len() - kept.len();
    assert forall|a: int| 0 <= a < kept.len() implies (#[trigger] kept[a]) == heights[a + cut] by {}
    assert forall|a: int, b: int| 0 <= a < b < kept.len() implies (#[trigger] kept[a]).height < (
    #[trigger] kept[b]).height by {
        assert(heights[a + cut].height < heights[b + cut].height);
    }
    assert forall|a: int| 0 <= a < kept.len() implies (#[trigger] kept[a]).hashes.len() > 0
        && hashes_ascend(kept[a].hashes) by {
        assert(kept[a] == heights[a + cut]);
    }
    assert forall|i: int| 0 <= i < heights.len() implies (holds_height(
        kept,
        (#[trigger] heights[i]).height,
    ) <==> heights.len() - i <= MAX_BLOCK_HEIGHT_STORED) by {
        if holds_height(kept, heights[i].height) {
            let a = choose|a: int| 0 <= a < kept.len() && (#[trigger] kept[a]).height == heights[i].height;
            assert(kept[a] == heights[a + cut]);
            if a + cut < i {
                assert(heights[a + cut].height < heights[i].height);
            } else if a + cut > i {
                assert(heights[i].height < heights[a + cut].height);
            }
        }
        if heights.len() - i <= MAX_BLOCK_HEIGHT_STORED {
            assert(kept[i - cut] == heights[i]);
        }
    }
    assert forall|h: BlockNumber| holds_height(kept, h) implies holds_height(heights, h) by {
        let a = choose|a: int| 0 <= a < kept.len() && (#[trigger] kept[a]).height == h;
        assert(heights[a + cut].height == h);
    }
}

/// After any run of calls of `new_entry` the window holds at most
/// `MAX_BLOCK_HEIGHT_STORED` distinct heights, all of them observed in the
/// run, and they are the greatest ones observed: every observed height that
/// the window lacks is below every height it holds, and the window lacks one
/// only when it is full.
pub proof fn lemma_window_keeps_greatest_heights(run: Seq<Observation>)
    ensures
        heights_ascend(observe_all(run)),
        observe_all(run).len() <= MAX_BLOCK_HEIGHT_STORED,
        forall|h: BlockNumber| holds_height(observe_all(run), h) ==> observed_height(run, h),
        forall|x: BlockNumber, y: BlockNumber|
            observed_height(run, x) && !holds_height(observe_all(run), x) && holds_height(
                observe_all(run),
                y,
            ) ==> x < y,
        forall|x: BlockNumber|
            observed_height(run, x) && !holds_height(observe_all(run), x) ==> observe_all(
                run,
            ).len() == MAX_BLOCK_HEIGHT_STORED,
    decreases run.len(),
{
    if run.len() > 0 {
        let earlier = run.drop_last();
        let last = run.last();
        let w0 = observe_all(earlier);
        let w1 = upsert_height(w0, last.block, last.identity, last.details);
        let w = observe_all(run);
        lemma_window_keeps_greatest_heights(earlier);
        lemma_upsert_height(w0, last.block, last.identity, last.details);
        lemma_newest(w1);
        assert forall|h: BlockNumber| observed_height(run, h) <==> (observed_height(earlier, h) || h
            == last.block.height) by {
            if observed_height(run, h) {
                let i = choose|i: int| 0 <= i < run.len() && (#[trigger] run[i]).block.height == h;
                if i < earlier.len() {
                    assert(earlier[i].block.height == h);
                }
            }
            if observed_height(earlier, h) {
                let i = choose|i: int|
                    0 <= i < earlier.len() && (#[trigger] earlier[i]).block.height == h;
                assert(run[i].block.height == h);
            }
            if h == last.block.height {
                assert(run[run.len() - 1].block.height == h);
            }
        }
        assert forall|x: BlockNumber, y: BlockNumber|
            observed_height(run, x) && !holds_height(w, x) && holds_height(w, y) implies x < y by {
            let b = choose|b: int| 0 <= b < w.len() && (#[trigger] w[b]).height == y;
            let cut = w1.len() - w.len();
            assert(w[b] == w1[b + cut]);
            if holds_height(w1, x) {
                let a = choose|a: int| 0 <= a < w1.len() && (#[trigger] w1[a]).height == x;
                assert(w1.len() - a > MAX_BLOCK_HEIGHT_STORED);
                assert(w1[a].height < w1[b + cut].height);
            } else {
                assert(!holds_height(w0, x) && observed_height(earlier, x));
                assert(w0.len() == MAX_BLOCK_HEIGHT_STORED);
                if y == last.block.height && !holds_height(w0, y) {
                    assert(w1.len() == MAX_BLOCK_HEIGHT_STORED + 1);
                    assert(cut == 1);
                    assert(w1[0].height < w1[b + cut].height);
                    assert(holds_height(w1, w1[0].height));
                    if w1[0].height != last.block.height {
                        assert(holds_height(w0, w1[0].height));
                    }
                } else {
                    assert(holds_height(w0, y));
                }
            }
        }
        assert forall|x: BlockNumber| observed_height(run, x) && !holds_height(w, x) implies w.len()
            == MAX_BLOCK_HEIGHT_STORED by {
            if holds_height(w1, x) {
                let a = choose|a: int| 0 <= a < w1.len() && (#[trigger] w1[a]).height == x;
                assert(w1.len() - a > MAX_BLOCK_HEIGHT_STORED);
            } else {
                assert(!holds_height(w0, x) && observed_height(earlier, x));
            }
        }
    }
}

fn put_node(nodes: &mut Vec<NodeEntry>, identity: UniqueNodeIdentity, details: BlockIntervalDetails)
    requires
        nodes_ascend(view_seq(old(nodes)@)),
    ensures
        view_seq(final(nodes)@) == upsert_node(view_seq(old(nodes)@), identity@, details@),
        nodes_ascend(view_seq(final(nodes)@)),
        final(nodes)@.len() > 0,
{
    let ghost before = view_seq(nodes@);
    let ghost id = identity@;
    let ghost seen = details@;
    let n = nodes.len();
    let mut k: usize = 0;
    while k < n && nodes[k].identity.rank(&identity) == Rank::Below
        invariant
            n == nodes@.len(),
            k <= n,
            before == view_seq(nodes@),
            id == identity@,
            forall|l: int| 0 <= l < k ==> !identity_reached(id)(#[trigger] before[l]),
        decreases n - k,
    {
        k += 1;
    }
    proof {
        lemma_first_index_is(before, identity_reached(id), k as int);
        lemma_upsert_node(before, id, seen);
    }
    let entry = NodeEntry { identity, details };
    if k < n && nodes[k].identity.rank(&entry.identity) == Rank::Same {
        nodes[k] = entry;
        assert(view_seq(nodes@) =~= before.update(k as int, entry@));
    } else {
        nodes.insert(k, entry);
        assert(view_seq(nodes@) =~= before.insert(k as int, entry@));
    }
}

fn put_hash(
    hashes: &mut Vec<HashEntry>,
    hash: BlockHash,
    identity: UniqueNodeIdentity,
    details: BlockIntervalDetails,
)
    requires
        hashes_ascend(view_seq(old(hashes)@)),
    ensures
        view_seq(final(hashes)@) == upsert_hash(view_seq(old(hashes)@), hash, identity@, details@),
        hashes_ascend(view_seq(final(hashes)@)),
        final(hashes)@.len() > 0,
{
    let ghost before = view_seq(hashes@);
    let ghost id = identity@;
    let ghost seen = details@;
    let n = hashes.len();
    let mut j: usize = 0;
    while j < n && hashes[j].hash.rank(&hash) == Rank::Below
        invariant
            n == hashes@.len(),
            j <= n,
            before == view_seq(hashes@),
            forall|l: int| 0 <= l < j ==> !hash_reached(hash)(#[trigger] before[l]),
        decreases n - j,
    {
        j += 1;
    }
    proof {
        lemma_first_index_is(before, hash_reached(hash), j as int);
        lemma_upsert_hash(before, hash, id, seen);
    }
    if j < n && hashes[j].hash.same(&hash) {
        put_node(&mut hashes[j].nodes, identity, details);
        let ghost fresh = HashEntryView {
            hash,
            nodes: upsert_node(before[j as int].nodes, id, seen),
        };
        assert(view_seq(hashes@) =~= before.update(j as int, fresh));
    } else {
        let entry = HashEntry { hash, nodes: vec![NodeEntry { identity, details }] };
        let ghost fresh = HashEntryView {
            hash,
            nodes: seq![NodeEntryView { identity: id, details: seen }],
        };
        assert(entry@.nodes =~= fresh.nodes);
        hashes.insert(j, entry);
        assert(view_seq(hashes@) =~= before.insert(j as int, fresh));
    }
}

impl StoredBlocks {
    /// The window holds at most `MAX_BLOCK_HEIGHT_STORED` heights and every
    /// level of it is in ascending order.
    pub open spec fn wf(&self) -> bool {
        &&& self@.len() <= MAX_BLOCK_HEIGHT_STORED
        &&& heights_ascend(self@)
    }

    /// An empty window.
    pub fn new() -> (r: Self)
        ensures
            r.wf(),
            r@ == Seq::<HeightEntryView>::empty(),
    {
        let r = StoredBlocks { heights: Vec::new() };
        assert(r@ =~= Seq::<HeightEntryView>::empty());
        r
    }

    /// The heights of the window, the lowest first.
    pub fn heights(&self) -> (r: &Vec<HeightEntry>)
        ensures
            view_seq(r@) == self@,
    {
        &self.heights
    }

    /// The blocks observed at `height`, if the window holds that height.
    pub fn find_height(&self, height: BlockNumber) -> (r: Option<&HeightEntry>)
        requires
            self.wf(),
        ensures
            r is Some <==> holds_height(self@, height),
            r matches Some(entry) ==> entry.height == height && exists|i: int|
                0 <= i < self@.len() && #[trigger] self@[i] == entry@,
    {
        let n = self.heights.len();
        let mut i: usize = 0;
        while i < n
            invariant
                n == self.heights@.len(),
                i <= n,
                forall|l: int| 0 <= l < i ==> (#[trigger] self@[l]).height != height,
            decreases n - i,
        {
            if self.heights[i].height == height {
                assert(self@[i as int] == self.heights@[i as int]@);
                return Some(&self.heights[i]);
            }
            i += 1;
        }
        None
    }

    /// What `identity` observed of the block `hash` at `height`, as far as
    /// the window holds it.
    pub fn get(&self, height: BlockNumber, hash: &BlockHash, identity: &UniqueNodeIdentity) -> (r:
        Option<&BlockIntervalDetails>)
        ensures
            r is Some == observation(self@, height, *hash, identity@) is Some,
            r matches Some(details) ==> observation(self@, height, *hash, identity@) == Some(
                details@,
            ),
    {
        let n = self.heights.len();
        let mut i: usize = 0;
        while i < n && self.heights[i].height != height
            invariant
                n == self.heights@.len(),
                i <= n,
                forall|l: int| 0 <= l < i ==> !at_height(height)(#[trigger] self@[l]),
            decreases n - i,
        {
            i += 1;
        }
        proof {
            lemma_first_index_is(self@, at_height(height), i as int);
            lemma_first_index_is(Seq::<HashEntryView>::empty(), at_hash(*hash), 0);
            lemma_first_index_is(Seq::<NodeEntryView>::empty(), at_identity(identity@), 0);
        }
        if i == n {
            return None;
        }
        let hashes = &self.heights[i].hashes;
        let ghost seen = view_seq(hashes@);
        assert(seen == hashes_among(self@, height));
        let m = hashes.len();
        let mut j: usize = 0;
        while j < m && !hashes[j].hash.same(hash)
            invariant
                m == hashes@.len(),
                j <= m,
                seen == view_seq(hashes@),
                forall|l: int| 0 <= l < j ==> !at_hash(*hash)(#[trigger] seen[l]),
            decreases m - j,
        {
            j += 1;
        }
        proof {
            lemma_first_index_is(seen, at_hash(*hash), j as int);
        }
        if j == m {
            return None;
        }
        let nodes = &hashes[j].nodes;
        let ghost among = view_seq(nodes@);
        assert(among == nodes_among(seen, *hash));
        let p = nodes.len();
        let mut k: usize = 0;
        while k < p && nodes[k].identity.rank(identity) != Rank::Same
            invariant
                p == nodes@.len(),
                k <= p,
                among == view_seq(nodes@),
                forall|l: int| 0 <= l < k ==> !at_identity(identity@)(#[trigger] among[l]),
            decreases p - k,
        {
            proof {
                lemma_identity_lt_total(among[k as int].identity, identity@);
            }
            k += 1;
        }
        proof {
            lemma_first_index_is(among, at_identity(identity@), k as int);
            if k < p {
                lemma_identity_lt_total(among[k as int].identity, identity@);
            }
        }
        if k == p {
            return None;
        }
        Some(&nodes[k].details)
    }

    /// Records what `identity` observed of `block`, replacing what it had
    /// observed of that block before, and evicts the lowest heights beyond
    /// `MAX_BLOCK_HEIGHT_STORED`.
    pub fn new_entry(
        &mut self,
        identity: UniqueNodeIdentity,
        block: Block,
        proposal: Option<IntervalFromNode>,
        import: Option<IntervalFromNode>,
        sync: Option<IntervalFromNode>,
    )
        requires
            old(self).wf(),
        ensures
            final(self).wf(),
            final(self)@ == observe(
                old(self)@,
                block,
                identity@,
                DetailsView {
                    proposal: view_opt(proposal),
                    import: view_opt(import),
                    sync: view_opt(sync),
                },
            ),
    {
        let data = BlockIntervalDetails { proposal, import, sync };
        let ghost before = self@;
        let ghost id = identity@;
        let ghost seen = data@;
        let n = self.heights.len();
        let mut i: usize = 0;
        while i < n && self.heights[i].height < block.height
            invariant
                n == self.heights@.len(),
                i <= n,
                before == self@,
                forall|l: int| 0 <= l < i ==> !height_reached(block.height)(#[trigger] before[l]),
            decreases n - i,
        {
            i += 1;
        }
        proof {
            lemma_first_index_is(before, height_reached(block.height), i as int);
            lemma_upsert_height(before, block, id, seen);
        }
        if i < n && self.heights[i].height == block.height {
            put_hash(&mut self.heights[i].hashes, block.hash, identity, data);
            let ghost fresh = HeightEntryView {
                height: block.height,
                hashes: upsert_hash(before[i as int].hashes, block.hash, id, seen),
            };
            assert(self@ =~= before.update(i as int, fresh));
        } else {
            let entry = HeightEntry {
                height: block.height,
                hashes: vec![
                    HashEntry { hash: block.hash, nodes: vec![NodeEntry { identity, details: data }] },
                ],
            };
            let ghost fresh = HeightEntryView {
                height: block.height,
                hashes: seq![
                    HashEntryView {
                        hash: block.hash,
                        nodes: seq![NodeEntryView { identity: id, details: seen }],
                    },
                ],
            };
            assert(entry@.hashes[0].nodes =~= fresh.hashes[0].nodes);
            assert(entry@.hashes =~= fresh.hashes);
            self.heights.insert(i, entry);
            assert(self@ =~= before.insert(i as int, fresh));
        }
        let ghost grown = self@;
        assert(grown == upsert_height(before, block, id, seen));
        while self.heights.len() > MAX_BLOCK_HEIGHT_STORED
            invariant
                heights_ascend(self@),
                self@.len() <= grown.len(),
                grown.len() <= MAX_BLOCK_HEIGHT_STORED + 1,
                self@.len() >= MAX_BLOCK_HEIGHT_STORED || self@.len() == grown.len(),
                self@ == grown.skip(grown.len() - self@.len()),
            decreases self.heights@.len(),
        {
            let ghost had = self@;
            self.heights.remove(0);
            assert(self@ =~= had.skip(1));
            assert(self@ =~= grown.skip(grown.len() - self@.len()));
        }
        assert(grown.skip(0) =~= grown);
    }
}

} // verus!
