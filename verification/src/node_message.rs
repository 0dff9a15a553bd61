//! The timed events and periodic reports that nodes send.

use crate::node_types::{
    copy_text_opt, view_opt, Block, BlockHash, NodeHwBench, NodeLocation, NodeLocationView,
    Timestamp,
};
use vstd::prelude::*;

verus! {

/// What a node was doing with a block during an interval.
#[derive(Clone, Copy, Debug, PartialEq, Eq, Structural)]
pub enum IntervalKind {
    Proposal,
    Sync,
    Import,
}

/// A timed event that a node reports for a block.
#[derive(Debug)]
pub struct IntervalFromNode {
    pub kind: IntervalKind,
    pub peer_id: Option<String>,
    pub start_timestamp: Timestamp,
    pub end_timestamp: Timestamp,
}

/// An interval with its peer id as text.
pub ghost struct IntervalView {
    pub kind: IntervalKind,
    pub peer_id: Option<Seq<char>>,
    pub start_timestamp: Timestamp,
    pub end_timestamp: Timestamp,
}

impl View for IntervalFromNode {
    type V = IntervalView;

    open spec fn view(&self) -> IntervalView {
        IntervalView {
            kind: self.kind,
            peer_id: view_opt(self.peer_id),
            start_timestamp: self.start_timestamp,
            end_timestamp: self.end_timestamp,
        }
    }
}

impl Clone for IntervalFromNode {
    fn clone(&self) -> (r: Self)
        ensures
            r@ == self@,
    {
        IntervalFromNode {
            kind: self.kind,
            peer_id: copy_text_opt(&self.peer_id),
            start_timestamp: self.start_timestamp,
            end_timestamp: self.end_timestamp,
        }
    }
}

/// The counters of a node's periodic report. The bandwidth and cache samples
/// of the same report are not part of it.
#[derive(Clone, Copy, Debug)]
pub struct SystemInterval {
    pub peers: Option<u64>,
    pub txcount: Option<u64>,
}

/// What a node reports once it is connected.
#[derive(Debug)]
pub enum Payload {
    /// Its best block.
    BestBlock { block: Block },
    /// Its finalized block.
    FinalizedBlock { block: Block },
    /// The counters of a periodic report.
    SystemInterval { counters: SystemInterval },
    /// The results of its hardware benchmark.
    HwBench { hwbench: NodeHwBench },
    /// An interval that it spent on a block.
    Interval { block: Block, interval: IntervalFromNode },
    /// How long it took over an earlier block.
    HistoricalInterval { block_hash: BlockHash, block_height: u32, duration: u64, kind: IntervalKind },
    /// Its validator address.
    ValidatorAddress { address: String },
    /// Where it is, as found out from its address.
    Location { location: Option<NodeLocation> },
}

/// A report of a node, with its texts as sequences of characters.
pub ghost enum PayloadView {
    BestBlock { block: Block },
    FinalizedBlock { block: Block },
    SystemInterval { counters: SystemInterval },
    HwBench { hwbench: NodeHwBench },
    Interval { block: Block, interval: IntervalView },
    HistoricalInterval { block_hash: BlockHash, block_height: u32, duration: u64, kind: IntervalKind },
    ValidatorAddress { address: Seq<char> },
    Location { location: Option<NodeLocationView> },
}

impl View for Payload {
    type V = PayloadView;

    open spec fn view(&self) -> PayloadView {
        match *self {
            Payload::BestBlock { block } => PayloadView::BestBlock { block },
            Payload::FinalizedBlock { block } => PayloadView::FinalizedBlock { block },
            Payload::SystemInterval { counters } => PayloadView::SystemInterval { counters },
            Payload::HwBench { hwbench } => PayloadView::HwBench { hwbench },
            Payload::Interval { block, interval } => PayloadView::Interval {
                block,
                interval: interval@,
            },
            Payload::HistoricalInterval {
                block_hash,
                block_height,
                duration,
                kind,
            } => PayloadView::HistoricalInterval { block_hash, block_height, duration, kind },
            Payload::ValidatorAddress { address } => PayloadView::ValidatorAddress {
                address: address@,
            },
            Payload::Location { location } => PayloadView::Location { location: view_opt(location) },
        }
    }
}

impl Clone for Payload {
    fn clone(&self) -> (r: Self)
        ensures
            r@ == self@,
    {
        match self {
            Payload::BestBlock { block } => Payload::BestBlock { block: *block },
            Payload::FinalizedBlock { block } => Payload::FinalizedBlock { block: *block },
            Payload::SystemInterval { counters } => Payload::SystemInterval { counters: *counters },
            Payload::HwBench { hwbench } => Payload::HwBench { hwbench: *hwbench },
            Payload::Interval { block, interval } => Payload::Interval {
                block: *block,
                interval: interval.clone(),
            },
            Payload::HistoricalInterval {
                block_hash,
                block_height,
                duration,
                kind,
            } => Payload::HistoricalInterval {
                block_hash: *block_hash,
                block_height: *block_height,
                duration: *duration,
                kind: *kind,
            },
            Payload::ValidatorAddress { address } => Payload::ValidatorAddress {
                address: address.clone(),
            },
            Payload::Location { location } => Payload::Location {
                location: match location {
                    Some(place) => Some(place.clone()),
                    None => None,
                },
            },
        }
    }
}

} // verus!
