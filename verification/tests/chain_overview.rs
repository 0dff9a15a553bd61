use telemetry_core::node_message::IntervalKind;
use telemetry_core::node_types::BlockHash;
use telemetry_core::state::chain_overview::{ChainOverview, MAX_BLOCKS_SIZE};

fn hash(byte: u8) -> BlockHash {
    BlockHash::from_bytes([byte; 32])
}

fn record(overview: &mut ChainOverview, node: usize, byte: u8, height: u64, kind: IntervalKind) {
    overview.new_data(
        node,
        format!("node-{node}"),
        format!("net-{node}"),
        hash(byte),
        height,
        kind,
        format!("start-{node}"),
        format!("end-{node}"),
        25,
    );
}

#[test]
fn a_new_record_is_empty() {
    let overview = ChainOverview::new();
    assert!(overview.get_forks().is_empty());
    assert!(overview.get_blocks().is_empty());
}

#[test]
fn blocks_come_out_with_the_greatest_height_first() {
    let mut overview = ChainOverview::new();
    for height in [5u64, 9, 7, 1, 8] {
        record(&mut overview, 1, height as u8, height, IntervalKind::Import);
    }
    let heights: Vec<u64> = overview.get_blocks().iter().map(|b| b.block_number).collect();
    assert_eq!(heights, vec![9, 8, 7, 5, 1]);
}

#[test]
fn the_first_proposal_names_the_producer() {
    let mut overview = ChainOverview::new();
    record(&mut overview, 1, 0xaa, 4, IntervalKind::Import);
    record(&mut overview, 2, 0xaa, 4, IntervalKind::Proposal);
    record(&mut overview, 3, 0xaa, 4, IntervalKind::Proposal);
    record(&mut overview, 4, 0xbb, 4, IntervalKind::Sync);
    let blocks = overview.get_blocks();
    assert_eq!(blocks.len(), 2);
    assert_eq!(blocks[0].block_hashes.bytes, [0xaa; 32]);
    let producer = blocks[0].block_producer.as_ref().unwrap();
    assert_eq!(producer.node_id, 2);
    assert_eq!(producer.node_name, "node-2");
    assert_eq!(producer.node_network_id, "net-2");
    assert_eq!(producer.proposed_time, "end-2");
    assert_eq!(blocks[1].block_hashes.bytes, [0xbb; 32]);
    assert!(blocks[1].block_producer.is_none());
}

#[test]
fn forks_are_the_heights_with_several_hashes() {
    let mut overview = ChainOverview::new();
    record(&mut overview, 1, 0x01, 10, IntervalKind::Import);
    record(&mut overview, 1, 0x02, 11, IntervalKind::Import);
    record(&mut overview, 2, 0x03, 11, IntervalKind::Import);
    record(&mut overview, 1, 0x05, 12, IntervalKind::Import);
    record(&mut overview, 2, 0x04, 12, IntervalKind::Import);
    record(&mut overview, 3, 0x05, 12, IntervalKind::Import);
    let forks = overview.get_forks();
    assert_eq!(forks.len(), 2);
    assert_eq!(forks[0].block_number, 12);
    let hashes: Vec<[u8; 32]> = forks[0].block_hashes.iter().map(|h| h.bytes).collect();
    assert_eq!(hashes, vec![[0x05; 32], [0x04; 32]]);
    assert_eq!(forks[1].block_number, 11);
    assert_eq!(forks[1].block_hashes.len(), 2);
}

#[test]
fn the_record_keeps_fifteen_heights() {
    assert_eq!(MAX_BLOCKS_SIZE, 15);
    let mut overview = ChainOverview::new();
    for height in 1..=20u64 {
        record(&mut overview, 1, height as u8, height, IntervalKind::Import);
    }
    let heights: Vec<u64> = overview.get_blocks().iter().map(|b| b.block_number).collect();
    assert_eq!(heights, (6..=20u64).rev().collect::<Vec<_>>());
    record(&mut overview, 1, 3, 3, IntervalKind::Import);
    let heights: Vec<u64> = overview.get_blocks().iter().map(|b| b.block_number).collect();
    assert_eq!(heights, (6..=20u64).rev().collect::<Vec<_>>());
}
