use telemetry_core::node_message::{IntervalKind, SystemInterval};
use telemetry_core::node_types::{Block, BlockHash, NodeDetails, NodeHwBench, NodeLocation};
use telemetry_core::state::node::{
    HistoricalData, MAX_QUEUE_SIZE, THROTTLE_INTERVAL, THROTTLE_THRESHOLD,
};
use telemetry_core::state::Node;

fn details(name: &str, version: &str, startup: Option<&str>) -> NodeDetails {
    NodeDetails {
        chain: "Polkadot".to_string(),
        name: name.to_string(),
        implementation: "Parity Polkadot".to_string(),
        version: version.to_string(),
        validator: None,
        network_id: format!("net-{name}"),
        startup_time: startup.map(|s| s.to_string()),
        is_authority: Some(true),
    }
}

fn block(height: u64, byte: u8) -> Block {
    Block { hash: BlockHash::from_bytes([byte; 32]), height }
}

fn hash32(n: u32) -> BlockHash {
    let mut bytes = [0u8; 32];
    bytes[..4].copy_from_slice(&n.to_be_bytes());
    BlockHash::from_bytes(bytes)
}

#[test]
fn a_new_node_starts_from_nothing() {
    let node = Node::new(details("a", "1.0", Some("1650000000000")), 777);
    assert_eq!(node.startup_time(), Some(1_650_000_000_000));
    assert!(node.details().startup_time.is_none());
    assert_eq!(node.details().name, "a");
    assert_eq!(node.best().height, 0);
    assert_eq!(node.best().hash.bytes, [0u8; 32]);
    assert_eq!(node.finalized().height, 0);
    assert_eq!(node.best_timestamp(), 777);
    assert_eq!(node.block_details().block_time, 0);
    assert_eq!((node.stats().peers, node.stats().txcount), (0, 0));
    assert!(!node.stale());
    assert!(node.location().is_none());
    assert!(node.hwbench().is_none());
    assert_eq!(node.historical_data().len(), 0);
    assert_eq!(node.is_authority(), Some(true));
    let identity = node.identity();
    assert_eq!((identity.node_name.as_str(), identity.network_id.as_str()), ("a", "net-a"));
}

#[test]
fn a_startup_time_that_is_no_number_is_dropped() {
    assert_eq!(Node::new(details("a", "1.0", Some("soon")), 0).startup_time(), None);
    assert_eq!(Node::new(details("a", "1.0", None), 0).startup_time(), None);
}

#[test]
fn best_height_is_the_greatest_seen() {
    let mut node = Node::new(details("a", "1.0", None), 0);
    let heights = [5u64, 3, 9, 9, 2, 14, 1, 14, 13];
    let mut greatest = 0;
    for (i, height) in heights.iter().enumerate() {
        let taken = node.update_block(block(*height, i as u8));
        assert_eq!(taken, *height > greatest);
        greatest = greatest.max(*height);
        assert_eq!(node.best().height, greatest);
    }
    assert_eq!(node.best().height, 14);
    assert_eq!(node.best().hash.bytes, [5u8; 32]);
}

#[test]
fn finalized_height_is_the_greatest_seen() {
    let mut node = Node::new(details("a", "1.0", None), 0);
    assert!(node.update_finalized(block(0, 1)).is_none());
    assert_eq!(node.update_finalized(block(4, 1)).map(|b| b.height), Some(4));
    assert!(node.update_finalized(block(4, 2)).is_none());
    assert!(node.update_finalized(block(3, 3)).is_none());
    assert_eq!(node.finalized().hash.bytes, [1u8; 32]);
    assert_eq!(node.update_finalized(block(8, 4)).map(|b| b.height), Some(8));
    assert_eq!(node.finalized().height, 8);
}

#[test]
fn throttle() {
    let mut node = Node::new(details("a", "1.0", None), 950);
    {
        let passed = node.update_details(1000, None).copied();
        let passed = passed.expect("the first update is passed on");
        assert_eq!(passed.block_time, 50);
        assert_eq!(passed.block_timestamp, 1000);
    }
    assert!(node.update_details(1500, None).is_none());
    assert_eq!(node.block_details().block_time, 500);
    assert_eq!(node.best_timestamp(), 1500);
    assert!(node.update_details(2000, None).is_none());
    let again = node.update_details(2100, Some(7)).copied().expect("the throttle has run out");
    assert_eq!(again.block_time, 100);
    assert_eq!(again.propagation_time, Some(7));
}

#[test]
fn slow_blocks_are_not_throttled() {
    assert_eq!(THROTTLE_THRESHOLD, 100);
    assert_eq!(THROTTLE_INTERVAL, 1000);
    let mut node = Node::new(details("a", "1.0", None), 1000);
    assert_eq!(node.update_details(1101, None).map(|d| d.block_time), Some(101));
    assert_eq!(node.update_details(1202, None).map(|d| d.block_time), Some(101));
    assert_eq!(node.update_details(1302, None).map(|d| d.block_time), Some(100));
    assert!(node.update_details(1303, None).is_none());
    assert!(node.update_details(2302, None).is_none());
    assert!(node.update_details(2303, None).is_some());
}

#[test]
fn at_most_one_update_per_interval_under_fast_blocks() {
    let mut node = Node::new(details("a", "1.0", None), 0);
    let mut passed_at: Vec<u64> = Vec::new();
    let mut now = 0;
    for _ in 0..400 {
        now += 40;
        if node.update_details(now, None).is_some() {
            passed_at.push(now);
        }
    }
    assert!(passed_at.len() > 10);
    for pair in passed_at.windows(2) {
        assert!(pair[1] - pair[0] > THROTTLE_INTERVAL);
    }
}

#[test]
fn updating_details_clears_the_interval_times() {
    let mut node = Node::new(details("a", "1.0", None), 0);
    node.insert_block_details_interval(11, IntervalKind::Proposal);
    node.insert_block_details_interval(12, IntervalKind::Sync);
    node.insert_block_details_interval(13, IntervalKind::Import);
    let d = *node.block_details();
    assert_eq!((d.proposal_time, d.sync_time, d.import_time), (Some(11), Some(12), Some(13)));
    node.update_details(500, Some(3));
    let d = *node.block_details();
    assert_eq!((d.proposal_time, d.sync_time, d.import_time), (None, None, None));
    assert_eq!(d.propagation_time, Some(3));
}

#[test]
fn stale() {
    let mut node = Node::new(details("a", "1.0", None), 1000);
    assert!(!node.update_stale(1000));
    assert!(!node.stale());
    assert!(node.update_stale(2000));
    assert!(node.stale());
    assert!(node.update_stale(0));
    assert!(!node.update_block(block(0, 1)));
    assert!(node.stale());
    assert!(node.update_block(block(1, 1)));
    assert!(!node.stale());
}

#[test]
fn stats_are_returned_only_when_they_change() {
    let mut node = Node::new(details("a", "1.0", None), 0);
    let none = SystemInterval { peers: None, txcount: None };
    assert!(node.update_stats(&none).is_none());
    let some = SystemInterval { peers: Some(3), txcount: None };
    assert_eq!(node.update_stats(&some).map(|s| (s.peers, s.txcount)), Some((3, 0)));
    assert!(node.update_stats(&some).is_none());
    let both = SystemInterval { peers: Some(3), txcount: Some(8) };
    assert_eq!(node.update_stats(&both).map(|s| (s.peers, s.txcount)), Some((3, 8)));
    assert!(node.update_stats(&SystemInterval { peers: Some(0), txcount: Some(8) }).is_some());
    assert_eq!(node.stats().peers, 0);
}

#[test]
fn the_validator_address_is_set_once() {
    let mut node = Node::new(details("a", "1.0", None), 0);
    assert!(node.set_validator_address("5Grw".to_string()));
    assert!(!node.set_validator_address("5Grw".to_string()));
    assert!(node.set_validator_address("5FHn".to_string()));
    assert_eq!(node.details().validator.as_deref(), Some("5FHn"));
}

#[test]
fn benchmark_and_location_are_replaced() {
    let mut node = Node::new(details("a", "1.0", None), 0);
    let first = NodeHwBench {
        cpu_hashrate_score: 1,
        memory_memcpy_score: 2,
        disk_sequential_write_score: None,
        disk_random_write_score: Some(4),
    };
    let second = NodeHwBench { cpu_hashrate_score: 9, ..first };
    assert!(node.update_hwbench(first).is_none());
    assert_eq!(node.update_hwbench(second).map(|h| h.cpu_hashrate_score), Some(1));
    assert_eq!(node.hwbench().map(|h| h.cpu_hashrate_score), Some(9));
    node.update_location(Some(NodeLocation {
        latitude_bits: 52.5f32.to_bits(),
        longitude_bits: 13.4f32.to_bits(),
        city: "Berlin".to_string(),
    }));
    let location = node.location().unwrap();
    assert_eq!(f32::from_bits(location.latitude_bits), 52.5);
    assert_eq!(location.city, "Berlin");
    node.update_location(None);
    assert!(node.location().is_none());
}

#[test]
fn history_never_holds_more_than_its_size() {
    let mut history = HistoricalData::new();
    for n in 0..300u32 {
        history.insert_block_time(n as u64, hash32(n), n, IntervalKind::Import);
        assert!(history.len() <= MAX_QUEUE_SIZE);
        assert_eq!(history.len(), ((n + 1) as usize).min(128));
    }
    assert_eq!(history.get(0).map(|b| b.block_height), Some(172));
    assert_eq!(history.get(127).map(|b| b.block_height), Some(299));
    assert!(history.get(128).is_none());
}

#[test]
fn a_known_hash_does_not_grow_the_history() {
    let mut history = HistoricalData::new();
    history.insert_block_time(5, hash32(1), 1, IntervalKind::Proposal);
    history.insert_block_time(6, hash32(2), 2, IntervalKind::Proposal);
    assert_eq!(history.len(), 2);
    history.insert_block_time(7, hash32(1), 99, IntervalKind::Sync);
    history.insert_block_time(8, hash32(1), 1, IntervalKind::Import);
    assert_eq!(history.len(), 2);
    let first = history.get(0).unwrap();
    assert_eq!(first.block_height, 1);
    assert_eq!(
        (first.proposal_time, first.sync_time, first.import_time),
        (Some(5), Some(7), Some(8))
    );
    let second = history.get(1).unwrap();
    assert_eq!((second.proposal_time, second.sync_time, second.import_time), (Some(6), None, None));
}

#[test]
fn a_node_records_its_history() {
    let mut node = Node::new(details("a", "1.0", None), 0);
    node.insert_historical_block_data(hash32(7), 7, 120, IntervalKind::Sync);
    node.insert_historical_block_data(hash32(7), 7, 30, IntervalKind::Import);
    assert_eq!(node.historical_data().len(), 1);
    let entry = node.historical_data().get(0).unwrap();
    assert_eq!((entry.sync_time, entry.import_time, entry.proposal_time), (Some(120), Some(30), None));
}
