use telemetry_core::node_message::{IntervalFromNode, IntervalKind};
use telemetry_core::node_types::{Block, BlockHash};
use telemetry_core::state::blocks::{StoredBlocks, MAX_BLOCK_HEIGHT_STORED};
use telemetry_core::state::UniqueNodeIdentity;

fn id(name: &str, network: &str) -> UniqueNodeIdentity {
    UniqueNodeIdentity { node_name: name.to_string(), network_id: network.to_string() }
}

fn hash(byte: u8) -> BlockHash {
    BlockHash::from_bytes([byte; 32])
}

fn block(height: u64, byte: u8) -> Block {
    Block { hash: hash(byte), height }
}

fn interval(kind: IntervalKind, start: u64, end: u64) -> IntervalFromNode {
    IntervalFromNode { kind, peer_id: None, start_timestamp: start, end_timestamp: end }
}

fn heights_of(window: &StoredBlocks) -> Vec<u64> {
    window.heights().iter().map(|e| e.height).collect()
}

#[test]
fn block_window_eviction() {
    let mut window = StoredBlocks::new();
    for height in 1..=31u64 {
        window.new_entry(id("a", "n"), block(height, 1), None, None, None);
    }
    assert_eq!(heights_of(&window), (2..=31u64).collect::<Vec<_>>());
    assert!(window.find_height(1).is_none());
    assert!(window.find_height(2).is_some());
    assert_eq!(window.find_height(31).map(|e| e.height), Some(31));
    assert_eq!(window.heights().len(), MAX_BLOCK_HEIGHT_STORED);
}

#[test]
fn window_keeps_the_thirty_greatest_heights() {
    let mut window = StoredBlocks::new();
    let mut seen: Vec<u64> = Vec::new();
    let mut x: u64 = 12345;
    for _ in 0..200 {
        x = x.wrapping_mul(6364136223846793005).wrapping_add(1442695040888963407);
        let height = (x >> 33) % 80;
        window.new_entry(id("a", "n"), block(height, 1), None, None, None);
        if !seen.contains(&height) {
            seen.push(height);
        }
        seen.sort();
        let from = seen.len().saturating_sub(30);
        assert_eq!(heights_of(&window), seen[from..].to_vec());
    }
    assert_eq!(window.heights().len(), 30);
}

#[test]
fn a_height_below_a_full_window_is_not_kept() {
    let mut window = StoredBlocks::new();
    for height in 10..40u64 {
        window.new_entry(id("a", "n"), block(height, 1), None, None, None);
    }
    window.new_entry(id("a", "n"), block(5, 1), None, None, None);
    assert_eq!(heights_of(&window), (10..40u64).collect::<Vec<_>>());
    assert!(window.find_height(5).is_none());
}

#[test]
fn hashes_and_nodes_are_kept_in_ascending_order() {
    let mut window = StoredBlocks::new();
    window.new_entry(id("zed", "1"), block(7, 0xbb), None, None, None);
    window.new_entry(id("amy", "2"), block(7, 0xbb), None, None, None);
    window.new_entry(id("amy", "1"), block(7, 0xbb), None, None, None);
    window.new_entry(id("bob", "1"), block(7, 0xaa), None, None, None);
    window.new_entry(id("bob", "1"), block(3, 0xcc), None, None, None);
    assert_eq!(heights_of(&window), vec![3, 7]);
    let at_seven = window.find_height(7).unwrap();
    let hashes: Vec<[u8; 32]> = at_seven.hashes.iter().map(|h| h.hash.bytes).collect();
    assert_eq!(hashes, vec![[0xaa; 32], [0xbb; 32]]);
    let names: Vec<(String, String)> = at_seven.hashes[1]
        .nodes
        .iter()
        .map(|n| (n.identity.node_name.clone(), n.identity.network_id.clone()))
        .collect();
    assert_eq!(
        names,
        vec![
            ("amy".to_string(), "1".to_string()),
            ("amy".to_string(), "2".to_string()),
            ("zed".to_string(), "1".to_string()),
        ]
    );
}

#[test]
fn the_last_observation_of_a_node_wins() {
    let mut window = StoredBlocks::new();
    window.new_entry(
        id("a", "n"),
        block(9, 1),
        Some(interval(IntervalKind::Proposal, 10, 20)),
        None,
        None,
    );
    window.new_entry(id("a", "n"), block(9, 1), None, Some(interval(IntervalKind::Import, 30, 45)), None);
    let entry = window.find_height(9).unwrap();
    assert_eq!(entry.hashes.len(), 1);
    assert_eq!(entry.hashes[0].nodes.len(), 1);
    let details = &entry.hashes[0].nodes[0].details;
    assert!(details.proposal.is_none());
    assert!(details.sync.is_none());
    let import = details.import.as_ref().unwrap();
    assert_eq!((import.start_timestamp, import.end_timestamp), (30, 45));
}

#[test]
fn an_empty_window_holds_nothing() {
    let window = StoredBlocks::new();
    assert!(window.heights().is_empty());
    assert!(window.find_height(0).is_none());
}

#[test]
fn an_observation_is_found_again() {
    let mut window = StoredBlocks::new();
    window.new_entry(id("a", "n"), block(9, 1), Some(interval(IntervalKind::Proposal, 10, 20)), None, None);
    window.new_entry(id("b", "n"), block(9, 1), None, None, Some(interval(IntervalKind::Sync, 1, 2)));
    window.new_entry(id("a", "n"), block(9, 2), None, None, None);
    let found = window.get(9, &hash(1), &id("a", "n")).unwrap();
    assert_eq!(found.proposal.as_ref().map(|p| p.end_timestamp), Some(20));
    assert!(window.get(9, &hash(1), &id("b", "n")).unwrap().sync.is_some());
    assert!(window.get(9, &hash(2), &id("a", "n")).unwrap().proposal.is_none());
    assert!(window.get(9, &hash(2), &id("b", "n")).is_none());
    assert!(window.get(9, &hash(3), &id("a", "n")).is_none());
    assert!(window.get(8, &hash(1), &id("a", "n")).is_none());
    assert!(window.get(9, &hash(1), &id("a", "m")).is_none());
    for height in 10..=40u64 {
        window.new_entry(id("c", "n"), block(height, 1), None, None, None);
    }
    assert!(window.get(9, &hash(1), &id("a", "n")).is_none());
    assert!(window.get(40, &hash(1), &id("c", "n")).is_some());
}
