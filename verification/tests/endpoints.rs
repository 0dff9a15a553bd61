use telemetry_core::endpoints::block_history::BlockHistoryDetail;
use telemetry_core::endpoints::node_list::NodeListNodeDetails;
use telemetry_core::endpoints::shared::{
    SDateTime, SUniqueNodeIdentity, MAX_UTC_MILLIS, MIN_UTC_MILLIS,
};
use telemetry_core::endpoints::{
    BlockHistory, ChainOverview, NodeList, OverviewBlocks, OverviewFork, OverviewForks,
    OverviewImplementations,
};
use telemetry_core::node_message::{IntervalFromNode, IntervalKind};
use telemetry_core::node_types::{Block, BlockHash, NodeDetails};
use telemetry_core::state::blocks::StoredBlocks;
use telemetry_core::state::{Chain, Node, UniqueNodeIdentity};

fn id(name: &str) -> UniqueNodeIdentity {
    UniqueNodeIdentity { node_name: name.to_string(), network_id: format!("net-{name}") }
}

fn block(height: u64, byte: u8) -> Block {
    Block { hash: BlockHash::from_bytes([byte; 32]), height }
}

fn interval(kind: IntervalKind, start: u64, end: u64) -> IntervalFromNode {
    IntervalFromNode { kind, peer_id: Some("peer".to_string()), start_timestamp: start, end_timestamp: end }
}

fn details(name: &str, version: &str) -> NodeDetails {
    NodeDetails {
        chain: "Kusama".to_string(),
        name: name.to_string(),
        implementation: "Parity Polkadot".to_string(),
        version: version.to_string(),
        validator: None,
        network_id: format!("net-{name}"),
        startup_time: None,
        is_authority: None,
    }
}

#[test]
fn the_epoch_is_shown_as_chrono_writes_it() {
    let shown = SDateTime::from(0);
    assert_eq!(shown.timestamp(), 0);
    assert_eq!(shown.date(), "1970-01-01 00:00:00 UTC");
}

#[test]
fn a_time_is_shown_with_its_milliseconds() {
    let shown = SDateTime::from(947_638_923_004);
    assert_eq!(shown.timestamp(), 947_638_923_004);
    assert_eq!(shown.date(), "2000-01-12 01:02:03.004 UTC");
    assert_eq!(SDateTime::from(1000).date(), "1970-01-01 00:00:01 UTC");
    assert_eq!(SDateTime::from(1100).date(), "1970-01-01 00:00:01.100 UTC");
}

#[test]
fn the_last_instant_with_a_date_is_shown() {
    let last = SDateTime::from(MAX_UTC_MILLIS as u64);
    assert_eq!(last.timestamp(), 8_210_266_876_799_999);
    assert_eq!(last.date(), "+262142-12-31 23:59:59.999 UTC");
    let beyond = SDateTime::from(MAX_UTC_MILLIS as u64 + 1);
    assert_eq!(beyond.timestamp(), 0);
    assert_eq!(beyond.date(), "1970-01-01 00:00:00 UTC");
}

#[test]
fn the_sign_bit_makes_a_time_before_the_epoch() {
    let before = SDateTime::from(u64::MAX);
    assert_eq!(before.timestamp(), -1);
    assert_eq!(before.date(), "1969-12-31 23:59:59.999 UTC");
    let first = SDateTime::from(MIN_UTC_MILLIS as u64);
    assert_eq!(first.timestamp(), -8_334_601_228_800_000);
    assert_eq!(first.date(), "-262143-01-01 00:00:00 UTC");
    let too_early = SDateTime::from((MIN_UTC_MILLIS - 1) as u64);
    assert_eq!(too_early.timestamp(), 0);
    assert_eq!(too_early.date(), "1970-01-01 00:00:00 UTC");
    assert_eq!(SDateTime::from(1u64 << 63).timestamp(), 0);
    assert_eq!(SDateTime::from(i64::MAX as u64).timestamp(), 0);
}

#[test]
fn the_range_of_dates_is_that_of_chrono() {
    assert_eq!(chrono::DateTime::<chrono::Utc>::MAX_UTC.timestamp_millis(), MAX_UTC_MILLIS);
    assert_eq!(chrono::DateTime::<chrono::Utc>::MIN_UTC.timestamp_millis(), MIN_UTC_MILLIS);
    assert!(chrono::DateTime::from_timestamp_millis(MAX_UTC_MILLIS).is_some());
    assert!(chrono::DateTime::from_timestamp_millis(MAX_UTC_MILLIS + 1).is_none());
    assert!(chrono::DateTime::from_timestamp_millis(MIN_UTC_MILLIS).is_some());
    assert!(chrono::DateTime::from_timestamp_millis(MIN_UTC_MILLIS - 1).is_none());
}

#[test]
fn a_shown_time_is_made_of_its_parts() {
    let shown = SDateTime::new(12, "noon".to_string());
    assert_eq!(shown.timestamp(), 12);
    assert_eq!(shown.date(), "noon");
}

#[test]
fn an_identity_is_shown_as_it_is() {
    let shown = SUniqueNodeIdentity::from(&id("alice"));
    assert_eq!(shown.node_name, "alice");
    assert_eq!(shown.network_id, "net-alice");
}

#[test]
fn an_interval_is_shown_with_its_times() {
    let shown = BlockHistoryDetail::from(&interval(IntervalKind::Sync, 1000, 61_000));
    assert_eq!(shown.peer_id.as_deref(), Some("peer"));
    assert_eq!(shown.start_timestamp.timestamp(), 1000);
    assert_eq!(shown.end_timestamp.date(), "1970-01-01 00:01:01 UTC");
    assert!(BlockHistoryDetail::from_opt(&None).is_none());
}

#[test]
fn a_new_fork_holds_no_block() {
    let fork = OverviewFork::new(17);
    assert_eq!(fork.block_height, 17);
    assert!(fork.blocks.is_empty());
}

fn forked_window() -> StoredBlocks {
    let mut window = StoredBlocks::new();
    window.new_entry(
        id("A"),
        block(100, 0xaa),
        Some(interval(IntervalKind::Proposal, 1000, 1100)),
        None,
        None,
    );
    window.new_entry(
        id("B"),
        block(100, 0xbb),
        None,
        Some(interval(IntervalKind::Import, 1050, 1200)),
        None,
    );
    window
}

#[test]
fn single_shard_two_nodes_one_fork_at_height_100() {
    let window = forked_window();
    let forks = OverviewForks::from(&window);
    let forks = forks.entries();
    assert_eq!(forks.len(), 1);
    assert_eq!(forks[0].block_height, 100);
    assert_eq!(forks[0].blocks.len(), 2);
    let first = &forks[0].blocks[0];
    assert_eq!(first.block_hash.bytes, [0xaa; 32]);
    assert_eq!(first.number_of_witnesses, 1);
    let producer = first.block_producer.as_ref().expect("A proposed the block");
    assert_eq!(producer.identity.node_name, "A");
    assert_eq!(producer.start.timestamp(), 1000);
    assert_eq!(producer.end.timestamp(), 1100);
    assert_eq!(producer.end.date(), "1970-01-01 00:00:01.100 UTC");
    let second = &forks[0].blocks[1];
    assert_eq!(second.block_hash.bytes, [0xbb; 32]);
    assert_eq!(second.number_of_witnesses, 1);
    assert!(second.block_producer.is_none());
}

#[test]
fn a_height_with_one_hash_is_no_fork() {
    let mut window = forked_window();
    window.new_entry(id("A"), block(101, 0xcc), None, None, None);
    window.new_entry(id("B"), block(101, 0xcc), None, None, None);
    window.new_entry(id("A"), block(102, 0xdd), None, None, None);
    window.new_entry(id("B"), block(102, 0xee), None, None, None);
    let forks = OverviewForks::from(&window);
    let heights: Vec<u64> = forks.entries().iter().map(|f| f.block_height).collect();
    assert_eq!(heights, vec![102, 100]);
}

#[test]
fn blocks_are_listed_newest_first() {
    let mut window = forked_window();
    window.new_entry(id("C"), block(101, 0x01), None, None, Some(interval(IntervalKind::Sync, 1, 2)));
    window.new_entry(
        id("B"),
        block(101, 0x01),
        Some(interval(IntervalKind::Proposal, 5, 6)),
        None,
        None,
    );
    window.new_entry(
        id("D"),
        block(101, 0x01),
        Some(interval(IntervalKind::Proposal, 7, 8)),
        None,
        None,
    );
    let blocks = OverviewBlocks::from(&window);
    let rows: Vec<(u64, u8, Option<String>)> = blocks
        .entries()
        .iter()
        .map(|b| {
            (
                b.block_height,
                b.block_hash.bytes[0],
                b.block_producer.as_ref().map(|p| p.identity.node_name.clone()),
            )
        })
        .collect();
    assert_eq!(
        rows,
        vec![
            (101, 0x01, Some("B".to_string())),
            (100, 0xaa, Some("A".to_string())),
            (100, 0xbb, None),
        ]
    );
}

#[test]
fn the_history_lists_every_observation() {
    let window = forked_window();
    let history = BlockHistory::from(&window);
    let heights = history.entries();
    assert_eq!(heights.len(), 1);
    assert_eq!(heights[0].block_height, 100);
    assert_eq!(heights[0].blocks.len(), 2);
    let a = &heights[0].blocks[0].nodes[0];
    assert_eq!(a.identity.node_name, "A");
    assert_eq!(a.proposal.as_ref().map(|p| p.start_timestamp.timestamp()), Some(1000));
    assert!(a.import.is_none() && a.sync.is_none());
    let b = &heights[0].blocks[1].nodes[0];
    assert_eq!(b.identity.network_id, "net-B");
    assert_eq!(b.import.as_ref().map(|p| p.end_timestamp.timestamp()), Some(1200));
    assert!(b.proposal.is_none());
}

#[test]
fn the_history_is_newest_first() {
    let mut window = StoredBlocks::new();
    for height in [4u64, 2, 9] {
        window.new_entry(id("A"), block(height, 1), None, None, None);
    }
    let history = BlockHistory::from(&window);
    let heights: Vec<u64> = history.entries().iter().map(|h| h.block_height).collect();
    assert_eq!(heights, vec![9, 4, 2]);
    assert!(BlockHistory::from(&StoredBlocks::new()).entries().is_empty());
}

fn chain_of(nodes: &[(&str, &str)]) -> Chain {
    let mut chain = Chain::new(BlockHash::from_bytes([9; 32]));
    for (name, version) in nodes {
        chain.add_node(Node::new(details(name, version), 10));
    }
    chain
}

#[test]
fn nodes_are_grouped_by_version_greatest_first() {
    let chain = chain_of(&[
        ("a", "0.9.30"),
        ("b", "1.0.0"),
        ("c", "0.9.30"),
        ("d", "0.9.4"),
        ("e", "1.0.0"),
        ("f", "0.9.30"),
    ]);
    let list = NodeList::from(&chain);
    let groups: Vec<(String, usize, Vec<String>)> = list
        .implementations()
        .iter()
        .map(|g| (g.version.clone(), g.count, g.nodes.iter().map(|n| n.node_name.clone()).collect()))
        .collect();
    assert_eq!(
        groups,
        vec![
            ("1.0.0".to_string(), 2, vec!["b".to_string(), "e".to_string()]),
            ("0.9.4".to_string(), 1, vec!["d".to_string()]),
            ("0.9.30".to_string(), 3, vec!["a".to_string(), "c".to_string(), "f".to_string()]),
        ]
    );
    let tallies: Vec<(String, usize)> = OverviewImplementations::from(&chain)
        .entries()
        .iter()
        .map(|t| (t.version.clone(), t.count))
        .collect();
    assert_eq!(
        tallies,
        vec![("1.0.0".to_string(), 2), ("0.9.4".to_string(), 1), ("0.9.30".to_string(), 3)]
    );
}

#[test]
fn the_node_list_skips_nodes_that_left() {
    let mut chain = chain_of(&[("a", "1"), ("b", "2"), ("c", "1")]);
    chain.remove_node(1);
    let list = NodeList::from(&chain);
    let names: Vec<&str> = list.nodes().iter().map(|n| n.identity.node_name.as_str()).collect();
    assert_eq!(names, vec!["a", "c"]);
    assert_eq!(list.implementations().len(), 1);
    assert_eq!(list.implementations()[0].count, 2);
}

#[test]
fn a_node_is_shown_with_what_it_reported() {
    let mut node = Node::new(details("a", "1.2"), 400);
    node.update_block(block(12, 3));
    node.update_finalized(block(10, 2));
    node.update_details(450, None);
    node.update_stale(1000);
    let row = NodeListNodeDetails::from(&node);
    assert_eq!(row.identity.node_name, "a");
    assert_eq!(row.details.version, "1.2");
    assert_eq!(row.best_block.height, 12);
    assert_eq!(row.finalized_block.height, 10);
    assert_eq!(row.best_block_timestamp, 450);
    assert_eq!((row.peers, row.txcount), (0, 0));
    assert!(row.stale);
    assert_eq!(row.is_authority, None);
}

#[test]
fn the_overview_of_a_chain_sums_it_up() {
    let mut chain = chain_of(&[("a", "1"), ("b", "2")]);
    chain.new_block_entry(id("a"), block(5, 1), None, None, None);
    chain.new_block_entry(id("b"), block(5, 2), None, None, None);
    chain.update_block(0, block(5, 1), 110);
    chain.update_finalized(1, block(3, 7));
    chain.remove_node(1);
    let overview = ChainOverview::from(&chain);
    assert_eq!(overview.genesis_hash.bytes, [9; 32]);
    assert_eq!(overview.best_block.height, 5);
    assert_eq!(overview.finalized_block.height, 3);
    assert_eq!(overview.node_count, 1);
    assert_eq!(overview.max_nodes, 2);
    assert_eq!(overview.average_block_time, Some(100));
    assert_eq!(overview.implementations.entries().len(), 1);
    assert_eq!(overview.forks.entries().len(), 1);
    assert_eq!(overview.blocks.entries().len(), 2);
}
