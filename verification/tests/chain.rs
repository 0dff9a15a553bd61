use telemetry_core::node_message::{IntervalFromNode, IntervalKind, Payload, SystemInterval};
use telemetry_core::node_types::{Block, BlockHash, NodeDetails};
use telemetry_core::state::{Chain, Node, UniqueNodeIdentity};

fn details(name: &str) -> NodeDetails {
    NodeDetails {
        chain: "Kusama".to_string(),
        name: name.to_string(),
        implementation: "Parity Polkadot".to_string(),
        version: "1.0".to_string(),
        validator: None,
        network_id: format!("net-{name}"),
        startup_time: None,
        is_authority: None,
    }
}

fn id(name: &str) -> UniqueNodeIdentity {
    UniqueNodeIdentity { node_name: name.to_string(), network_id: format!("net-{name}") }
}

fn block(height: u64, byte: u8) -> Block {
    Block { hash: BlockHash::from_bytes([byte; 32]), height }
}

fn chain() -> Chain {
    Chain::new(BlockHash::from_bytes([1; 32]))
}

#[test]
fn nodes_keep_their_indices() {
    let mut chain = chain();
    assert_eq!(chain.add_node(Node::new(details("a"), 0)), 0);
    assert_eq!(chain.add_node(Node::new(details("b"), 0)), 1);
    assert_eq!(chain.add_node(Node::new(details("c"), 0)), 2);
    assert_eq!((chain.node_count(), chain.max_nodes()), (3, 3));
    assert_eq!(chain.find_node(&id("b")), Some(1));
    assert!(chain.remove_node(1).is_some());
    assert_eq!((chain.node_count(), chain.max_nodes()), (2, 3));
    assert_eq!(chain.find_node(&id("b")), None);
    assert_eq!(chain.find_node(&id("c")), Some(2));
    assert!(chain.get_node(1).is_none());
    assert_eq!(chain.get_node(2).map(|n| n.details().name.clone()), Some("c".to_string()));
}

#[test]
fn removing_twice_is_removing_once() {
    let mut chain = chain();
    chain.add_node(Node::new(details("a"), 0));
    chain.add_node(Node::new(details("b"), 0));
    assert!(chain.remove_node(0).is_some());
    assert!(chain.remove_node(0).is_none());
    assert!(chain.remove_node(7).is_none());
    assert_eq!(chain.node_count(), 1);
    assert_eq!(chain.nodes_slice().len(), 2);
}

#[test]
fn the_index_freed_last_is_given_out_first() {
    let mut chain = chain();
    for name in ["a", "b", "c", "d"] {
        chain.add_node(Node::new(details(name), 0));
    }
    chain.remove_node(1);
    chain.remove_node(3);
    assert_eq!(chain.add_node(Node::new(details("e"), 0)), 3);
    assert_eq!(chain.add_node(Node::new(details("f"), 0)), 1);
    assert_eq!(chain.add_node(Node::new(details("g"), 0)), 4);
    assert_eq!((chain.node_count(), chain.max_nodes()), (5, 5));
}

#[test]
fn a_node_that_connects_again_takes_its_place() {
    let mut chain = chain();
    chain.add_node(Node::new(details("a"), 0));
    chain.add_node(Node::new(details("b"), 0));
    chain.update_block(1, block(4, 4), 10);
    assert_eq!(chain.add_node(Node::new(details("b"), 50)), 1);
    assert_eq!(chain.node_count(), 2);
    assert_eq!(chain.get_node(1).map(|n| n.best().height), Some(0));
    assert_eq!(chain.get_node(1).map(|n| n.best_timestamp()), Some(50));
}

#[test]
fn a_best_block_goes_into_the_chain() {
    let mut chain = chain();
    chain.add_node(Node::new(details("a"), 1000));
    chain.add_node(Node::new(details("b"), 1000));
    let first = chain.update_block(0, block(5, 5), 1200).expect("passed on");
    assert_eq!((first.block_time, first.propagation_time), (200, Some(0)));
    assert_eq!(chain.best_block().height, 5);
    assert_eq!(chain.average_block_time(), Some(200));
    let second = chain.update_block(1, block(5, 5), 1300).expect("passed on");
    assert_eq!((second.block_time, second.propagation_time), (300, Some(100)));
    assert_eq!(chain.average_block_time(), Some(250));
    assert!(chain.update_block(1, block(5, 6), 1400).is_none());
    assert!(chain.update_block(9, block(8, 8), 1400).is_none());
    assert_eq!(chain.best_block().height, 5);
    let behind = chain.update_block(1, block(6, 6), 1500).expect("passed on");
    assert_eq!(behind.propagation_time, Some(0));
    assert_eq!(chain.best_block().hash.bytes, [6; 32]);
}

#[test]
fn a_finalized_block_goes_into_the_chain() {
    let mut chain = chain();
    chain.add_node(Node::new(details("a"), 0));
    assert!(chain.update_finalized(0, block(3, 3)));
    assert!(!chain.update_finalized(0, block(2, 2)));
    assert!(!chain.update_finalized(4, block(9, 9)));
    assert_eq!(chain.finalized_block().height, 3);
}

#[test]
fn reports_reach_the_node() {
    let mut chain = chain();
    chain.add_node(Node::new(details("a"), 0));
    chain.update_node(0, Payload::BestBlock { block: block(2, 2) }, 30);
    chain.update_node(
        0,
        Payload::SystemInterval { counters: SystemInterval { peers: Some(4), txcount: Some(1) } },
        31,
    );
    chain.update_node(0, Payload::ValidatorAddress { address: "5Grw".to_string() }, 32);
    chain.update_node(
        0,
        Payload::Interval {
            block: block(2, 2),
            interval: IntervalFromNode {
                kind: IntervalKind::Import,
                peer_id: None,
                start_timestamp: 20,
                end_timestamp: 29,
            },
        },
        33,
    );
    chain.update_node(
        0,
        Payload::HistoricalInterval {
            block_hash: BlockHash::from_bytes([2; 32]),
            block_height: 2,
            duration: 9,
            kind: IntervalKind::Import,
        },
        34,
    );
    let node = chain.get_node(0).unwrap();
    assert_eq!(node.best().height, 2);
    assert_eq!(node.stats().peers, 4);
    assert_eq!(node.details().validator.as_deref(), Some("5Grw"));
    assert_eq!(node.block_details().import_time, Some(9));
    assert_eq!(node.historical_data().len(), 1);
    let entry = chain.blocks().find_height(2).unwrap();
    assert_eq!(entry.hashes[0].nodes[0].identity.node_name, "a");
    assert!(entry.hashes[0].nodes[0].details.import.is_some());
}

#[test]
fn a_best_block_from_the_past_is_dropped() {
    let mut chain = chain();
    chain.add_node(Node::new(details("a"), 100));
    chain.update_node(0, Payload::BestBlock { block: block(2, 2) }, 99);
    assert_eq!(chain.get_node(0).map(|n| n.best().height), Some(0));
    chain.update_node(0, Payload::BestBlock { block: block(2, 2) }, u64::MAX);
    assert_eq!(chain.get_node(0).map(|n| n.best().height), Some(0));
    chain.update_node(0, Payload::BestBlock { block: block(2, 2) }, 100);
    assert_eq!(chain.get_node(0).map(|n| n.best().height), Some(2));
}
