use telemetry_core::aggregator::aggregator_set::{
    find_view, EndpointError, FanOut, FanOutAction, FanOutEvent, PollAction, PollEvent, PollLoop,
    ShardRoute, METRICS_REQUESTS, OVERVIEW_REQUESTS, SNAPSHOT_INTERVAL_MS,
};
use telemetry_core::aggregator::inner_loop::{
    AggregatorShard, Applied, FeedReply, FromFeedWebsocket, FromShardWebsocket,
};
use telemetry_core::state::chain::NodeChange;
use telemetry_core::aggregator::AggregatorSet;
use telemetry_core::endpoints::ChainOverview;
use telemetry_core::node_message::{IntervalFromNode, IntervalKind, Payload};
use telemetry_core::node_types::{Block, BlockHash, NodeDetails};
use telemetry_core::state::UniqueNodeIdentity;

fn genesis(byte: u8) -> BlockHash {
    BlockHash::from_bytes([byte; 32])
}

fn details(name: &str) -> NodeDetails {
    NodeDetails {
        chain: "Kusama".to_string(),
        name: name.to_string(),
        implementation: "Parity Polkadot".to_string(),
        version: "1.0".to_string(),
        validator: None,
        network_id: format!("net-{name}"),
        startup_time: None,
        is_authority: None,
    }
}

fn id(name: &str) -> UniqueNodeIdentity {
    UniqueNodeIdentity { node_name: name.to_string(), network_id: format!("net-{name}") }
}

fn add(chain: u8, name: &str) -> FromShardWebsocket {
    FromShardWebsocket::Add { genesis_hash: genesis(chain), node: details(name) }
}

fn update(chain: u8, name: &str, payload: Payload) -> FromShardWebsocket {
    FromShardWebsocket::Update { genesis_hash: genesis(chain), identity: id(name), payload }
}

fn observed(height: u64, byte: u8, kind: IntervalKind, start: u64, end: u64) -> Payload {
    Payload::Interval {
        block: Block { hash: BlockHash::from_bytes([byte; 32]), height },
        interval: IntervalFromNode { kind, peer_id: None, start_timestamp: start, end_timestamp: end },
    }
}

#[test]
fn round_robin_feeds_with_3_shards() {
    let mut set = AggregatorSet::spawn(3);
    let picked: Vec<usize> = (0..6).map(|_| set.subscribe_feed()).collect();
    assert_eq!(picked, vec![1, 2, 0, 1, 2, 0]);
}

#[test]
fn feeds_are_spread_evenly() {
    for shards in 1..=5usize {
        for feeds in 0..=23usize {
            let mut set = AggregatorSet::spawn(shards);
            let mut served = vec![0usize; shards];
            for _ in 0..feeds {
                served[set.subscribe_feed()] += 1;
            }
            for count in served {
                assert!(count == feeds / shards || count == (feeds + shards - 1) / shards);
            }
        }
    }
}

#[test]
fn one_aggregator_serves_every_feed() {
    let mut set = AggregatorSet::spawn(1);
    assert_eq!(set.num_aggregators(), 1);
    assert_eq!(set.subscribe_feed(), 0);
    assert_eq!(set.subscribe_feed(), 0);
    assert_eq!(set.subscribe_shard(), ShardRoute::Direct);
    assert_eq!(AggregatorSet::spawn(4).subscribe_shard(), ShardRoute::FanOut { shards: 4 });
}

#[test]
fn fan_out_with_3_shards() {
    let messages = ["M1", "M2", "M3"];
    let mut seen: Vec<Vec<&str>> = vec![Vec::new(); 3];
    let mut reader = FanOut::new(3);
    for message in messages {
        let mut action = reader.step(FanOutEvent::Received);
        while let FanOutAction::Send { shard } = action {
            seen[shard].push(message);
            action = reader.step(FanOutEvent::Sent);
        }
        assert_eq!(action, FanOutAction::Receive);
    }
    assert_eq!(reader.step(FanOutEvent::Closed), FanOutAction::Stop);
    for shard in seen {
        assert_eq!(shard, vec!["M1", "M2", "M3"]);
    }
}

#[test]
fn fan_out_ends_at_the_first_failure() {
    let mut reader = FanOut::new(3);
    assert_eq!(reader.step(FanOutEvent::Received), FanOutAction::Send { shard: 0 });
    assert_eq!(reader.step(FanOutEvent::Sent), FanOutAction::Send { shard: 1 });
    assert_eq!(reader.step(FanOutEvent::SendFailed), FanOutAction::Stop);
    assert_eq!(reader.step(FanOutEvent::Sent), FanOutAction::Stop);
    assert_eq!(reader.step(FanOutEvent::Received), FanOutAction::Stop);
}

#[test]
fn the_overview_task_publishes_after_three_answers() {
    assert_eq!(SNAPSHOT_INTERVAL_MS, 10_000);
    let mut task = PollLoop::new(OVERVIEW_REQUESTS);
    assert_eq!(task.step(PollEvent::Tick { now: 500 }), PollAction::Request { request: 0 });
    assert_eq!(task.step(PollEvent::Answered), PollAction::Request { request: 1 });
    assert_eq!(task.step(PollEvent::Answered), PollAction::Request { request: 2 });
    assert_eq!(task.step(PollEvent::Answered), PollAction::PublishAndSleep { until: 10_500 });
    assert_eq!(task.step(PollEvent::Tick { now: 23_000 }), PollAction::Request { request: 0 });
    assert_eq!(task.step(PollEvent::Answered), PollAction::Request { request: 1 });
    assert_eq!(task.step(PollEvent::Failed), PollAction::Exit);
    assert_eq!(task.step(PollEvent::Tick { now: 40_000 }), PollAction::Exit);
}

#[test]
fn the_metrics_task_publishes_after_one_answer() {
    let mut task = PollLoop::new(METRICS_REQUESTS);
    assert_eq!(task.step(PollEvent::Tick { now: 7 }), PollAction::Request { request: 0 });
    assert_eq!(task.step(PollEvent::Answered), PollAction::PublishAndSleep { until: 10_007 });
    assert_eq!(task.step(PollEvent::Tick { now: u64::MAX - 5 }), PollAction::Request { request: 0 });
    assert_eq!(task.step(PollEvent::Answered), PollAction::PublishAndSleep { until: u64::MAX });
    assert_eq!(task.step(PollEvent::Answered), PollAction::Exit);
}

#[test]
fn a_set_starts_with_nothing_published() {
    let set = AggregatorSet::spawn(2);
    let metrics = set.latest_metrics();
    assert_eq!(metrics.len(), 2);
    assert_eq!(metrics[0].connected_nodes, 0);
    assert_eq!(set.overview_endpoint(genesis(1)).err(), Some(EndpointError::NoGenesis));
    assert_eq!(set.block_history_endpoint(genesis(1)).err(), Some(EndpointError::NoGenesis));
    assert_eq!(set.node_list_endpoint(genesis(1)).err(), Some(EndpointError::NoGenesis));
}

#[test]
fn errors_have_their_words() {
    assert_eq!(EndpointError::LockFailed.message(), "Failed to acquire lock.");
    assert_eq!(EndpointError::NoData.message(), "Failed to get any Data");
    assert_eq!(EndpointError::NoGenesis.message(), "No genesis hash found");
    let nothing: Vec<Vec<(BlockHash, ChainOverview)>> = Vec::new();
    assert_eq!(find_view(&nothing, &genesis(1)).err(), Some(EndpointError::NoData));
}

#[test]
fn endpoints_read_the_first_aggregator_only() {
    let mut first = AggregatorShard::new();
    first.apply(add(1, "a"), 10);
    let mut second = AggregatorShard::new();
    second.apply(add(2, "b"), 10);
    let mut set = AggregatorSet::spawn(2);
    set.store_views(
        1,
        second.gather_overview_endpoint(),
        second.gather_block_history_endpoint(),
        second.gather_node_list_endpoint(),
    );
    assert_eq!(set.overview_endpoint(genesis(2)).err(), Some(EndpointError::NoGenesis));
    set.store_views(
        0,
        first.gather_overview_endpoint(),
        first.gather_block_history_endpoint(),
        first.gather_node_list_endpoint(),
    );
    assert_eq!(set.overview_endpoint(genesis(1)).map(|o| o.node_count), Ok(1));
    assert_eq!(set.node_list_endpoint(genesis(1)).map(|l| l.nodes().len()), Ok(1));
    assert!(set.block_history_endpoint(genesis(1)).is_ok());
    assert_eq!(set.overview_endpoint(genesis(2)).err(), Some(EndpointError::NoGenesis));
    set.store_metrics(1, second.gather_metrics(77));
    let metrics = set.latest_metrics();
    assert_eq!((metrics[0].timestamp_unix_ms, metrics[1].timestamp_unix_ms), (0, 77));
    assert_eq!(metrics[1].connected_nodes, 1);
}

#[test]
fn one_shard_two_nodes_and_a_fork() {
    let mut shard = AggregatorShard::new();
    shard.apply(add(1, "A"), 900);
    shard.apply(add(1, "B"), 900);
    shard.apply(update(1, "A", observed(100, 0xaa, IntervalKind::Proposal, 1000, 1100)), 1100);
    shard.apply(update(1, "B", observed(100, 0xbb, IntervalKind::Import, 1050, 1200)), 1200);
    let overviews = shard.gather_overview_endpoint();
    assert_eq!(overviews.len(), 1);
    assert_eq!(overviews[0].0.bytes, [1; 32]);
    let overview = &overviews[0].1;
    assert_eq!(overview.node_count, 2);
    let forks = overview.forks.entries();
    assert_eq!(forks.len(), 1);
    assert_eq!(forks[0].block_height, 100);
    assert_eq!(forks[0].blocks.len(), 2);
    assert_eq!(forks[0].blocks[0].block_hash.bytes, [0xaa; 32]);
    assert_eq!(
        forks[0].blocks[0].block_producer.as_ref().map(|p| p.identity.node_name.as_str()),
        Some("A")
    );
    assert!(forks[0].blocks[1].block_producer.is_none());
    assert_eq!(forks[0].blocks[0].number_of_witnesses, 1);
    assert_eq!(forks[0].blocks[1].number_of_witnesses, 1);
}

#[test]
fn a_snapshot_shows_the_messages_before_it() {
    let mut shard = AggregatorShard::new();
    let mut counts: Vec<usize> = Vec::new();
    for (i, name) in ["a", "b", "c", "d"].iter().enumerate() {
        shard.apply(add(1, name), i as u64);
        let once = shard.gather_node_list_endpoint();
        let twice = shard.gather_node_list_endpoint();
        assert_eq!(once[0].1.nodes().len(), twice[0].1.nodes().len());
        counts.push(shard.gather_overview_endpoint()[0].1.node_count);
    }
    assert_eq!(counts, vec![1, 2, 3, 4]);
    let mut replay = AggregatorShard::new();
    for (i, name) in ["a", "b", "c", "d"].iter().enumerate() {
        replay.apply(add(1, name), i as u64);
    }
    let names = |shard: &AggregatorShard| -> Vec<String> {
        shard.gather_node_list_endpoint()[0]
            .1
            .nodes()
            .iter()
            .map(|n| n.identity.node_name.clone())
            .collect()
    };
    assert_eq!(names(&shard), names(&replay));
    assert_eq!(shard.gather_metrics(5).ingress.added, 4);
}

#[test]
fn a_chain_goes_with_its_last_node() {
    let mut shard = AggregatorShard::new();
    shard.apply(add(1, "a"), 0);
    shard.apply(add(2, "b"), 0);
    shard.apply(add(1, "c"), 0);
    assert_eq!(shard.chains().len(), 2);
    assert_eq!(shard.gather_metrics(1).connected_nodes, 3);
    shard.apply(FromShardWebsocket::Remove { genesis_hash: genesis(2), identity: id("x") }, 1);
    shard.apply(FromShardWebsocket::Remove { genesis_hash: genesis(3), identity: id("b") }, 1);
    assert_eq!(shard.chains().len(), 2);
    shard.apply(FromShardWebsocket::Remove { genesis_hash: genesis(2), identity: id("b") }, 1);
    assert_eq!(shard.chains().len(), 1);
    assert_eq!(shard.find_chain(&genesis(2)), None);
    assert_eq!(shard.find_chain(&genesis(1)), Some(0));
    shard.apply(FromShardWebsocket::Remove { genesis_hash: genesis(1), identity: id("a") }, 1);
    assert_eq!(shard.gather_metrics(1).connected_nodes, 1);
    assert_eq!(shard.gather_metrics(1).chains, 1);
}

#[test]
fn a_report_for_an_unknown_node_changes_nothing() {
    let mut shard = AggregatorShard::new();
    shard.apply(add(1, "a"), 0);
    shard.apply(update(1, "z", observed(5, 5, IntervalKind::Sync, 1, 2)), 3);
    shard.apply(update(9, "a", observed(5, 5, IntervalKind::Sync, 1, 2)), 3);
    assert!(shard.gather_block_history_endpoint()[0].1.entries().is_empty());
    shard.apply(update(1, "a", observed(5, 5, IntervalKind::Sync, 1, 2)), 3);
    assert_eq!(shard.gather_block_history_endpoint()[0].1.entries().len(), 1);
}

#[test]
fn feeds_get_ids_of_their_own() {
    let mut shard = AggregatorShard::new();
    shard.apply(add(1, "a"), 0);
    assert_eq!(shard.subscribe_feed(), Some(0));
    assert_eq!(shard.subscribe_feed(), Some(1));
    shard.disconnect_feed(0);
    shard.disconnect_feed(0);
    assert_eq!(shard.subscribe_feed(), Some(2));
    assert_eq!(shard.find_feed(0), None);
    assert_eq!(shard.find_feed(1), Some(0));
    assert_eq!(shard.gather_metrics(0).subscribed_feeds, 2);
    assert!(matches!(
        shard.handle_feed(1, FromFeedWebsocket::Subscribe { chain: genesis(1) }),
        FeedReply::Subscribed
    ));
    assert!(matches!(
        shard.handle_feed(1, FromFeedWebsocket::Subscribe { chain: genesis(7) }),
        FeedReply::Unsubscribed
    ));
    assert!(matches!(shard.handle_feed(2, FromFeedWebsocket::Unsubscribe), FeedReply::Unsubscribed));
    assert!(matches!(shard.handle_feed(0, FromFeedWebsocket::Unsubscribe), FeedReply::UnknownFeed));
    match shard.handle_feed(2, FromFeedWebsocket::Ping { value: "hi".to_string() }) {
        FeedReply::Pong { value } => assert_eq!(value, "hi"),
        other => panic!("{other:?}"),
    }
}

#[test]
fn events_of_a_chain_go_to_its_subscribers() {
    let mut shard = AggregatorShard::new();
    shard.apply(add(1, "a"), 0);
    shard.apply(add(2, "b"), 0);
    for _ in 0..4 {
        shard.subscribe_feed();
    }
    shard.handle_feed(0, FromFeedWebsocket::Subscribe { chain: genesis(1) });
    shard.handle_feed(1, FromFeedWebsocket::Subscribe { chain: genesis(2) });
    shard.handle_feed(3, FromFeedWebsocket::Subscribe { chain: genesis(1) });
    assert_eq!(shard.subscribers(&genesis(1)), vec![0, 3]);
    assert_eq!(shard.subscribers(&genesis(2)), vec![1]);
    assert!(shard.subscribers(&genesis(3)).is_empty());
    shard.handle_feed(0, FromFeedWebsocket::Unsubscribe);
    shard.disconnect_feed(1);
    assert_eq!(shard.subscribers(&genesis(1)), vec![3]);
    assert!(shard.subscribers(&genesis(2)).is_empty());
}

#[test]
fn every_aggregator_is_sent_every_message() {
    for shards in 1..=4usize {
        let mut reader = FanOut::new(shards);
        let mut sent: Vec<(usize, usize)> = Vec::new();
        for message in 0..5usize {
            let mut action = reader.step(FanOutEvent::Received);
            while let FanOutAction::Send { shard } = action {
                sent.push((message, shard));
                action = reader.step(FanOutEvent::Sent);
            }
        }
        let expected: Vec<(usize, usize)> =
            (0..5usize).flat_map(|m| (0..shards).map(move |s| (m, s))).collect();
        assert_eq!(sent, expected);
    }
}

#[test]
fn taking_in_a_message_tells_what_it_came_to() {
    let mut shard = AggregatorShard::new();
    assert!(matches!(shard.apply(add(1, "a"), 10), Applied::NodeAdded { chain: 0, node: 0 }));
    assert!(matches!(shard.apply(add(1, "b"), 10), Applied::NodeAdded { chain: 0, node: 1 }));
    assert!(matches!(shard.apply(add(2, "c"), 10), Applied::NodeAdded { chain: 1, node: 0 }));
    assert!(matches!(shard.apply(add(1, "a"), 20), Applied::NodeAdded { chain: 0, node: 0 }));
    let best = Payload::BestBlock { block: Block { hash: genesis(7), height: 4 } };
    match shard.apply(update(1, "b", best.clone()), 60) {
        Applied::NodeUpdated { chain: 0, node: 1, change: NodeChange::NewBest { passed } } => {
            assert_eq!(passed.map(|d| (d.block.height, d.block_time)), Some((4, 50)));
        }
        other => panic!("{other:?}"),
    }
    assert!(matches!(
        shard.apply(update(1, "b", best.clone()), 70),
        Applied::NodeUpdated { change: NodeChange::Unchanged, .. }
    ));
    assert!(matches!(shard.apply(update(1, "z", best.clone()), 70), Applied::Ignored));
    assert!(matches!(shard.apply(update(9, "b", best), 70), Applied::Ignored));
    let address = Payload::ValidatorAddress { address: "5Grw".to_string() };
    assert!(matches!(
        shard.apply(update(2, "c", address.clone()), 70),
        Applied::NodeUpdated { chain: 1, node: 0, change: NodeChange::Changed }
    ));
    assert!(matches!(
        shard.apply(update(2, "c", address), 70),
        Applied::NodeUpdated { chain: 1, node: 0, change: NodeChange::Unchanged }
    ));
    let leave = |chain: u8, name: &str| FromShardWebsocket::Remove {
        genesis_hash: genesis(chain),
        identity: id(name),
    };
    assert!(matches!(
        shard.apply(leave(1, "a"), 80),
        Applied::NodeRemoved { chain: 0, node: 0, chain_removed: false }
    ));
    assert!(matches!(shard.apply(leave(1, "a"), 80), Applied::Ignored));
    assert!(matches!(
        shard.apply(leave(1, "b"), 80),
        Applied::NodeRemoved { chain: 0, node: 1, chain_removed: true }
    ));
    assert!(matches!(
        shard.apply(leave(2, "c"), 80),
        Applied::NodeRemoved { chain: 0, node: 0, chain_removed: true }
    ));
    let metrics = shard.gather_metrics(90);
    assert_eq!((metrics.ingress.added, metrics.ingress.updated, metrics.ingress.removed), (4, 6, 4));
    assert_eq!((metrics.chains, metrics.connected_nodes, metrics.feed_replies), (0, 0, 0));
}

#[test]
fn answers_to_feeds_are_counted() {
    let mut shard = AggregatorShard::new();
    shard.subscribe_feed();
    shard.handle_feed(0, FromFeedWebsocket::Unsubscribe);
    shard.handle_feed(0, FromFeedWebsocket::Ping { value: "x".to_string() });
    shard.handle_feed(5, FromFeedWebsocket::Unsubscribe);
    assert_eq!(shard.gather_metrics(0).feed_replies, 2);
}
