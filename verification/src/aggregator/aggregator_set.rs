//! A set of aggregators that work side by side: what every aggregator is
//! sent, which aggregator serves a feed, and the views that each aggregator
//! last published.

use crate::aggregator::inner_loop::Metrics;
use crate::endpoints::{BlockHistory, ChainOverview, NodeList};
use crate::node_types::BlockHash;
use crate::scan::{first_index, lemma_first_index_is};
use vstd::prelude::*;

verus! {

/// The least time between two requests for the views of one aggregator,
/// in ms.
pub const SNAPSHOT_INTERVAL_MS: u64 = 10_000;

/// Why an endpoint has no view to give.
#[derive(Clone, Copy, Debug, PartialEq, Eq, Structural)]
pub enum EndpointError {
    /// The views could not be reached. This library never reports it: it
    /// is for a caller that keeps the views behind a lock.
    LockFailed,
    /// No aggregator has a place for its views.
    NoData,
    /// The first aggregator has published no view of the chain.
    NoGenesis,
}

impl EndpointError {
    /// The error in words.
    pub fn message(&self) -> (r: &'static str)
        ensures
            r@ == match *self {
                EndpointError::LockFailed => "Failed to acquire lock."@,
                EndpointError::NoData => "Failed to get any Data"@,
                EndpointError::NoGenesis => "No genesis hash found"@,
            },
    {
        match self {
            EndpointError::LockFailed => "Failed to acquire lock.",
            EndpointError::NoData => "Failed to get any Data",
            EndpointError::NoGenesis => "No genesis hash found",
        }
    }
}

/// The views of the chain `genesis_hash`.
pub open spec fn of_chain<T>(genesis_hash: BlockHash) -> spec_fn((BlockHash, T)) -> bool {
    |entry: (BlockHash, T)| entry.0 == genesis_hash
}

/// The view that the first aggregator published of the chain
/// `genesis_hash`, or why there is none.
pub open spec fn lookup<T>(table: Seq<Vec<(BlockHash, T)>>, genesis_hash: BlockHash) -> Result<
    T,
    EndpointError,
> {
    if table.len() == 0 {
        Err(EndpointError::NoData)
    } else {
        let i = first_index(table[0]@, of_chain::<T>(genesis_hash));
        if i < table[0]@.len() {
            Ok(table[0]@[i].1)
        } else {
            Err(EndpointError::NoGenesis)
        }
    }
}

/// Looks up the view that the first aggregator published of a chain.
pub fn find_view<'a, T>(table: &'a Vec<Vec<(BlockHash, T)>>, genesis_hash: &BlockHash) -> (r: Result<
    &'a T,
    EndpointError,
>)
    ensures
        r is Ok == lookup(table@, *genesis_hash) is Ok,
        r matches Ok(view) ==> lookup(table@, *genesis_hash) == Ok::<T, EndpointError>(*view),
        r matches Err(e) ==> lookup(table@, *genesis_hash) == Err::<T, EndpointError>(e),
{
    if table.len() == 0 {
        return Err(EndpointError::NoData);
    }
    let datas = &table[0];
    let n = datas.len();
    let mut i: usize = 0;
    while i < n
        invariant
            n == datas@.len(),
            i <= n,
            table@.len() > 0,
            *datas == table@[0],
            forall|k: int| 0 <= k < i ==> !of_chain::<T>(*genesis_hash)(#[trigger] datas@[k]),
        decreases n - i,
    {
        if datas[i].0.same(genesis_hash) {
            proof {
                lemma_first_index_is(datas@, of_chain::<T>(*genesis_hash), i as int);
            }
            return Ok(&datas[i].1);
        }
        i += 1;
    }
    proof {
        lemma_first_index_is(datas@, of_chain::<T>(*genesis_hash), n as int);
    }
    Err(EndpointError::NoGenesis)
}

/// The views that the aggregators last published, one place per
/// aggregator in each table.
#[derive(Debug)]
pub struct AggregatorSetInner {
    metrics: Vec<Metrics>,
    overview: Vec<Vec<(BlockHash, ChainOverview)>>,
    block_history: Vec<Vec<(BlockHash, BlockHistory)>>,
    node_list: Vec<Vec<(BlockHash, NodeList)>>,
}

impl AggregatorSetInner {
    /// The counters that each aggregator last published.
    pub closed spec fn metrics(&self) -> Seq<Metrics> {
        self.metrics@
    }

    /// The overviews that each aggregator last published.
    pub closed spec fn overview(&self) -> Seq<Vec<(BlockHash, ChainOverview)>> {
        self.overview@
    }

    /// The block histories that each aggregator last published.
    pub closed spec fn block_history(&self) -> Seq<Vec<(BlockHash, BlockHistory)>> {
        self.block_history@
    }

    /// The node lists that each aggregator last published.
    pub closed spec fn node_list(&self) -> Seq<Vec<(BlockHash, NodeList)>> {
        self.node_list@
    }

    /// Every table has one place for each of `aggregators` aggregators.
    pub open spec fn wf(&self, aggregators: usize) -> bool {
        &&& self.metrics().len() == aggregators
        &&& self.overview().len() == aggregators
        &&& self.block_history().len() == aggregators
        &&& self.node_list().len() == aggregators
    }

    /// Tables for `aggregators` aggregators that have published nothing:
    /// counters of zero and no view of any chain.
    pub fn new(aggregators: usize) -> (r: Self)
        ensures
            r.wf(aggregators),
            forall|i: int| 0 <= i < aggregators ==> #[trigger] r.metrics()[i] == Metrics::zero(),
            forall|i: int| 0 <= i < aggregators ==> (#[trigger] r.overview()[i])@.len() == 0,
            forall|i: int| 0 <= i < aggregators ==> (#[trigger] r.block_history()[i])@.len() == 0,
            forall|i: int| 0 <= i < aggregators ==> (#[trigger] r.node_list()[i])@.len() == 0,
    {
        let mut r = AggregatorSetInner {
            metrics: Vec::new(),
            overview: Vec::new(),
            block_history: Vec::new(),
            node_list: Vec::new(),
        };
        let mut i: usize = 0;
        while i < aggregators
            invariant
                i <= aggregators,
                r.wf(i),
                forall|k: int| 0 <= k < i ==> #[trigger] r.metrics()[k] == Metrics::zero(),
                forall|k: int| 0 <= k < i ==> (#[trigger] r.overview()[k])@.len() == 0,
                forall|k: int| 0 <= k < i ==> (#[trigger] r.block_history()[k])@.len() == 0,
                forall|k: int| 0 <= k < i ==> (#[trigger] r.node_list()[k])@.len() == 0,
            decreases aggregators - i,
        {
            r.metrics.push(Metrics::new());
            r.overview.push(Vec::new());
            r.block_history.push(Vec::new());
            r.node_list.push(Vec::new());
            i += 1;
        }
        r
    }

    /// Puts the counters of aggregator `idx` in its place. No other place
    /// changes.
    pub fn store_metrics(&mut self, idx: usize, metrics: Metrics)
        requires
            idx < old(self).metrics().len(),
        ensures
            final(self).metrics() == old(self).metrics().update(idx as int, metrics),
            final(self).overview() == old(self).overview(),
            final(self).block_history() == old(self).block_history(),
            final(self).node_list() == old(self).node_list(),
    {
        self.metrics[idx] = metrics;
    }

    /// Puts the three views of aggregator `idx` in their places. No other
    /// place changes.
    pub fn store_views(
        &mut self,
        idx: usize,
        overview: Vec<(BlockHash, ChainOverview)>,
        block_history: Vec<(BlockHash, BlockHistory)>,
        node_list: Vec<(BlockHash, NodeList)>,
    )
        requires
            idx < old(self).overview().len(),
            idx < old(self).block_history().len(),
            idx < old(self).node_list().len(),
        ensures
            final(self).metrics() == old(self).metrics(),
            final(self).overview() == old(self).overview().update(idx as int, overview),
            final(self).block_history() == old(self).block_history().update(
                idx as int,
                block_history,
            ),
            final(self).node_list() == old(self).node_list().update(idx as int, node_list),
    {
        self.overview[idx] = overview;
        self.block_history[idx] = block_history;
        self.node_list[idx] = node_list;
    }
}

/// The shard that the feed after `counter` earlier ones is served by:
/// the count goes up by one, starting over past the greatest number, and
/// the shards take turns.
pub open spec fn feed_shard(counter: usize, shards: usize) -> int {
    (if counter == usize::MAX {
        0
    } else {
        counter + 1
    }) % (shards as int)
}

/// What a source of messages is given to send them into.
#[derive(Clone, Copy, Debug, PartialEq, Eq, Structural)]
pub enum ShardRoute {
    /// The one aggregator itself.
    Direct,
    /// A queue whose reader passes every message on to each of `shards`
    /// aggregators.
    FanOut { shards: usize },
}

/// A set of aggregators.
#[derive(Debug)]
pub struct AggregatorSet {
    aggregators: usize,
    next_idx: usize,
    inner: AggregatorSetInner,
}

impl AggregatorSet {
    /// How many aggregators the set has.
    pub closed spec fn aggregators(&self) -> usize {
        self.aggregators
    }

    /// How many feeds have subscribed, counted up to the greatest number
    /// and then again from zero.
    pub closed spec fn next_idx(&self) -> usize {
        self.next_idx
    }

    /// The views that the aggregators last published.
    pub closed spec fn inner(&self) -> AggregatorSetInner {
        self.inner
    }

    /// There is at least one aggregator, and every table has one place for
    /// each.
    pub open spec fn wf(&self) -> bool {
        &&& self.aggregators() >= 1
        &&& self.inner().wf(self.aggregators())
    }

    /// A set of `num_aggregators` aggregators that have published nothing
    /// yet and serve no feed.
    pub fn spawn(num_aggregators: usize) -> (r: Self)
        requires
            num_aggregators != 0,
        ensures
            r.wf(),
            r.aggregators() == num_aggregators,
            r.next_idx() == 0,
            forall|i: int|
                0 <= i < num_aggregators ==> #[trigger] r.inner().metrics()[i] == Metrics::zero(),
            forall|i: int|
                0 <= i < num_aggregators ==> (#[trigger] r.inner().overview()[i])@.len() == 0,
            forall|i: int|
                0 <= i < num_aggregators ==> (#[trigger] r.inner().block_history()[i])@.len() == 0,
            forall|i: int|
                0 <= i < num_aggregators ==> (#[trigger] r.inner().node_list()[i])@.len() == 0,
    {
        AggregatorSet {
            aggregators: num_aggregators,
            next_idx: 0,
            inner: AggregatorSetInner::new(num_aggregators),
        }
    }

    /// How many aggregators the set has.
    pub fn num_aggregators(&self) -> (r: usize)
        ensures
            r == self.aggregators(),
    {
        self.aggregators
    }

    /// The tables of published views, to read.
    pub fn tables(&self) -> (r: &AggregatorSetInner)
        ensures
            *r == self.inner(),
    {
        &self.inner
    }

    /// Puts the counters of aggregator `idx` in its place.
    pub fn store_metrics(&mut self, idx: usize, metrics: Metrics)
        requires
            old(self).wf(),
            idx < old(self).aggregators(),
        ensures
            final(self).wf(),
            final(self).aggregators() == old(self).aggregators(),
            final(self).next_idx() == old(self).next_idx(),
            final(self).inner().metrics() == old(self).inner().metrics().update(idx as int, metrics),
            final(self).inner().overview() == old(self).inner().overview(),
            final(self).inner().block_history() == old(self).inner().block_history(),
            final(self).inner().node_list() == old(self).inner().node_list(),
    {
        self.inner.store_metrics(idx, metrics);
    }

    /// Puts the three views of aggregator `idx` in their places.
    pub fn store_views(
        &mut self,
        idx: usize,
        overview: Vec<(BlockHash, ChainOverview)>,
        block_history: Vec<(BlockHash, BlockHistory)>,
        node_list: Vec<(BlockHash, NodeList)>,
    )
        requires
            old(self).wf(),
            idx < old(self).aggregators(),
        ensures
            final(self).wf(),
            final(self).aggregators() == old(self).aggregators(),
            final(self).next_idx() == old(self).next_idx(),
            final(self).inner().metrics() == old(self).inner().metrics(),
            final(self).inner().overview() == old(self).inner().overview().update(
                idx as int,
                overview,
            ),
            final(self).inner().block_history() == old(self).inner().block_history().update(
                idx as int,
                block_history,
            ),
            final(self).inner().node_list() == old(self).inner().node_list().update(
                idx as int,
                node_list,
            ),
    {
        self.inner.store_views(idx, overview, block_history, node_list);
    }

    /// The counters that each aggregator last published.
    pub fn latest_metrics(&self) -> (r: Vec<Metrics>)
        ensures
            r@ == self.inner().metrics(),
    {
        let n = self.inner.metrics.len();
        let mut r: Vec<Metrics> = Vec::new();
        let mut i: usize = 0;
        while i < n
            invariant
                n == self.inner.metrics@.len(),
                i <= n,
                r@ == self.inner.metrics@.take(i as int),
            decreases n - i,
        {
            r.push(self.inner.metrics[i]);
            i += 1;
            assert(r@ =~= self.inner.metrics@.take(i as int));
        }
        assert(self.inner.metrics@.take(n as int) =~= self.inner.metrics@);
        r
    }

    /// The overview that the first aggregator last published of the chain
    /// `genesis_hash`.
    pub fn overview_endpoint(&self, genesis_hash: BlockHash) -> (r: Result<
        &ChainOverview,
        EndpointError,
    >)
        ensures
            r is Ok == lookup(self.inner().overview(), genesis_hash) is Ok,
            r matches Ok(view) ==> lookup(self.inner().overview(), genesis_hash) == Ok::<
                ChainOverview,
                EndpointError,
            >(*view),
            r matches Err(e) ==> lookup(self.inner().overview(), genesis_hash) == Err::<
                ChainOverview,
                EndpointError,
            >(e),
    {
        find_view(&self.inner.overview, &genesis_hash)
    }

    /// The block history that the first aggregator last published of the
    /// chain `genesis_hash`.
    pub fn block_history_endpoint(&self, genesis_hash: BlockHash) -> (r: Result<
        &BlockHistory,
        EndpointError,
    >)
        ensures
            r is Ok == lookup(self.inner().block_history(), genesis_hash) is Ok,
            r matches Ok(view) ==> lookup(self.inner().block_history(), genesis_hash) == Ok::<
                BlockHistory,
                EndpointError,
            >(*view),
            r matches Err(e) ==> lookup(self.inner().block_history(), genesis_hash) == Err::<
                BlockHistory,
                EndpointError,
            >(e),
    {
        find_view(&self.inner.block_history, &genesis_hash)
    }

    /// The node list that the first aggregator last published of the chain
    /// `genesis_hash`.
    pub fn node_list_endpoint(&self, genesis_hash: BlockHash) -> (r: Result<
        &NodeList,
        EndpointError,
    >)
        ensures
            r is Ok == lookup(self.inner().node_list(), genesis_hash) is Ok,
            r matches Ok(view) ==> lookup(self.inner().node_list(), genesis_hash) == Ok::<
                NodeList,
                EndpointError,
            >(*view),
            r matches Err(e) ==> lookup(self.inner().node_list(), genesis_hash) == Err::<
                NodeList,
                EndpointError,
            >(e),
    {
        find_view(&self.inner.node_list, &genesis_hash)
    }

    /// What a source of messages sends into: a single aggregator itself,
    /// or a queue that feeds every aggregator.
    pub fn subscribe_shard(&self) -> (r: ShardRoute)
        ensures
            r == if self.aggregators() == 1 {
                ShardRoute::Direct
            } else {
                ShardRoute::FanOut { shards: self.aggregators() }
            },
    {
        if self.aggregators == 1 {
            ShardRoute::Direct
        } else {
            ShardRoute::FanOut { shards: self.aggregators }
        }
    }

    /// Counts one more feed and returns the index of the aggregator that
    /// serves it: the aggregators take turns.
    pub fn subscribe_feed(&mut self) -> (this_idx: usize)
        requires
            old(self).wf(),
        ensures
            final(self).wf(),
            this_idx == feed_shard(old(self).next_idx(), old(self).aggregators()),
            this_idx < final(self).aggregators(),
            final(self).aggregators() == old(self).aggregators(),
            final(self).inner() == old(self).inner(),
            final(self).next_idx() == if old(self).next_idx() == usize::MAX {
                0
            } else {
                old(self).next_idx() + 1
            },
    {
        let next = if self.next_idx == usize::MAX {
            0
        } else {
            self.next_idx + 1
        };
        self.next_idx = next;
        next % self.aggregators
    }
}

/// How many of the first `feeds` feeds after `counter` earlier ones are
/// served by `shard`.
pub open spec fn visits(counter: usize, shards: usize, feeds: nat, shard: int) -> nat
    decreases feeds,
{
    if feeds == 0 {
        0
    } else {
        visits(counter, shards, (feeds - 1) as nat, shard) + if feed_shard(
            (counter + feeds - 1) as usize,
            shards,
        ) == shard {
            1nat
        } else {
            0nat
        }
    }
}

/// How far the count of feeds is past the last turn of `shard`.
spec fn phase(counter: int, shards: int, feeds: int, shard: int) -> int {
    (counter + feeds + shards - shard) % shards
}

proof fn lemma_phase_step(x: int, n: int, s: int)
    requires
        n >= 1,
        0 <= s < n,
        x >= 1,
    ensures
        0 <= x % n < n,
        0 <= (x - 1) % n < n,
        x % n == 0 ==> (x - 1) % n == n - 1,
        x % n != 0 ==> (x - 1) % n == x % n - 1,
        (x + s) % n == s <==> x % n == 0,
{
    let q = x / n;
    let r = x % n;
    vstd::arithmetic::div_mod::lemma_fundamental_div_mod(x, n);
    vstd::arithmetic::div_mod::lemma_mod_pos_bound(x, n);
    vstd::arithmetic::div_mod::lemma_mod_pos_bound(x - 1, n);
    assert(n * q == q * n) by (nonlinear_arith);
    if r == 0 {
        assert(x - 1 == (q - 1) * n + (n - 1)) by (nonlinear_arith)
            requires
                x == q * n + r,
                r == 0,
        ;
        vstd::arithmetic::div_mod::lemma_fundamental_div_mod_converse(x - 1, n, q - 1, n - 1);
        vstd::arithmetic::div_mod::lemma_fundamental_div_mod_converse(x + s, n, q, s);
    } else {
        vstd::arithmetic::div_mod::lemma_fundamental_div_mod_converse(x - 1, n, q, r - 1);
        if r + s < n {
            vstd::arithmetic::div_mod::lemma_fundamental_div_mod_converse(x + s, n, q, r + s);
        } else {
            assert(x + s == (q + 1) * n + (r + s - n)) by (nonlinear_arith)
                requires
                    x == q * n + r,
            ;
            vstd::arithmetic::div_mod::lemma_fundamental_div_mod_converse(
                x + s,
                n,
                q + 1,
                r + s - n,
            );
        }
    }
}

proof fn lemma_visits_by_phase(counter: usize, shards: usize, feeds: nat, shard: int)
    requires
        shards >= 1,
        0 <= shard < shards,
        counter + feeds <= usize::MAX,
    ensures
        shards * visits(counter, shards, feeds, shard) == feeds - phase(
            counter as int,
            shards as int,
            feeds as int,
            shard,
        ) + phase(counter as int, shards as int, 0, shard),
        0 <= phase(counter as int, shards as int, feeds as int, shard) < shards,
    decreases feeds,
{
    let n = shards as int;
    if feeds == 0 {
        vstd::arithmetic::div_mod::lemma_mod_pos_bound(counter + n - shard, n);
        assert(n * 0 == 0);
    } else {
        lemma_visits_by_phase(counter, shards, (feeds - 1) as nat, shard);
        let x = counter + feeds + n - shard;
        lemma_phase_step(x, n, shard);
        assert(x + shard == counter + feeds + n);
        vstd::arithmetic::div_mod::lemma_fundamental_div_mod(counter + feeds, n);
        vstd::arithmetic::div_mod::lemma_mod_pos_bound(counter + feeds, n);
        let q = (counter + feeds) / n;
        let r = (counter + feeds) % n;
        assert(counter + feeds + n == (q + 1) * n + r) by (nonlinear_arith)
            requires
                counter + feeds == n * q + r,
        ;
        vstd::arithmetic::div_mod::lemma_fundamental_div_mod_converse(
            counter + feeds + n,
            n,
            q + 1,
            r,
        );
        assert(feed_shard((counter + feeds - 1) as usize, shards) == r);
        let before = visits(counter, shards, (feeds - 1) as nat, shard);
        let hit: nat = if r == shard {
            1
        } else {
            0
        };
        assert(visits(counter, shards, feeds, shard) == before + hit);
        assert(n * (before + hit) == n * before + n * hit) by (nonlinear_arith);
        assert(phase(counter as int, n, feeds as int - 1, shard) == (x - 1) % n);
        assert(phase(counter as int, n, feeds as int, shard) == x % n);
        if r == shard {
            assert(n * hit == n) by (nonlinear_arith)
                requires
                    hit == 1,
            ;
        } else {
            assert(n * hit == 0) by (nonlinear_arith)
                requires
                    hit == 0,
            ;
        }
    }
}

/// The aggregators take turns: of any `feeds` feeds in a row, as long as
/// the count of feeds does not start over, each of the `shards`
/// aggregators serves `feeds / shards` of them, rounded down or up.
pub proof fn lemma_feeds_take_turns(counter: usize, shards: usize, feeds: nat, shard: int)
    requires
        shards >= 1,
        0 <= shard < shards,
        counter + feeds <= usize::MAX,
    ensures
        feeds / (shards as nat) <= visits(counter, shards, feeds, shard) <= (feeds + shards - 1) / (
        shards as int),
{
    let n = shards as int;
    let k = feeds as int;
    let v = visits(counter, shards, feeds, shard) as int;
    lemma_visits_by_phase(counter, shards, feeds, shard);
    lemma_visits_by_phase(counter, shards, 0, shard);
    vstd::arithmetic::div_mod::lemma_fundamental_div_mod(k, n);
    vstd::arithmetic::div_mod::lemma_mod_pos_bound(k, n);
    vstd::arithmetic::div_mod::lemma_fundamental_div_mod(k + n - 1, n);
    vstd::arithmetic::div_mod::lemma_mod_pos_bound(k + n - 1, n);
    let low = k / n;
    let high = (k + n - 1) / n;
    assert(n * v >= k - (n - 1));
    assert(n * v <= k + (n - 1));
    assert(v >= low) by (nonlinear_arith)
        requires
            n >= 1,
            n * v >= k - (n - 1),
            k == n * low + k % n,
            0 <= k % n < n,
    ;
    assert(v <= high) by (nonlinear_arith)
        requires
            n >= 1,
            n * v <= k + (n - 1),
            k + n - 1 == n * high + (k + n - 1) % n,
            0 <= (k + n - 1) % n < n,
    ;
}

/// What the reader of a fan-out queue is waiting for.
#[derive(Clone, Copy, Debug, PartialEq, Eq, Structural)]
pub enum FanOutState {
    /// The next message from the source.
    Waiting,
    /// The end of passing the current message on to aggregator `shard`.
    Sending { shard: usize },
    /// Nothing any more.
    Stopped,
}

/// What has happened to the reader of a fan-out queue.
#[derive(Clone, Copy, Debug, PartialEq, Eq, Structural)]
pub enum FanOutEvent {
    /// A message has come from the source.
    Received,
    /// The source has closed the queue.
    Closed,
    /// The message has been passed on.
    Sent,
    /// The message could not be passed on.
    SendFailed,
}

/// What the reader of a fan-out queue does next.
#[derive(Clone, Copy, Debug, PartialEq, Eq, Structural)]
pub enum FanOutAction {
    /// Wait for the next message from the source.
    Receive,
    /// Pass a copy of the current message on to aggregator `shard`.
    Send { shard: usize },
    /// Close the queue and end.
    Stop,
}

/// How the reader of a queue that feeds `shards` aggregators goes on: a
/// message goes to each aggregator in turn, the first one first; the
/// first failure, and the end of the source, end the reader for good.
pub open spec fn fan_out_step(shards: usize, state: FanOutState, event: FanOutEvent) -> (
    FanOutState,
    FanOutAction,
) {
    match (state, event) {
        (FanOutState::Waiting, FanOutEvent::Received) => if shards > 0 {
            (FanOutState::Sending { shard: 0 }, FanOutAction::Send { shard: 0 })
        } else {
            (FanOutState::Waiting, FanOutAction::Receive)
        },
        (FanOutState::Sending { shard }, FanOutEvent::Sent) => if shard + 1 < shards {
            (
                FanOutState::Sending { shard: (shard + 1) as usize },
                FanOutAction::Send { shard: (shard + 1) as usize },
            )
        } else {
            (FanOutState::Waiting, FanOutAction::Receive)
        },
        _ => (FanOutState::Stopped, FanOutAction::Stop),
    }
}

/// The reader of a queue that feeds every aggregator of a set.
#[derive(Debug)]
pub struct FanOut {
    shards: usize,
    state: FanOutState,
}

impl FanOut {
    /// How many aggregators the queue feeds.
    pub closed spec fn shards(&self) -> usize {
        self.shards
    }

    /// What the reader is waiting for.
    pub closed spec fn state(&self) -> FanOutState {
        self.state
    }

    /// A reader for `shards` aggregators that waits for its first message.
    pub fn new(shards: usize) -> (r: Self)
        ensures
            r.shards() == shards,
            r.state() == FanOutState::Waiting,
    {
        FanOut { shards, state: FanOutState::Waiting }
    }

    /// Takes in what has happened and returns what to do next.
    pub fn step(&mut self, event: FanOutEvent) -> (action: FanOutAction)
        ensures
            final(self).shards() == old(self).shards(),
            (final(self).state(), action) == fan_out_step(
                old(self).shards(),
                old(self).state(),
                event,
            ),
    {
        let (state, action) = match (self.state, event) {
            (FanOutState::Waiting, FanOutEvent::Received) => if self.shards > 0 {
                (FanOutState::Sending { shard: 0 }, FanOutAction::Send { shard: 0 })
            } else {
                (FanOutState::Waiting, FanOutAction::Receive)
            },
            (FanOutState::Sending { shard }, FanOutEvent::Sent) => if shard < self.shards && shard
                + 1 < self.shards {
                (FanOutState::Sending { shard: shard + 1 }, FanOutAction::Send { shard: shard + 1 })
            } else {
                (FanOutState::Waiting, FanOutAction::Receive)
            },
            _ => (FanOutState::Stopped, FanOutAction::Stop),
        };
        self.state = state;
        action
    }
}

/// The state of a reader after `sent` aggregators in a row have taken the
/// current message.
pub open spec fn after_sends(shards: usize, state: FanOutState, sent: nat) -> FanOutState
    decreases sent,
{
    if sent == 0 {
        state
    } else {
        fan_out_step(shards, after_sends(shards, state, (sent - 1) as nat), FanOutEvent::Sent).0
    }
}

/// Every aggregator is passed every message, in the order of the
/// aggregators: once a message has come and `sent` aggregators have taken
/// it, the reader passes it on to aggregator `sent`, and after the last
/// aggregator it waits for the next message.
pub proof fn lemma_fan_out_reaches_all(shards: usize, sent: nat)
    requires
        shards >= 1,
        sent <= shards,
    ensures
        after_sends(
            shards,
            fan_out_step(shards, FanOutState::Waiting, FanOutEvent::Received).0,
            sent,
        ) == if sent < shards {
            FanOutState::Sending { shard: sent as usize }
        } else {
            FanOutState::Waiting
        },
        sent < shards ==> fan_out_step(
            shards,
            after_sends(
                shards,
                fan_out_step(shards, FanOutState::Waiting, FanOutEvent::Received).0,
                sent,
            ),
            FanOutEvent::Sent,
        ).1 == if sent + 1 < shards {
            FanOutAction::Send { shard: (sent + 1) as usize }
        } else {
            FanOutAction::Receive
        },
    decreases sent,
{
    if sent > 0 {
        lemma_fan_out_reaches_all(shards, (sent - 1) as nat);
    }
}

/// What a task that asks one aggregator for its views is waiting for.
#[derive(Clone, Copy, Debug, PartialEq, Eq, Structural)]
pub enum PollState {
    /// The start of a round.
    Idle,
    /// The answer to request `request` of the round that started at
    /// `started`.
    Awaiting { request: usize, started: u64 },
    /// The end of its sleep.
    Sleeping,
    /// Nothing any more.
    Exited,
}

/// What has happened to a polling task.
#[derive(Clone, Copy, Debug, PartialEq, Eq, Structural)]
pub enum PollEvent {
    /// A round starts at `now`, in ms.
    Tick { now: u64 },
    /// The aggregator has answered the request.
    Answered,
    /// The aggregator has failed to answer.
    Failed,
}

/// What a polling task does next.
#[derive(Clone, Copy, Debug, PartialEq, Eq, Structural)]
pub enum PollAction {
    /// Ask the aggregator for view `request` of the round.
    Request { request: usize },
    /// Put the answers of the round in the aggregator's places and sleep
    /// until `until`, in ms.
    PublishAndSleep { until: u64 },
    /// End, leaving the places as they are.
    Exit,
}

/// When the round that started at `started` is followed by the next one:
/// `SNAPSHOT_INTERVAL_MS` later, however long the round took.
pub open spec fn next_round(started: u64) -> u64 {
    if started + SNAPSHOT_INTERVAL_MS > u64::MAX {
        u64::MAX
    } else {
        (started + SNAPSHOT_INTERVAL_MS) as u64
    }
}

/// How a task that makes `requests` requests per round goes on: it asks
/// for one view after the other, publishes them only when all have come,
/// sleeps until the next round is due, and ends for good at the first
/// failure.
pub open spec fn poll_step(requests: usize, state: PollState, event: PollEvent) -> (
    PollState,
    PollAction,
) {
    match (state, event) {
        (PollState::Idle, PollEvent::Tick { now }) | (PollState::Sleeping, PollEvent::Tick { now }) => {
            if requests > 0 {
                (
                    PollState::Awaiting { request: 0, started: now },
                    PollAction::Request { request: 0 },
                )
            } else {
                (PollState::Sleeping, PollAction::PublishAndSleep { until: next_round(now) })
            }
        },
        (PollState::Awaiting { request, started }, PollEvent::Answered) => if request + 1
            < requests {
            (
                PollState::Awaiting { request: (request + 1) as usize, started },
                PollAction::Request { request: (request + 1) as usize },
            )
        } else {
            (PollState::Sleeping, PollAction::PublishAndSleep { until: next_round(started) })
        },
        _ => (PollState::Exited, PollAction::Exit),
    }
}

/// How many requests a round of the task for the overview, the block
/// history and the node list makes.
pub const OVERVIEW_REQUESTS: usize = 3;

/// How many requests a round of the task for the counters makes.
pub const METRICS_REQUESTS: usize = 1;

/// A task that asks one aggregator for its views, round after round.
#[derive(Debug)]
pub struct PollLoop {
    requests: usize,
    state: PollState,
}

impl PollLoop {
    /// How many requests a round makes.
    pub closed spec fn requests(&self) -> usize {
        self.requests
    }

    /// What the task is waiting for.
    pub closed spec fn state(&self) -> PollState {
        self.state
    }

    /// A task that makes `requests` requests per round and has not
    /// started its first round.
    pub fn new(requests: usize) -> (r: Self)
        ensures
            r.requests() == requests,
            r.state() == PollState::Idle,
    {
        PollLoop { requests, state: PollState::Idle }
    }

    /// Takes in what has happened and returns what to do next.
    pub fn step(&mut self, event: PollEvent) -> (action: PollAction)
        ensures
            final(self).requests() == old(self).requests(),
            (final(self).state(), action) == poll_step(
                old(self).requests(),
                old(self).state(),
                event,
            ),
    {
        let (state, action) = match (self.state, event) {
            (PollState::Idle, PollEvent::Tick { now }) | (
                PollState::Sleeping,
                PollEvent::Tick { now },
            ) => {
                if self.requests > 0 {
                    (
                        PollState::Awaiting { request: 0, started: now },
                        PollAction::Request { request: 0 },
                    )
                } else {
                    (
                        PollState::Sleeping,
                        PollAction::PublishAndSleep {
                            until: now.saturating_add(SNAPSHOT_INTERVAL_MS),
                        },
                    )
                }
            },
            (PollState::Awaiting { request, started }, PollEvent::Answered) => if request
                < self.requests && request + 1 < self.requests {
                (
                    PollState::Awaiting { request: request + 1, started },
                    PollAction::Request { request: request + 1 },
                )
            } else {
                (
                    PollState::Sleeping,
                    PollAction::PublishAndSleep {
                        until: started.saturating_add(SNAPSHOT_INTERVAL_MS),
                    },
                )
            },
            _ => (PollState::Exited, PollAction::Exit),
        };
        self.state = state;
        action
    }
}

} // verus!
