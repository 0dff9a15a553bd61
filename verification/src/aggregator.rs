pub mod aggregator_set;
pub mod inner_loop;

pub use aggregator_set::AggregatorSet;
pub use inner_loop::AggregatorShard;
