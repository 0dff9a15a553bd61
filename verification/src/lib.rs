//! The stateful core of a telemetry service for blockchain networks.
//!
//! Nodes of many chains report their blocks and their health. This crate
//! keeps, per chain and per node, what they last reported: a window of the
//! newest block heights with every node's observation of every block, the
//! best and finalized block of each node, its throttle and its staleness.
//! From that state it builds the three views that endpoints serve: the
//! overview of a chain, its block history and its node list. A set of
//! aggregators shares the work: every aggregator is sent every message, and
//! feeds are handed to the aggregators in turn.
//!
//! Every function here is verified against its contract. The date and time
//! of an instant comes from chrono; that call alone is taken on trust.

pub mod aggregator;
pub mod byte_order;
pub mod decimal;
pub mod endpoints;
pub mod node_message;
pub mod node_types;
pub mod scan;
pub mod state;
