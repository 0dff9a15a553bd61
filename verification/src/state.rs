pub mod blocks;
pub mod chain;
pub mod chain_overview;
pub mod node;

pub use node::UniqueNodeIdentity;
pub use chain::Chain;
pub use node::Node;
