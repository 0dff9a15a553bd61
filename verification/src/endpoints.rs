pub mod block_history;
pub mod node_list;
pub mod overview;
pub mod shared;

pub use block_history::BlockHistory;
pub use node_list::NodeList;
pub use overview::{
    ChainOverview, OverviewBlock, OverviewBlocks, OverviewFork, OverviewForkBlock, OverviewForks,
    OverviewImplementation, OverviewImplementations,
};
