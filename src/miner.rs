use vstd::prelude::*;
use crate::peers::ShardConfig;

verus! {

/// Control messages broadcast to the mining pipeline.
#[derive(Clone, Debug)]
pub enum MinerMessage {
    /// Enable or disable mining.
    ToggleMining(bool),
    /// Change the start of the mining range.
    SetStartPosition(Option<u64>),
    /// Change the end of the mining range.
    SetEndPosition(Option<u64>),
    /// Change the shard config.
    SetShardConfig(ShardConfig),
}

/// The mining service; the node's runtime starts its tasks.
pub struct MineService;

} // verus!
