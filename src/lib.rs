//! Per-peer admission control for inbound RPC requests (a GCRA rate limiter)
//! and the lifecycle table of known sync peers.

pub mod rate_limiter;
pub mod peers;
pub mod miner;
