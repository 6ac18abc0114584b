//! Block-level repair and integrity scrubbing for a content-addressed block
//! store: a capacity-weighted, resumable walk over the on-disk block tree, a
//! one-shot repair task feeding a resync queue, a command-driven continuous
//! scrub task with a persisted, versioned record, and a rate limiter.
pub mod codec;
pub mod hexutil;
pub mod walker;
pub mod repair;
pub mod rng;
pub mod scrub;
pub mod textnum;
pub mod tranquilizer;
pub mod worker;
