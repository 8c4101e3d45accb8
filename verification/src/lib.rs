//! A reorg-safe exchange pool core: per-pool token states driven by buy/sell
//! intents, with rollback and finalization across Bitcoin confirmation tiers.
#![allow(unused_imports)]
#![verifier::loop_isolation(false)]

pub mod codec;
pub mod coin;
pub mod blocks;
pub mod canvas;
pub mod errors;
pub mod exchange;
pub mod guard;
pub mod ledger;
pub mod pixel;
pub mod psbt;
pub mod registry;
pub mod search;
pub mod token_pool;
