//! Stratum V2 mining protocol: pool state, share accounting, job
//! distribution, TLV framing and the byte encodings the protocol uses.

pub mod encoding;
pub mod hash;
pub mod merge_mining;
pub mod merkle;
pub mod module_api;
pub mod message_types;
pub mod messages;
pub mod types;
pub mod error;
pub mod commands;
pub mod config;
pub mod consensus;
pub mod decimal;
pub mod pool;
pub mod pool_laws;
pub mod protocol;
pub mod server;
pub mod template;

pub use config::StratumConfig;
pub use error::StratumV2Error;
pub use module_api::{
    API_METHOD_GET_BLOCK_MERGE_MINING_REWARDS, API_METHOD_GET_MERGE_MINING_TEMPLATE,
    API_METHOD_REGISTER_MERGE_MINING_CHANNEL, API_METHOD_SUBMIT_MERGE_MINING_SHARE,
};
pub use pool::{StratumV2Pool, ShareData};
pub use server::{PoolStats, StratumV2Server};
