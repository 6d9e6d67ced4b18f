//! A local secret store daemon core: an in-memory secret cache kept
//! consistent with a durable store, a line-oriented request/response
//! protocol, and the lifecycle rules for a single background instance.

pub mod cache;
pub mod client;
pub mod codec;
pub mod daemon;
pub mod error;
pub mod export;
pub mod protocol;
