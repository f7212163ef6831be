//! An RTPS (Real-Time Publish-Subscribe) protocol engine: the wire-format
//! codec, the history caches, the per-remote proxy bookkeeping that drives
//! reliability, the endpoint behaviours and the participant discovery
//! payloads, with machine-checked contracts.

pub mod cache;
pub mod codec;
pub mod error;
pub mod messages;
pub mod reader_history_cache;
pub mod rtps_writer_impl;
pub mod seq_num_set;
pub mod spdp;
pub mod stateful_reader;
pub mod stateful_writer;
pub mod stateless_writer;
pub mod status;
pub mod submessage_elements;
pub mod time;
pub mod types;
