//! Persistent storage for per-block tweak data: a checksummed record codec,
//! a height/hash index over an embedded ordered key-value store, and the
//! bookkeeping of a segmented flat-file store.

pub mod int_bytes;
pub mod errors;
pub mod checksum;
pub mod kv;
pub mod block_data;
pub mod block_index;
pub mod flat_file_store;
pub mod network;
