//! An in-memory cache that speaks the Redis Serialization Protocol (RESP).

pub mod buffers;
pub mod clock;
pub mod command;
pub mod entry;
pub mod eviction;
pub mod frame;
pub mod grammar;
pub mod laws;
pub mod locks;
pub mod map;
pub mod parse;
pub mod reply;
pub mod server;
pub mod shard;
pub mod store;
pub mod text;
pub mod wire;
