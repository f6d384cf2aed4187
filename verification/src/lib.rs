//! A small Redis-style server core: the RESP wire format, an in-memory
//! key/value store with expiry, a worker pool and the command dispatcher.

pub mod decode;
pub mod digits;
pub mod encode;
pub mod pool;
pub mod rdb;
pub mod replication;
pub mod resp;
pub mod roundtrip;
pub mod server;
pub mod store;
pub mod text;

