//! A small Redis-compatible server library: the RESP request parser, the
//! key-value store with string and list values and key expiry, the command
//! executor, the response serializer, the active expiry cleanup and a radix
//! tree for stream ids.

pub mod decimal;
pub mod text;
pub mod redis_error;
pub mod parser;
pub mod data_store;
pub mod executor;
pub mod resp_serializer;
pub mod key_recycler;
pub mod connection;
pub mod streams;
pub mod laws;
pub mod cleanup_laws;
pub mod list_laws;
pub mod server_laws;
pub mod stream_laws;
