//! A Redis client library: RESP encoding and decoding, reply decoding,
//! connection-pool bookkeeping, transactions, pub/sub, scripting and
//! Sentinel support, with the protocol logic verified.

pub mod client;
pub mod commands;
pub mod duration;
pub mod error;
pub mod multi;
pub mod parser;
pub mod pipeline;
pub mod pool;
pub mod pubsub;
pub mod replies;
pub mod script;
pub mod sentinel;
pub mod strmap;
pub mod text;

pub use client::{ClientOptions, DEFAULT_ADDR};
pub use error::Error;
pub use parser::Value;
pub use pubsub::PubSubMessage;
pub use script::Script;
pub use sentinel::{FailoverOptions, DEFAULT_SENTINEL_ADDR};
