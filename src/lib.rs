//! JSON-RPC 2.0 over a length-prefixed byte stream: frame codec, message
//! encoding, waiter table, request dispatch and reply assembly.

pub mod client;
pub mod codec;
pub mod errors;
pub mod json;
pub mod message;
pub mod protocol;
pub mod server;
pub mod service;
pub mod transport;
pub mod wire;

pub use errors::{Error, ErrorKind};
pub use json::Json;
