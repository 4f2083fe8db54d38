//! Request/response engine of an ONVIF device client: payload construction,
//! the authentication digest, the datagram retry policy and the assembly of
//! streamed replies, with machine-checked contracts.

pub mod error;
pub mod digest;
pub mod timestamp;
pub mod template;
pub mod endpoint;
pub mod datagram;
pub mod connection;
pub mod client;
pub mod namespaces;
