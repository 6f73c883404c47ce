//! The framed transport, the coordinator and the peer mesh.

pub mod message;
pub mod codec;
pub mod server;
pub mod client;
