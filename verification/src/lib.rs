//! The coordination core of a cluster-local, in-memory data-frame engine.
//!
//! Every module holds the decisions of one component as functions from a
//! state and an event to the next state and the frames to send. Sockets,
//! tasks and timers live with the caller.

pub mod error;
pub mod network;
pub mod kv;
pub mod application;
pub mod dataframe;
