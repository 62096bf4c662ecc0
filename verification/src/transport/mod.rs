//! How the peer is reached.

pub mod server;
