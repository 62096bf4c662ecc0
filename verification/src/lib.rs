//! One-way file synchronisation over a framed streaming protocol: the wire
//! codec, the generator / sender / receiver decisions, path confinement and
//! the delta engine, each with a machine-checked contract.

pub mod bisync;
pub mod buffer;
pub mod delta;
pub mod server;
pub mod wire;
pub mod streaming;
pub mod sync;
pub mod transport;
