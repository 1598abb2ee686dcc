//! A verified core for a HotStuff-style consensus node whose signatures are
//! zero-knowledge proofs over the Goldilocks field.
pub mod field;
pub mod codec;
pub mod crypto;
pub mod text;
pub mod consensus;
pub mod node_ws;
pub mod gateway;
pub mod mempool;
pub mod circuit;
pub mod node_config;
