//! The command engine of a small in-memory key-value store that speaks the
//! RESP wire protocol: value model, request parsing, and the keyspace
//! state machine, each with its contract.

pub mod command;
pub mod keyspace;
pub mod laws;
pub mod seconds;
pub mod strmap;
pub mod text;
pub mod value;
pub mod wire;
