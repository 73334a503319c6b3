//! A small RESP (REdis Serialization Protocol) server core: a byte-level
//! frame codec, command parsing and dispatch, and an in-memory key-value
//! store, all with machine-checked contracts.

pub mod command;
pub mod errors;
pub mod frame;
pub mod handler;
pub mod storage;
pub mod text;
