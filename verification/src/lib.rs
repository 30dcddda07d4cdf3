//! A small in-memory key-value engine that speaks a subset of the RESP wire
//! format: a request decoder, a command model, a store with lazy expiry and
//! the engine that runs a command against the store.

pub mod clock;
pub mod cmd;
pub mod connection;
pub mod decimal;
pub mod engine;
pub mod error;
pub mod frame;
pub mod reply;
pub mod request;
pub mod store;
