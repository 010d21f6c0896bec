//! A minimal in-memory key-value server core speaking a Redis-compatible
//! wire protocol, with single-leader replication.
//!
//! The library holds the verified logic: the wire codec that frames byte
//! streams into commands and serializes replies, the expiring keyspace
//! store, the command table, and the replication state machines. Socket
//! handling, threads and command-line parsing live outside, in the
//! application around this crate.

pub mod codec;
pub mod command;
pub mod connection;
pub mod replication;
pub mod role;
pub mod store;
pub mod text;
