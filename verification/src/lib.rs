//! Core of a multi-chain relayer: an incremental Merkle tree of commitment
//! leaves per contract, a persistent store of leaves and progress cursors,
//! an event-watcher state machine, and per-chain FIFO transaction queues.

pub mod bytes;
pub mod error;
pub mod event;
pub mod field;
pub mod handler;
pub mod merkle;
pub mod queue;
pub mod routes;
pub mod service;
pub mod store;
pub mod watcher;
