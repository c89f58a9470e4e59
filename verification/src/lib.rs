//! Application-level orchestration for a federation of edge nodes: the
//! books of an application's requests, the texts of the federation's
//! messages, a node's part in the placement rounds and in the hand-off of a
//! request, and the controller of a sporadic server.
//!
//! The library decides and keeps books; it neither waits, nor talks to the
//! bus, the disk or the scheduler, nor computes with real numbers. Each
//! operation takes what it needs to know as arguments and tells the caller
//! what is to be done.
//!
//! Time is a count of nanoseconds (server scheduling) or milliseconds
//! (request deadlines) on a monotonic clock that the embedding program reads.
//! Real numbers are kept as the literals that denote them (`scalar`).

pub mod admm_solver;
pub mod ascii;
pub mod configuration_loader;
pub mod coordination;
pub mod host;
pub mod log_events;
pub mod monitoring;
pub mod scalar;
pub mod sporadic_server;
pub mod state;
pub mod text;
pub mod timing;
pub mod topics;
pub mod transfer;
pub mod wire;
pub mod workload;
