//! Execution bridge between an actor-style host node and an out-of-process
//! Python worker.
//!
//! `host` holds what the in-host actor decides about its one control channel;
//! `ext` holds the worker's side: the binary message envelope, the transport
//! frame around it, package paths, the requirements pass, and the decisions of
//! the dispatcher and of the control loop.

pub mod host;
pub mod ext;
