//! The in-host actor: the record of the open control channel and the rules
//! by which channel events are accepted, relayed or rejected.

pub mod connection;
pub mod python_types;
