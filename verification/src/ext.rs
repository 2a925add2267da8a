//! The worker: the binary envelope of requests and responses, the transport
//! frame around it, and what the worker decides between reading a frame and
//! writing its result.

pub mod arrays;
pub mod codec;
pub mod control;
pub mod decimal;
pub mod dispatch;
pub mod executor;
pub mod frame;
pub mod msgpack;
pub mod native;
pub mod paths;
pub mod python_types;
pub mod requirements;
pub mod sandbox;
pub mod tagged;
pub mod text;
