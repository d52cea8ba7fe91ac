//! The network layer.

pub mod rpc_error;
