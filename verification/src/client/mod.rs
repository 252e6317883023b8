//! The client side: talking to remote servers.

pub mod http;
pub mod sse;
