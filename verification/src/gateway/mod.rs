//! The gateways: each carries messages between one transport and another.

pub mod exchange;
pub mod hub;
pub mod mux;
pub mod reply;
pub mod sse;
pub mod ws;
pub mod stateful_http;
pub mod sse_to_stdio;
pub mod http_to_stdio;
pub mod stateless_http;
