//! A gateway between Model Context Protocol transports: stdio, Server-Sent
//! Events, WebSocket and streamable HTTP.

pub mod child;
pub mod cli;
pub mod client;
pub mod codec;
pub mod cors;
pub mod error;
pub mod gateway;
pub mod h1;
pub mod health;
pub mod json;
pub mod jsonrpc;
pub mod members;
pub mod oauth2;
pub mod observe;
pub mod pairs;
pub mod serve;
pub mod session;
pub mod store;
pub mod system;
pub mod text;
