//! What ties the bridge to an HTTP server.

pub mod http;
pub mod route;
