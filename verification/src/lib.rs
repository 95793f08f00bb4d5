//! A small HTTP server library: request parsing, route registration and route resolution.
pub mod http;
pub mod routing;
pub mod server;
pub mod strmap;
pub mod text;
pub mod utils;
pub mod laws;
