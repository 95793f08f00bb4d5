//! The server: its route table and the decisions it takes for each connection.
pub mod server;
