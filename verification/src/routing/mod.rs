//! Route tables: registration, matching and resolution.
pub mod builder;
pub mod route;
pub mod router;
