//! The concrete backend for a Rust actix-web server target.

pub mod server;
