//! What the station keeps between runs: configuration and the session.

pub mod config;
pub mod session;
