//! The playlist: what is queued, what is on air, and how the two advance.

pub mod engine;
pub mod generate;
pub mod model;
