//! Library logic of a radio playout station: the playlist state machine,
//! block generation, library health and scan rules, and configuration.

pub mod library;
pub mod persist;
pub mod playlist;
pub mod service;
pub mod text;
