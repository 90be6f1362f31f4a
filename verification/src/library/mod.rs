//! The music library: its records, the rules that compare them with the disk,
//! and the background passes that maintain them.
pub mod auto_cue;
pub mod check;
pub mod health;
pub mod db;
pub mod fingerprint;
pub mod listing;
pub mod paths;
pub mod reconcile;
pub mod retag;
pub mod scan_state;
pub mod scanner;
pub mod tag_backfill;
pub mod tag_write;
pub mod waveform_scan;
