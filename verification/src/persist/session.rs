//! The persisted playlist entries of the session file.

use vstd::prelude::*;

use crate::playlist::model::CuePoints;

verus! {

/// One persisted playlist entry: a track by id, or a stop marker.
#[derive(Clone, Copy, Debug, PartialEq, Eq, Structural)]
pub enum SessionPlaylistItem {
    Track { id: i64, cue_override: Option<CuePoints> },
    Stop,
}


/// A session file without the switch resumes with auto-advance on.
pub fn default_auto_advance() -> (b: bool)
    ensures
        b,
{
    true
}

} // verus!
