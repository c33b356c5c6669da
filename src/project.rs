use vstd::prelude::*;
use crate::pattern::Pattern;
use crate::playlist::Playlist;

verus! {

/// The song: its clock settings, its timeline and its patterns.
pub struct Project {
    /// Pulses (ticks) per quarter note.
    pub ppq: u16,
    /// Beats per minute.
    pub tempo: u16,
    pub playlist: Playlist,
    pub patterns: Vec<Pattern>,
}

} // verus!
