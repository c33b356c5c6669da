use vstd::prelude::*;
use crate::ui::Position;

verus! {

/// The transport readout: bar, sixteenth and tick of the playback position.
pub struct Clock {
    pub pos: Position,
    pub bg_color: u32,
    pub color: u32,
    pub beat_color: u32,
    pub downbeat_color: u32,
    pub ticks: u32,
    pub ppq: u16,
    pub flash_on_beat: bool,
    pub playing: bool,
}

impl Clock {
    /// Bar (from 1, four beats a bar), sixteenth within the bar (from 1) and
    /// tick within the beat.
    pub fn readout(&self) -> (r: (u32, u32, u32))
        requires
            self.ppq >= 4,
        ensures
            r.0 == (self.ticks as int) / (self.ppq as int) / 4 + 1,
            r.1 == ((self.ticks as int) / ((self.ppq as int) / 4)) % 16 + 1,
            r.2 == (self.ticks as int) % (self.ppq as int),
    {
        let ppq = self.ppq as u32;
        let quarter = ppq / 4;
        (self.ticks / ppq / 4 + 1, (self.ticks / quarter) % 16 + 1, self.ticks % ppq)
    }
}

} // verus!
