use vstd::prelude::*;

verus! {

/// A parameter that a plugin exposes.
pub struct Parameter {
    pub index: usize,
    pub name: String,
    /// Current value; MIDI caps it at 127.
    pub value: u8,
    pub min: u8,
    pub max: u8,
}

/// What a module is asked to do.
#[derive(Clone, Copy, PartialEq, Eq, Structural, Debug)]
pub enum Event {
    NoteOff { id: usize, key: u8, vel: u8 },
    NoteOn { id: usize, key: u8, vel: u8 },
    ControlChange { index: u8, value: u8 },
    /// Target pitch in cents (hundredths of a semitone), relative to the
    /// playing note.
    ExprPitch { id: usize, target_pitch: i32 },
    /// Target volume, 0..=127.
    ExprVolume { id: usize, target_vol: u8 },
}

/// An event addressed to a module, at a sample offset inside the current
/// buffer.
#[derive(Clone, Copy, PartialEq, Eq, Structural, Debug)]
pub struct TimedEvent {
    pub module_index: usize,
    pub position: u32,
    pub event: Event,
}

/// One voice slot.
#[derive(Clone, Copy, PartialEq, Eq, Structural, Debug)]
pub struct NoteState {
    pub id: usize,
    pub instrument: usize,
    pub key: u8,
    pub vel: u8,
    /// Pitch bend in cents, relative to `key`.
    pub pitch_bend: i32,
    pub is_on: bool,
}

/// Why a plugin could not be made.
#[derive(Clone, Debug)]
pub enum PluginError {
    /// No built-in plugin has that name.
    NoSuchPlugin,
    /// An external plugin could not be loaded.
    LoadError(String),
    /// The plugin loaded but did not initialise.
    InitError(String),
}

} // verus!
