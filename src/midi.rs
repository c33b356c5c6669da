use vstd::prelude::*;
use crate::events::Event;

verus! {

pub const NOTE_OFF: u8 = 0x80;

pub const NOTE_ON: u8 = 0x90;

pub const CONTROL_CHANGE: u8 = 0xB0;

pub const PITCH_BEND: u8 = 0xE0;

/// Controller number of channel volume.
pub const VOLUME_CONTROLLER: u8 = 7;

/// The MIDI channel that voice `id` plays on: with MPE each voice has a
/// channel of its own; the id is taken modulo 256 before it is merged into
/// the status byte, as a byte.
pub open spec fn voice_channel(id: usize) -> u8 {
    (id % 256) as u8
}

/// Pitch-bend amount sent for a target pitch of `cents`: whole semitones,
/// clamped to 0..=65535.
pub open spec fn bend_semitones(cents: i32) -> u16 {
    if cents <= 0 {
        0
    } else if cents / 100 > 0xffff {
        0xffff
    } else {
        (cents / 100) as u16
    }
}

/// The three bytes sent for `event` when every voice has its own channel
/// (MPE), or none for events that have no such message.
pub open spec fn mpe_bytes(event: Event) -> Option<(u8, u8, u8)> {
    match event {
        Event::NoteOff { id, key, vel } => Some((NOTE_OFF | voice_channel(id), key, vel)),
        Event::NoteOn { id, key, vel } => Some((NOTE_ON | voice_channel(id), key, vel)),
        Event::ControlChange { .. } => None,
        Event::ExprPitch { id, target_pitch } => {
            let u14 = ((bend_semitones(target_pitch) << 2u16) & 0x3FFFu16) as u16;
            Some((PITCH_BEND | voice_channel(id), (u14 >> 7u16) as u8, (u14 & 0x7Fu16) as u8))
        },
        Event::ExprVolume { id, target_vol } => Some((CONTROL_CHANGE | voice_channel(id), VOLUME_CONTROLLER, target_vol)),
    }
}

fn channel_of(id: usize) -> (c: u8)
    ensures
        c == voice_channel(id),
{
    (id % 256) as u8
}

fn bend_of(cents: i32) -> (b: u16)
    ensures
        b == bend_semitones(cents),
{
    if cents <= 0 {
        0
    } else if cents / 100 > 0xffff {
        0xffff
    } else {
        (cents / 100) as u16
    }
}

/// The MIDI message for `event`. Only MPE output is supported: without it,
/// and for control changes (whose channel is not known), there is none.
pub fn midi_message(event: &Event, mpe: bool) -> (r: Option<(u8, u8, u8)>)
    ensures
        mpe ==> r == mpe_bytes(*event),
        !mpe ==> r is None,
{
    if !mpe {
        return None;
    }
    match *event {
        Event::NoteOff { id, key, vel } => Some((NOTE_OFF | channel_of(id), key, vel)),
        Event::NoteOn { id, key, vel } => Some((NOTE_ON | channel_of(id), key, vel)),
        Event::ControlChange { .. } => None,
        Event::ExprPitch { id, target_pitch } => {
            let u14: u16 = (bend_of(target_pitch) << 2u16) & 0x3FFFu16;
            Some((PITCH_BEND | channel_of(id), (u14 >> 7u16) as u8, (u14 & 0x7Fu16) as u8))
        },
        Event::ExprVolume { id, target_vol } => Some((CONTROL_CHANGE | channel_of(id), VOLUME_CONTROLLER, target_vol)),
    }
}

} // verus!
