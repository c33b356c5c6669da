use vstd::prelude::*;

pub mod clock;
pub mod engine;
pub mod events;
pub mod midi;
pub mod mixer;
pub mod pattern;
pub mod playback;
pub mod playlist;
pub mod project;
pub mod ui;
pub mod voices;

verus! {

} // verus!
