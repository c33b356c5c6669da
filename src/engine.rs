use vstd::prelude::*;
use crate::clock::{tick_length_samples, tick_samples};
use crate::events::{Event, NoteState, TimedEvent};
use crate::pattern::{Note, Pattern, TrackEvent};
use crate::playlist::{Clip, PatternClip, Playlist};
use crate::project::Project;
use crate::playback::{
    advance, lemma_release_prefix_clears, lemma_resolve_prefix_extends, release_prefix, release_track, stamped_after,
    resolve_cell, resolve_prefix, resolve_row, row_played, PatternState, Playhead, PlaylistState, Resolver,
    bindings_sound, holds, spares_others, lemma_resolve_prefix_sound, lemma_release_prefix_sound,
};
use crate::voices::{VoicePool, VOICE_POOL_SIZE};

verus! {

/// Everything that changes while the engine plays.
pub struct State {
    /// Transport: false pauses everything.
    pub playing: bool,
    pub playlist: PlaylistState,
    /// One playback state per pattern of the project.
    pub patterns: Vec<PatternState>,
    /// Events of the current buffer, in the order they were emitted.
    pub event_list: Vec<TimedEvent>,
    pub notes: VoicePool,
    /// The slot the next note asks for first.
    pub next_note_id: usize,
    /// Cells skipped because they ask for something not supported yet.
    pub unsupported: u64,
    /// Notes refused because every voice was busy.
    pub dropped: u64,
}

impl State {
    /// What resolving a row of pattern `index` reads and writes.
    pub open spec fn row_view(&self, index: int) -> Resolver {
        Resolver {
            voices: self.notes.notes@,
            bindings: self.patterns@[index].note_ids@,
            last: self.patterns@[index].last_instruments@,
            next_id: self.next_note_id,
            events: self.event_list@,
            unsupported: self.unsupported,
            dropped: self.dropped,
        }
    }

    /// `self` agrees with `old` on everything that resolving rows of pattern
    /// `index` leaves alone.
    pub open spec fn keeps(&self, old: &State, index: int) -> bool {
        &&& self.frame(old, index)
        &&& self.patterns@[index].playhead() == old.patterns@[index].playhead()
    }

    /// Like `keeps`, but the playhead of pattern `index` may move too.
    pub open spec fn frame(&self, old: &State, index: int) -> bool {
        &&& self.playing == old.playing
        &&& self.playlist == old.playlist
        &&& self.patterns@.len() == old.patterns@.len()
        &&& forall|j: int| 0 <= j < old.patterns@.len() && j != index ==> self.patterns@[j] == old.patterns@[j]
        &&& self.patterns@[index].row_length == old.patterns@[index].row_length
        &&& self.patterns@[index].note_ids@.len() == old.patterns@[index].note_ids@.len()
        &&& self.patterns@[index].last_instruments@.len() == old.patterns@[index].last_instruments@.len()
        &&& self.notes.notes@.len() == old.notes.notes@.len()
    }

    /// Releases the voice that `track` of pattern `index` holds.
    fn release_track_voice(&mut self, index: usize, track: usize, at: u32)
        requires
            index < old(self).patterns@.len(),
            track < old(self).patterns@[index as int].note_ids@.len(),
        ensures
            final(self).row_view(index as int) == release_track(old(self).row_view(index as int), track as int, at),
            final(self).keeps(old(self), index as int),
    {
        if let Some(id) = self.patterns[index].note_ids[track] {
            if id < self.notes.notes.len() && self.notes.notes[id].is_on {
                let v = self.notes.notes[id];
                self.event_list.push(
                    TimedEvent { module_index: v.instrument, position: at, event: Event::NoteOff { id, key: v.key, vel: v.vel } },
                );
                self.notes.free(id);
            }
            self.patterns[index].note_ids[track] = None;
        }
    }

    /// Applies one cell on `track` of pattern `index`.
    fn apply_cell(&mut self, index: usize, track: usize, cell: TrackEvent, at: u32)
        requires
            index < old(self).patterns@.len(),
            track < old(self).patterns@[index as int].note_ids@.len(),
            old(self).patterns@[index as int].note_ids@.len() == old(self).patterns@[index as int].last_instruments@.len(),
        ensures
            final(self).row_view(index as int) == resolve_cell(old(self).row_view(index as int), track as int, cell, at),
            final(self).keeps(old(self), index as int),
    {
        match cell.note {
            Note::Empty => {},
            Note::PreviousTrack => {
                if self.unsupported < u64::MAX {
                    self.unsupported = self.unsupported + 1;
                }
            },
            Note::Off | Note::Cut | Note::Fade => {
                self.release_track_voice(index, track, at);
            },
            Note::Key(key) => {
                let inst: u8 = if cell.instrument == 0 {
                    self.patterns[index].last_instruments[track]
                } else {
                    cell.instrument - 1
                };
                let vel: u8 = if cell.volume > 127 {
                    127
                } else {
                    cell.volume
                };
                let ghost r0 = old(self).row_view(index as int);
                assert(inst == crate::playback::resolved_instrument(r0, track as int, cell));
                self.release_track_voice(index, track, at);
                self.patterns[index].last_instruments[track] = inst;
                let ghost s = Resolver { last: release_track(r0, track as int, at).last.update(track as int, inst), ..release_track(r0, track as int, at) };
                assert(self.row_view(index as int) == s);
                let cap = self.notes.notes.len();
                let desired = self.next_note_id;
                match self.notes.allocate(desired, key, vel, inst as usize) {
                    Ok(id) => {
                        assert(id < cap);
                        self.patterns[index].note_ids[track] = Some(id);
                        self.next_note_id = id + 1;
                        self.event_list.push(
                            TimedEvent { module_index: inst as usize, position: at, event: Event::NoteOn { id, key, vel } },
                        );
                    },
                    Err(_) => {
                        if self.dropped < u64::MAX {
                            self.dropped = self.dropped + 1;
                        }
                    },
                }
            },
        }
    }

    /// Resolves one row of pattern `index`, cell by cell in track order;
    /// every event is stamped with sample offset `at`.
    pub fn play_row(&mut self, index: usize, cells: &Vec<TrackEvent>, at: u32)
        requires
            index < old(self).patterns@.len(),
            old(self).patterns@[index as int].note_ids@.len() == cells@.len(),
            old(self).patterns@[index as int].last_instruments@.len() == cells@.len(),
        ensures
            final(self).row_view(index as int) == resolve_row(cells@, old(self).row_view(index as int), at),
            final(self).keeps(old(self), index as int),
    {
        let mut t: usize = 0;
        while t < cells.len()
            invariant
                t <= cells@.len(),
                index < self.patterns@.len(),
                self.patterns@[index as int].note_ids@.len() == cells@.len(),
                self.patterns@[index as int].last_instruments@.len() == cells@.len(),
                self.row_view(index as int) == resolve_prefix(cells@, t as nat, old(self).row_view(index as int), at),
                self.keeps(old(self), index as int),
            decreases cells@.len() - t,
        {
            self.apply_cell(index, t, cells[t], at);
            t = t + 1;
        }
    }

    /// Releases every voice that pattern `index` holds, stamped at `at`.
    pub fn release_all(&mut self, index: usize, at: u32)
        requires
            index < old(self).patterns@.len(),
        ensures
            final(self).row_view(index as int) == release_prefix(
                old(self).row_view(index as int),
                old(self).patterns@[index as int].note_ids@.len(),
                at,
            ),
            final(self).keeps(old(self), index as int),
    {
        let n = self.patterns[index].note_ids.len();
        let mut t: usize = 0;
        while t < n
            invariant
                t <= n,
                index < self.patterns@.len(),
                n == old(self).patterns@[index as int].note_ids@.len(),
                self.row_view(index as int) == release_prefix(old(self).row_view(index as int), t as nat, at),
                self.keeps(old(self), index as int),
            decreases n - t,
        {
            self.release_track_voice(index, t, at);
            t = t + 1;
        }
    }
}

/// Pulses per quarter note of a new project.
pub const DEFAULT_PPQ: u16 = 96;

/// Tempo of a new project, in beats per minute.
pub const DEFAULT_TEMPO: u16 = 125;

/// A pattern's playhead after playback resumes at its current position:
/// row and ticks are sought again from the position.
pub open spec fn resumed(p: Playhead, row_length: int) -> Playhead {
    if p.playing {
        p
    } else {
        Playhead { playing: true, position: p.position, row: p.position / row_length, ticks_passed: p.position % row_length }
    }
}

/// The sample counter after one more sample: it wraps to 0 once it reaches
/// the tick length.
pub open spec fn next_sample_count(samples_passed: int, tick_length: int) -> int {
    if samples_passed + 1 >= tick_length {
        0
    } else {
        samples_passed + 1
    }
}

/// The sample counter after `n` more samples.
pub open spec fn sample_count_after(samples_passed: int, tick_length: int, n: nat) -> int
    decreases n,
{
    if n == 0 {
        samples_passed
    } else {
        next_sample_count(sample_count_after(samples_passed, tick_length, (n - 1) as nat), tick_length)
    }
}

/// What playback changes in the engine, as mathematical values.
pub struct EngineView {
    /// Playhead of each pattern.
    pub heads: Seq<Playhead>,
    /// Voice held by each track of each pattern.
    pub bindings: Seq<Seq<Option<usize>>>,
    /// Last instrument of each track of each pattern.
    pub last: Seq<Seq<u8>>,
    pub voices: Seq<NoteState>,
    pub next_id: usize,
    pub events: Seq<TimedEvent>,
    pub unsupported: u64,
    pub dropped: u64,
    pub playlist_position: u32,
    pub samples_passed: u32,
}

/// What resolving a row of pattern `i` reads and writes.
pub open spec fn view_resolver(v: EngineView, i: int) -> Resolver {
    Resolver {
        voices: v.voices,
        bindings: v.bindings[i],
        last: v.last[i],
        next_id: v.next_id,
        events: v.events,
        unsupported: v.unsupported,
        dropped: v.dropped,
    }
}

/// `v` after row resolution of pattern `i` ended in `r`.
pub open spec fn with_resolver(v: EngineView, i: int, r: Resolver) -> EngineView {
    EngineView {
        voices: r.voices,
        bindings: v.bindings.update(i, r.bindings),
        last: v.last.update(i, r.last),
        next_id: r.next_id,
        events: r.events,
        unsupported: r.unsupported,
        dropped: r.dropped,
        ..v
    }
}

/// One tick of pattern `i` of engine `e` (whose patterns and row lengths are
/// used) from `v`: the row that the tick starts, if any, is resolved, and the
/// playhead advances.
pub open spec fn tick_pattern(e: DAWEngine, v: EngineView, i: int, at: u32) -> EngineView {
    let p = v.heads[i];
    let l = e.row_length_of(i);
    let rows = e.rows_of(i);
    let w = match row_played(p, l, rows) {
        Some(row) => with_resolver(v, i, resolve_row(e.project.patterns@[i].rows@[row]@, view_resolver(v, i), at)),
        None => v,
    };
    EngineView { heads: w.heads.update(i, advance(p, l, rows, e.loop_patterns)), ..w }
}

/// Ticks of patterns `0..n`, in that order.
pub open spec fn tick_patterns(e: DAWEngine, v: EngineView, n: nat, at: u32) -> EngineView
    decreases n,
{
    if n == 0 {
        v
    } else {
        tick_pattern(e, tick_patterns(e, v, (n - 1) as nat, at), n - 1, at)
    }
}

/// A position counter that stops at its largest value.
pub open spec fn bump_position(p: u32) -> u32 {
    if p < u32::MAX {
        (p + 1) as u32
    } else {
        p
    }
}

/// One output sample at offset `at` of engine `e` (whose transport, mode,
/// tick length, patterns and row lengths are used) from `v`.
pub open spec fn engine_tick(e: DAWEngine, v: EngineView, at: u32) -> EngineView {
    if !e.state.playing {
        v
    } else {
        let w = if v.samples_passed != 0 {
            v
        } else if e.song_mode {
            tick_patterns(e, EngineView { playlist_position: bump_position(v.playlist_position), ..v }, v.heads.len(), at)
        } else if e.current_pattern < v.heads.len() {
            let c = e.current_pattern as int;
            tick_pattern(e, EngineView { heads: v.heads.update(c, resumed(v.heads[c], e.row_length_of(c))), ..v }, c, at)
        } else {
            v
        };
        EngineView { samples_passed: next_sample_count(v.samples_passed as int, e.tick_length as int) as u32, ..w }
    }
}

/// `n` output samples, at offsets `0..n`.
pub open spec fn engine_run(e: DAWEngine, v: EngineView, n: nat) -> EngineView
    decreases n,
{
    if n == 0 {
        v
    } else {
        engine_tick(e, engine_run(e, v, (n - 1) as nat), (n - 1) as u32)
    }
}

/// Pattern `i` stopped: every voice it holds is released (NoteOffs at the
/// start of the buffer) and its playhead stops where it is.
pub open spec fn stop_pattern(v: EngineView, i: int) -> EngineView {
    let w = with_resolver(v, i, release_prefix(view_resolver(v, i), v.bindings[i].len(), 0));
    EngineView { heads: w.heads.update(i, Playhead { playing: false, ..v.heads[i] }), ..w }
}

/// Patterns `0..n` stopped, in that order.
pub open spec fn stop_patterns(v: EngineView, n: nat) -> EngineView
    decreases n,
{
    if n == 0 {
        v
    } else {
        stop_pattern(stop_patterns(v, (n - 1) as nat), n - 1)
    }
}

/// Ticking depends on an engine only through its static setup.
proof fn lemma_tick_patterns_static(e1: DAWEngine, e2: DAWEngine, v: EngineView, n: nat, at: u32)
    requires
        e1.same_static(&e2),
        n <= e2.state.patterns@.len(),
    ensures
        tick_patterns(e1, v, n, at) == tick_patterns(e2, v, n, at),
    decreases n,
{
    if n > 0 {
        lemma_tick_patterns_static(e1, e2, v, (n - 1) as nat, at);
        assert(e1.row_length_of(n - 1) == e2.row_length_of(n - 1));
    }
}

proof fn lemma_engine_tick_static(e1: DAWEngine, e2: DAWEngine, v: EngineView, at: u32)
    requires
        e1.same_static(&e2),
        v.heads.len() == e2.state.patterns@.len(),
    ensures
        engine_tick(e1, v, at) == engine_tick(e2, v, at),
{
    lemma_tick_patterns_static(e1, e2, EngineView { playlist_position: bump_position(v.playlist_position), ..v }, v.heads.len(), at);
    if e2.current_pattern < v.heads.len() {
        assert(e1.row_length_of(e2.current_pattern as int) == e2.row_length_of(e2.current_pattern as int));
    }
}

/// The sequencer: the project, the clock and the playback state.
pub struct DAWEngine {
    /// Samples per tick.
    pub tick_length: u32,
    pub samplerate: u32,
    pub channels: u8,
    /// Frames per output buffer.
    pub sample_size: u32,
    /// Samples since the last tick.
    pub samples_passed: u32,
    /// Play the whole song (true) or the current pattern (false).
    pub song_mode: bool,
    /// What a pattern does at its end: start over (true) or stop (false).
    pub loop_patterns: bool,
    pub current_pattern: usize,
    pub project: Project,
    pub state: State,
}

impl DAWEngine {
    /// Pattern `i` and its playback state fit together.
    pub open spec fn pattern_ok(&self, i: int) -> bool {
        let p = self.project.patterns@[i];
        let s = self.state.patterns@[i];
        &&& p.wf()
        &&& s.wf()
        &&& s.tracks() == p.tracks()
        &&& s.row_length == (self.project.ppq as int) / (p.rpb as int)
        &&& p.rows@.len() * s.row_length <= u32::MAX
    }

    pub open spec fn wf(&self) -> bool {
        &&& self.project.patterns@.len() == self.state.patterns@.len()
        &&& forall|i: int| 0 <= i < self.state.patterns@.len() ==> #[trigger] self.pattern_ok(i)
        &&& self.samples_passed < u32::MAX
        &&& self.voices_ok()
    }

    /// Every voice a track holds sounds, and no voice is held by two tracks,
    /// of one pattern or of two.
    pub open spec fn voices_ok(&self) -> bool {
        &&& self.state.notes.notes@.len() <= usize::MAX
        &&& forall|i: int| 0 <= i < self.state.patterns@.len() ==> bindings_sound(#[trigger] self.state.row_view(i))
        &&& forall|i: int, j: int, v: usize|
            #![trigger holds(self.state.patterns@[i].note_ids@, v), holds(self.state.patterns@[j].note_ids@, v)]
            0 <= i < self.state.patterns@.len() && 0 <= j < self.state.patterns@.len() && i != j
                && holds(self.state.patterns@[i].note_ids@, v) ==> !holds(self.state.patterns@[j].note_ids@, v)
    }

    /// Playback state with the same voices and the same bindings keeps them
    /// sound.
    proof fn lemma_voices_ok_same(old_e: &DAWEngine, new_e: &DAWEngine)
        requires
            old_e.voices_ok(),
            new_e.state.notes.notes@ == old_e.state.notes.notes@,
            new_e.state.patterns@.len() == old_e.state.patterns@.len(),
            forall|i: int| 0 <= i < old_e.state.patterns@.len() ==> #[trigger] new_e.state.patterns@[i].note_ids@ == old_e.state.patterns@[i].note_ids@,
        ensures
            new_e.voices_ok(),
    {
        let n = old_e.state.patterns@.len();
        assert forall|i: int| 0 <= i < n implies bindings_sound(#[trigger] new_e.state.row_view(i)) by {
            assert(bindings_sound(old_e.state.row_view(i)));
            assert(new_e.state.patterns@[i].note_ids@ == old_e.state.patterns@[i].note_ids@);
        }
        assert forall|i: int, j: int, v: usize|
            0 <= i < n && 0 <= j < n && i != j && holds(new_e.state.patterns@[i].note_ids@, v) implies !holds(
            new_e.state.patterns@[j].note_ids@,
            v,
        ) by {
            assert(new_e.state.patterns@[i].note_ids@ == old_e.state.patterns@[i].note_ids@);
            assert(new_e.state.patterns@[j].note_ids@ == old_e.state.patterns@[j].note_ids@);
        }
    }

    /// After the voices and bindings of pattern `index` changed soundly and
    /// sparing the voices of the others, the whole engine's voices are sound.
    proof fn lemma_voices_ok_after(old_e: &DAWEngine, new_e: &DAWEngine, index: int)
        requires
            old_e.voices_ok(),
            0 <= index < old_e.state.patterns@.len(),
            new_e.state.frame(&old_e.state, index),
            bindings_sound(new_e.state.row_view(index)),
            spares_others(old_e.state.row_view(index), new_e.state.row_view(index)),
        ensures
            new_e.voices_ok(),
    {
        let n = old_e.state.patterns@.len();
        let ro = old_e.state.row_view(index);
        let rn = new_e.state.row_view(index);
        assert forall|i: int| 0 <= i < n implies bindings_sound(#[trigger] new_e.state.row_view(i)) by {
            if i != index {
                let b = new_e.state.patterns@[i].note_ids@;
                assert(b == old_e.state.patterns@[i].note_ids@);
                assert(bindings_sound(old_e.state.row_view(i)));
                assert forall|t: int| 0 <= t < b.len() && (#[trigger] b[t]) is Some implies b[t]->0 < new_e.state.notes.notes@.len()
                    && new_e.state.notes.notes@[b[t]->0 as int].is_on by {
                    let v = b[t]->0;
                    assert(old_e.state.row_view(i).bindings[t] is Some);
                    assert(holds(old_e.state.patterns@[i].note_ids@, v));
                    assert(!holds(old_e.state.patterns@[index].note_ids@, v));
                    assert(rn.voices[v as int] == ro.voices[v as int]);
                }
            }
        }
        assert forall|i: int, j: int, v: usize|
            0 <= i < n && 0 <= j < n && i != j && holds(new_e.state.patterns@[i].note_ids@, v) implies !holds(
            new_e.state.patterns@[j].note_ids@,
            v,
        ) by {
            if i != index && j != index {
                assert(new_e.state.patterns@[i] == old_e.state.patterns@[i]);
                assert(new_e.state.patterns@[j] == old_e.state.patterns@[j]);
            } else {
                let k = if i == index { j } else { i };
                assert(new_e.state.patterns@[k] == old_e.state.patterns@[k]);
                if holds(old_e.state.patterns@[k].note_ids@, v) {
                    let t = choose|t: int| 0 <= t < old_e.state.patterns@[k].note_ids@.len() && old_e.state.patterns@[k].note_ids@[t] == Some(v);
                    assert(bindings_sound(old_e.state.row_view(k)));
                    assert(old_e.state.row_view(k).bindings[t] is Some);
                    assert(!holds(old_e.state.patterns@[index].note_ids@, v));
                    assert(!holds(rn.bindings, v));
                }
            }
        }
    }

    pub open spec fn view(&self) -> EngineView {
        EngineView {
            heads: Seq::new(self.state.patterns@.len(), |i: int| self.state.patterns@[i].playhead()),
            bindings: Seq::new(self.state.patterns@.len(), |i: int| self.state.patterns@[i].note_ids@),
            last: Seq::new(self.state.patterns@.len(), |i: int| self.state.patterns@[i].last_instruments@),
            voices: self.state.notes.notes@,
            next_id: self.state.next_note_id,
            events: self.state.event_list@,
            unsupported: self.state.unsupported,
            dropped: self.state.dropped,
            playlist_position: self.state.playlist.position,
            samples_passed: self.samples_passed,
        }
    }

    /// `self` plays with what `old` played with: the same transport, mode,
    /// clock, patterns and row lengths.
    pub open spec fn same_static(&self, old: &DAWEngine) -> bool {
        &&& self.project == old.project
        &&& self.tick_length == old.tick_length
        &&& self.song_mode == old.song_mode
        &&& self.loop_patterns == old.loop_patterns
        &&& self.current_pattern == old.current_pattern
        &&& self.state.playing == old.state.playing
        &&& self.state.patterns@.len() == old.state.patterns@.len()
        &&& forall|j: int| 0 <= j < old.state.patterns@.len() ==> #[trigger] self.row_length_of(j) == old.row_length_of(j)
    }

    /// Ticks per row of pattern `i`.
    pub open spec fn row_length_of(&self, i: int) -> int {
        self.state.patterns@[i].row_length as int
    }

    /// Rows of pattern `i`.
    pub open spec fn rows_of(&self, i: int) -> int {
        self.project.patterns@[i].rows@.len() as int
    }

    /// Everything but the playback state is as in `old`.
    pub open spec fn same_setup(&self, old: &DAWEngine) -> bool {
        &&& self.tick_length == old.tick_length
        &&& self.samplerate == old.samplerate
        &&& self.channels == old.channels
        &&& self.sample_size == old.sample_size
        &&& self.samples_passed == old.samples_passed
        &&& self.song_mode == old.song_mode
        &&& self.loop_patterns == old.loop_patterns
        &&& self.current_pattern == old.current_pattern
        &&& self.project == old.project
    }

    /// An empty project at 96 ppq and 125 BPM, stopped, in pattern mode,
    /// with 256 silent voices.
    pub fn new(samplerate: u32, channels: u8, sample_size: u32) -> (e: DAWEngine)
        ensures
            e.wf(),
            e.project.ppq == DEFAULT_PPQ,
            e.project.tempo == DEFAULT_TEMPO,
            e.project.patterns@.len() == 0,
            e.project.playlist.clips@.len() == 0,
            e.tick_length == tick_samples(DEFAULT_TEMPO as int, DEFAULT_PPQ as int, samplerate as int),
            e.samplerate == samplerate,
            e.channels == channels,
            e.sample_size == sample_size,
            e.samples_passed == 0,
            !e.song_mode,
            !e.loop_patterns,
            e.current_pattern == 0,
            !e.state.playing,
            e.state.playlist.position == 0,
            e.state.patterns@.len() == 0,
            e.state.event_list@.len() == 0,
            e.state.notes.notes@.len() == VOICE_POOL_SIZE,
            forall|i: int| 0 <= i < VOICE_POOL_SIZE ==> !(#[trigger] e.state.notes.notes@[i]).is_on,
            e.state.next_note_id == 0,
            e.state.unsupported == 0,
            e.state.dropped == 0,
    {
        let playlist = Playlist { clips: Vec::new() };
        let project = Project { ppq: DEFAULT_PPQ, tempo: DEFAULT_TEMPO, playlist, patterns: Vec::new() };
        let mut engine = DAWEngine {
            tick_length: 0,
            samplerate,
            channels,
            sample_size,
            samples_passed: 0,
            song_mode: false,
            loop_patterns: false,
            current_pattern: 0,
            project,
            state: State {
                playing: false,
                playlist: PlaylistState { position: 0 },
                patterns: Vec::new(),
                event_list: Vec::with_capacity(sample_size as usize),
                notes: VoicePool::new(VOICE_POOL_SIZE),
                next_note_id: 0,
                unsupported: 0,
                dropped: 0,
            },
        };
        engine.set_tempo(DEFAULT_TEMPO);
        engine
    }

    /// Sets the tempo and recomputes the tick length from it.
    pub fn set_tempo(&mut self, tempo: u16)
        requires
            old(self).wf(),
        ensures
            final(self).wf(),
            final(self).project.tempo == tempo,
            final(self).project.ppq == old(self).project.ppq,
            final(self).project.playlist == old(self).project.playlist,
            final(self).project.patterns == old(self).project.patterns,
            tempo > 0 && old(self).project.ppq > 0 ==> final(self).tick_length == tick_samples(
                tempo as int,
                old(self).project.ppq as int,
                old(self).samplerate as int,
            ),
            tempo == 0 || old(self).project.ppq == 0 ==> final(self).tick_length == 0,
            final(self).samplerate == old(self).samplerate,
            final(self).channels == old(self).channels,
            final(self).sample_size == old(self).sample_size,
            final(self).samples_passed == old(self).samples_passed,
            final(self).song_mode == old(self).song_mode,
            final(self).loop_patterns == old(self).loop_patterns,
            final(self).current_pattern == old(self).current_pattern,
            final(self).state == old(self).state,
    {
        self.project.tempo = tempo;
        self.tick_length = tick_length_samples(tempo, self.project.ppq, self.samplerate);
        assert forall|i: int| 0 <= i < self.state.patterns@.len() implies #[trigger] self.pattern_ok(i) by {
            assert(old(self).pattern_ok(i));
        }
    }

    /// Adds a pattern, stopped at its start, with no voice held and
    /// instrument 0 as each track's last instrument.
    pub fn add_pattern(&mut self, pat: Pattern)
        requires
            old(self).wf(),
            pat.wf(),
            pat.rpb as int <= old(self).project.ppq as int,
            pat.rows@.len() * ((old(self).project.ppq as int) / (pat.rpb as int)) <= u32::MAX,
        ensures
            final(self).wf(),
            final(self).project.patterns@ == old(self).project.patterns@.push(pat),
            final(self).project.ppq == old(self).project.ppq,
            final(self).project.tempo == old(self).project.tempo,
            final(self).project.playlist == old(self).project.playlist,
            final(self).state.patterns@.len() == old(self).state.patterns@.len() + 1,
            forall|j: int| 0 <= j < old(self).state.patterns@.len() ==> final(self).state.patterns@[j] == old(self).state.patterns@[j],
            ({
                let s = final(self).state.patterns@[old(self).state.patterns@.len() as int];
                &&& s.playhead() == (Playhead { playing: false, position: 0, row: 0, ticks_passed: 0 })
                &&& s.row_length == (old(self).project.ppq as int) / (pat.rpb as int)
                &&& s.note_ids@ == Seq::new(pat.tracks(), |t: int| None::<usize>)
                &&& s.last_instruments@ == Seq::new(pat.tracks(), |t: int| 0u8)
            }),
            final(self).state.event_list == old(self).state.event_list,
            final(self).state.notes == old(self).state.notes,
            final(self).state.playing == old(self).state.playing,
            final(self).tick_length == old(self).tick_length,
            final(self).samples_passed == old(self).samples_passed,
            final(self).song_mode == old(self).song_mode,
            final(self).loop_patterns == old(self).loop_patterns,
            final(self).current_pattern == old(self).current_pattern,
            final(self).samplerate == old(self).samplerate,
            final(self).channels == old(self).channels,
            final(self).sample_size == old(self).sample_size,
            final(self).state.next_note_id == old(self).state.next_note_id,
            final(self).state.unsupported == old(self).state.unsupported,
            final(self).state.dropped == old(self).state.dropped,
            final(self).state.playlist == old(self).state.playlist,
    {
        let ppq = self.project.ppq;
        let rpb = pat.rpb as u16;
        let row_length: u32 = (ppq / rpb) as u32;
        assert(ppq / rpb >= 1) by (nonlinear_arith)
            requires
                0 < rpb <= ppq,
        ;
        let tracks = pat.rows[0].len();
        let state = PatternState::new(tracks, row_length);
        self.project.patterns.push(pat);
        self.state.patterns.push(state);
        proof {
            let n = old(self).state.patterns@.len();
            assert forall|i: int| 0 <= i < n + 1 implies bindings_sound(#[trigger] self.state.row_view(i)) by {
                if i < n {
                    assert(bindings_sound(old(self).state.row_view(i)));
                    assert(self.state.patterns@[i] == old(self).state.patterns@[i]);
                } else {
                    assert(self.state.patterns@[i].note_ids@ == Seq::new(tracks as nat, |t: int| None::<usize>));
                }
            }
            assert forall|v: usize| !holds(#[trigger] self.state.patterns@[n as int].note_ids@, v) by {
                assert(self.state.patterns@[n as int].note_ids@ == Seq::new(tracks as nat, |t: int| None::<usize>));
            }
            assert forall|i: int, j: int, v: usize|
                0 <= i < n + 1 && 0 <= j < n + 1 && i != j && holds(self.state.patterns@[i].note_ids@, v) implies !holds(
                self.state.patterns@[j].note_ids@,
                v,
            ) by {
                if i < n && j < n {
                    assert(self.state.patterns@[i] == old(self).state.patterns@[i]);
                    assert(self.state.patterns@[j] == old(self).state.patterns@[j]);
                }
            }
        }
        assert forall|i: int| 0 <= i < self.state.patterns@.len() implies #[trigger] self.pattern_ok(i) by {
            if i < old(self).state.patterns@.len() {
                assert(old(self).pattern_ok(i));
            }
        }
    }

    /// A clip that places pattern `index` at the start of the timeline.
    pub fn pattern_to_clip(&self, index: usize) -> (c: Clip)
        requires
            self.wf(),
            index < self.state.patterns@.len(),
        ensures
            c == Clip::Pattern(
                PatternClip {
                    pattern_index: index,
                    begin: 0,
                    end: (self.row_length_of(index as int) * self.rows_of(index as int)) as u32,
                    offset: 0,
                    track: 0,
                },
            ),
    {
        assert(self.pattern_ok(index as int));
        let rows = self.project.patterns[index].rows.len();
        let len = self.state.patterns[index].row_length;
        assert(rows * len <= u32::MAX);
        assert(rows <= u32::MAX) by (nonlinear_arith)
            requires
                rows * len <= u32::MAX,
                len > 0,
        ;
        let r32 = rows as u32;
        assert(r32 == rows);
        assert(len * r32 <= u32::MAX) by (nonlinear_arith)
            requires
                rows * len <= u32::MAX,
                r32 == rows,
        ;
        let end: u32 = len * r32;
        Clip::Pattern(PatternClip { pattern_index: index, begin: 0, end, offset: 0, track: 0 })
    }

    /// Starts pattern `index` at `offset` ticks: row and ticks into the row are
    /// sought from the offset.
    pub fn pattern_play(&mut self, index: usize, offset: u32)
        requires
            old(self).wf(),
            index < old(self).state.patterns@.len(),
        ensures
            final(self).wf(),
            final(self).same_setup(old(self)),
            final(self).state.frame(&old(self).state, index as int),
            final(self).state.row_view(index as int) == old(self).state.row_view(index as int),
            final(self).state.patterns@[index as int].playhead() == (Playhead {
                playing: true,
                position: offset as int,
                row: offset as int / old(self).row_length_of(index as int),
                ticks_passed: offset as int % old(self).row_length_of(index as int),
            }),
    {
        assert(self.pattern_ok(index as int));
        let len = self.state.patterns[index].row_length;
        self.state.patterns[index].position = offset;
        self.state.patterns[index].row = offset / len;
        self.state.patterns[index].ticks_passed = offset % len;
        self.state.patterns[index].playing = true;
        proof {
            Self::lemma_voices_ok_same(old(self), self);
            vstd::arithmetic::div_mod::lemma_fundamental_div_mod(offset as int, len as int);
            assert(offset as int == (offset / len) * len + offset % len) by (nonlinear_arith)
                requires
                    offset as int == len * (offset as int / len as int) + (offset as int % len as int),
            ;
        }
        assert forall|i: int| 0 <= i < self.state.patterns@.len() implies #[trigger] self.pattern_ok(i) by {
            assert(old(self).pattern_ok(i));
        }
    }

    /// Stops pattern `index` and releases every voice it holds; the NoteOffs
    /// go at the start of the buffer. The position is kept.
    pub fn pattern_stop(&mut self, index: usize)
        requires
            old(self).wf(),
            index < old(self).state.patterns@.len(),
        ensures
            final(self).wf(),
            final(self).same_setup(old(self)),
            final(self).state.frame(&old(self).state, index as int),
            final(self).state.row_view(index as int) == release_prefix(
                old(self).state.row_view(index as int),
                old(self).state.patterns@[index as int].tracks(),
                0,
            ),
            final(self).state.patterns@[index as int].playhead() == (Playhead {
                playing: false,
                ..old(self).state.patterns@[index as int].playhead()
            }),
            final(self).view() == stop_pattern(old(self).view(), index as int),
    {
        assert(self.pattern_ok(index as int));
        self.state.release_all(index, 0);
        self.state.patterns[index].playing = false;
        proof {
            assert(bindings_sound(old(self).state.row_view(index as int)));
            lemma_release_prefix_sound(old(self).state.row_view(index as int), old(self).state.patterns@[index as int].tracks(), 0);
            Self::lemma_voices_ok_after(old(self), self, index as int);
        }
        assert forall|i: int| 0 <= i < self.state.patterns@.len() implies #[trigger] self.pattern_ok(i) by {
            assert(old(self).pattern_ok(i));
        }
        proof {
            Self::lemma_pattern_view(old(self), self, index as int);
            assert(view_resolver(old(self).view(), index as int) == old(self).state.row_view(index as int));
        }
    }

    /// Resolves the current row of pattern `index` at sample offset
    /// `sample_index`.
    pub fn pattern_play_row(&mut self, index: usize, sample_index: u32)
        requires
            old(self).wf(),
            index < old(self).state.patterns@.len(),
            old(self).state.patterns@[index as int].row < old(self).rows_of(index as int),
        ensures
            final(self).wf(),
            final(self).same_setup(old(self)),
            final(self).state.keeps(&old(self).state, index as int),
            final(self).state.row_view(index as int) == resolve_row(
                old(self).project.patterns@[index as int].rows@[old(self).state.patterns@[index as int].row as int]@,
                old(self).state.row_view(index as int),
                sample_index,
            ),
    {
        assert(self.pattern_ok(index as int));
        let row = self.state.patterns[index].row as usize;
        assert(self.project.patterns@[index as int].rows@[row as int]@.len() == self.project.patterns@[index as int].tracks());
        self.state.play_row(index, &self.project.patterns[index].rows[row], sample_index);
        proof {
            let cells = old(self).project.patterns@[index as int].rows@[row as int]@;
            assert(bindings_sound(old(self).state.row_view(index as int)));
            lemma_resolve_prefix_sound(cells, cells.len(), old(self).state.row_view(index as int), sample_index);
            Self::lemma_voices_ok_after(old(self), self, index as int);
        }
        assert forall|i: int| 0 <= i < self.state.patterns@.len() implies #[trigger] self.pattern_ok(i) by {
            assert(old(self).pattern_ok(i));
        }
    }

    /// The view of an engine whose playback changed only in what one tick of
    /// pattern `i` changes.
    proof fn lemma_pattern_tick_view(old_e: &DAWEngine, new_e: &DAWEngine, i: int, at: u32)
        requires
            0 <= i < old_e.state.patterns@.len(),
            new_e.samples_passed == old_e.samples_passed,
            new_e.state.frame(&old_e.state, i),
            new_e.playhead_of(i) == advance(old_e.playhead_of(i), old_e.row_length_of(i), old_e.rows_of(i), old_e.loop_patterns),
            new_e.state.row_view(i) == match row_played(old_e.playhead_of(i), old_e.row_length_of(i), old_e.rows_of(i)) {
                Some(row) => resolve_row(old_e.project.patterns@[i].rows@[row]@, old_e.state.row_view(i), at),
                None => old_e.state.row_view(i),
            },
        ensures
            new_e.view() == tick_pattern(*old_e, old_e.view(), i, at),
    {
        let v = old_e.view();
        let t = tick_pattern(*old_e, v, i, at);
        let a = new_e.view();
        assert(view_resolver(v, i) == old_e.state.row_view(i));
        assert(a.heads =~= t.heads);
        assert(a.bindings =~= t.bindings);
        assert(a.last =~= t.last);
    }

    /// The view of an engine whose playback changed only in the playhead of
    /// pattern `i`.
    proof fn lemma_playhead_view(old_e: &DAWEngine, new_e: &DAWEngine, i: int)
        requires
            0 <= i < old_e.state.patterns@.len(),
            new_e.samples_passed == old_e.samples_passed,
            new_e.state.frame(&old_e.state, i),
            new_e.state.row_view(i) == old_e.state.row_view(i),
        ensures
            new_e.view() == (EngineView { heads: old_e.view().heads.update(i, new_e.playhead_of(i)), ..old_e.view() }),
    {
        let v = old_e.view();
        let a = new_e.view();
        assert(a.heads =~= v.heads.update(i, new_e.playhead_of(i)));
        assert(a.bindings =~= v.bindings);
        assert(a.last =~= v.last);
    }

    /// The view of an engine whose playback changed only in what resolving
    /// rows of pattern `i` and moving its playhead change.
    proof fn lemma_pattern_view(old_e: &DAWEngine, new_e: &DAWEngine, i: int)
        requires
            0 <= i < old_e.state.patterns@.len(),
            new_e.samples_passed == old_e.samples_passed,
            new_e.state.frame(&old_e.state, i),
        ensures
            new_e.view() == (EngineView {
                heads: old_e.view().heads.update(i, new_e.playhead_of(i)),
                ..with_resolver(old_e.view(), i, new_e.state.row_view(i))
            }),
    {
        let v = old_e.view();
        let a = new_e.view();
        let t = EngineView { heads: v.heads.update(i, new_e.playhead_of(i)), ..with_resolver(v, i, new_e.state.row_view(i)) };
        assert(a.heads =~= t.heads);
        assert(a.bindings =~= t.bindings);
        assert(a.last =~= t.last);
    }

    /// One tick of pattern `index`, at sample offset `sample_index`: see
    /// `advance` and `row_played`.
    pub fn pattern_tick(&mut self, index: usize, sample_index: u32)
        requires
            old(self).wf(),
            index < old(self).state.patterns@.len(),
        ensures
            final(self).wf(),
            final(self).same_setup(old(self)),
            final(self).state.frame(&old(self).state, index as int),
            final(self).state.patterns@[index as int].playhead() == advance(
                old(self).state.patterns@[index as int].playhead(),
                old(self).row_length_of(index as int),
                old(self).rows_of(index as int),
                old(self).loop_patterns,
            ),
            final(self).state.row_view(index as int) == match row_played(
                old(self).state.patterns@[index as int].playhead(),
                old(self).row_length_of(index as int),
                old(self).rows_of(index as int),
            ) {
                Some(row) => resolve_row(
                    old(self).project.patterns@[index as int].rows@[row]@,
                    old(self).state.row_view(index as int),
                    sample_index,
                ),
                None => old(self).state.row_view(index as int),
            },
            final(self).view() == tick_pattern(*old(self), old(self).view(), index as int, sample_index),
    {
        assert(self.pattern_ok(index as int));
        if !self.state.patterns[index].playing {
            proof {
                Self::lemma_pattern_tick_view(old(self), self, index as int, sample_index);
            }
            return;
        }
        let len = self.state.patterns[index].row_length;
        let rows = self.project.patterns[index].rows.len();
        if self.state.patterns[index].ticks_passed == 0 && (self.state.patterns[index].row as usize) < rows {
            self.pattern_play_row(index, sample_index);
        }
        let ghost mid = *self;
        assert(self.pattern_ok(index as int));
        let pos = self.state.patterns[index].position;
        let row = self.state.patterns[index].row;
        let ticks = self.state.patterns[index].ticks_passed;
        let total: u64 = rows as u64 * len as u64;
        if pos as u64 + 1 >= total {
            self.state.patterns[index].playing = self.loop_patterns;
            self.state.patterns[index].position = 0;
            self.state.patterns[index].row = 0;
            self.state.patterns[index].ticks_passed = 0;
            assert(0 * len == 0) by (nonlinear_arith);
        } else if ticks + 1 == len {
            assert(row + 1 <= u32::MAX) by (nonlinear_arith)
                requires
                    pos == row * len + ticks,
                    ticks + 1 == len,
                    pos + 1 <= u32::MAX,
                    len > 0,
            ;
            self.state.patterns[index].position = pos + 1;
            self.state.patterns[index].row = row + 1;
            self.state.patterns[index].ticks_passed = 0;
            assert((row + 1) * len == row * len + len) by (nonlinear_arith);
        } else {
            self.state.patterns[index].position = pos + 1;
            self.state.patterns[index].ticks_passed = ticks + 1;
        }
        assert forall|i: int| 0 <= i < self.state.patterns@.len() implies #[trigger] self.pattern_ok(i) by {
            assert(old(self).pattern_ok(i));
        }
        proof {
            Self::lemma_voices_ok_same(&mid, self);
            Self::lemma_pattern_tick_view(old(self), self, index as int, sample_index);
        }
    }

    /// The playhead of pattern `i`.
    pub open spec fn playhead_of(&self, i: int) -> Playhead {
        self.state.patterns@[i].playhead()
    }

    /// One tick of pattern `index` only appends to the event list.
    proof fn lemma_pattern_tick_extends(old_e: &DAWEngine, new_e: &DAWEngine, index: int, at: u32)
        requires
            old_e.wf(),
            0 <= index < old_e.state.patterns@.len(),
            new_e.state.row_view(index) == match row_played(old_e.playhead_of(index), old_e.row_length_of(index), old_e.rows_of(index)) {
                Some(row) => resolve_row(old_e.project.patterns@[index].rows@[row]@, old_e.state.row_view(index), at),
                None => old_e.state.row_view(index),
            },
        ensures
            old_e.state.event_list@.is_prefix_of(new_e.state.event_list@),
            stamped_after(old_e.state.event_list@, new_e.state.event_list@, at),
    {
        assert(old_e.pattern_ok(index));
        match row_played(old_e.playhead_of(index), old_e.row_length_of(index), old_e.rows_of(index)) {
            Some(row) => {
                let cells = old_e.project.patterns@[index].rows@[row]@;
                lemma_resolve_prefix_extends(cells, cells.len(), old_e.state.row_view(index), at);
            },
            None => {},
        }
    }

    /// One output sample. While the transport plays, every `tick_length`
    /// samples a tick goes by: in song mode the timeline moves on and every
    /// pattern ticks; in pattern mode the current pattern resumes if it had
    /// stopped, and ticks.
    pub fn tick(&mut self, sample_index: u32)
        requires
            old(self).wf(),
        ensures
            final(self).wf(),
            final(self).project == old(self).project,
            final(self).tick_length == old(self).tick_length,
            final(self).song_mode == old(self).song_mode,
            final(self).current_pattern == old(self).current_pattern,
            final(self).state.playing == old(self).state.playing,
            final(self).state.patterns@.len() == old(self).state.patterns@.len(),
            old(self).state.event_list@.is_prefix_of(final(self).state.event_list@),
            !old(self).state.playing ==> *final(self) == *old(self),
            old(self).state.playing ==> final(self).samples_passed == next_sample_count(
                old(self).samples_passed as int,
                old(self).tick_length as int,
            ),
            old(self).state.playing && old(self).samples_passed != 0 ==> final(self).state == old(self).state,
            old(self).state.playing && old(self).samples_passed == 0 && old(self).song_mode ==> {
                &&& final(self).state.playlist.position == if old(self).state.playlist.position < u32::MAX {
                    old(self).state.playlist.position + 1
                } else {
                    old(self).state.playlist.position as int
                }
                &&& forall|i: int| 0 <= i < old(self).state.patterns@.len() ==> #[trigger] final(self).playhead_of(i) == advance(
                    old(self).playhead_of(i),
                    old(self).row_length_of(i),
                    old(self).rows_of(i),
                    old(self).loop_patterns,
                )
            },
            old(self).state.playing && old(self).samples_passed == 0 && !old(self).song_mode
                && old(self).current_pattern < old(self).state.patterns@.len() ==> ({
                let c = old(self).current_pattern as int;
                let p = resumed(old(self).playhead_of(c), old(self).row_length_of(c));
                &&& final(self).state.frame(&old(self).state, c)
                &&& final(self).playhead_of(c) == advance(p, old(self).row_length_of(c), old(self).rows_of(c), old(self).loop_patterns)
                &&& final(self).state.row_view(c) == match row_played(p, old(self).row_length_of(c), old(self).rows_of(c)) {
                    Some(row) => resolve_row(old(self).project.patterns@[c].rows@[row]@, old(self).state.row_view(c), sample_index),
                    None => old(self).state.row_view(c),
                }
            }),
            old(self).state.playing && old(self).samples_passed == 0 && !old(self).song_mode
                && old(self).current_pattern >= old(self).state.patterns@.len() ==> final(self).state == old(self).state,
            final(self).same_static(old(self)),
            final(self).view() == engine_tick(*old(self), old(self).view(), sample_index),
            stamped_after(old(self).state.event_list@, final(self).state.event_list@, sample_index),
    {
        let ghost v = old(self).view();
        if !self.state.playing {
            return;
        }
        if self.samples_passed == 0 {
            if self.song_mode {
                if self.state.playlist.position < u32::MAX {
                    self.state.playlist.position = self.state.playlist.position + 1;
                }
                assert forall|i: int| 0 <= i < self.state.patterns@.len() implies #[trigger] self.pattern_ok(i) by {
                    assert(old(self).pattern_ok(i));
                }
                proof {
                    Self::lemma_voices_ok_same(old(self), self);
                }
                assert(self.view().heads =~= v.heads);
                assert(self.view().bindings =~= v.bindings);
                assert(self.view().last =~= v.last);
                let n = self.state.patterns.len();
                let mut i: usize = 0;
                while i < n
                    invariant
                        i <= n,
                        n == old(self).state.patterns@.len(),
                        self.wf(),
                        self.samples_passed == 0,
                        self.tick_length == old(self).tick_length,
                        self.song_mode == old(self).song_mode,
                        self.loop_patterns == old(self).loop_patterns,
                        self.current_pattern == old(self).current_pattern,
                        self.project == old(self).project,
                        self.state.playing == old(self).state.playing,
                        self.state.playlist.position == if old(self).state.playlist.position < u32::MAX {
                            old(self).state.playlist.position + 1
                        } else {
                            old(self).state.playlist.position as int
                        },
                        self.state.patterns@.len() == n,
                        old(self).state.event_list@.is_prefix_of(self.state.event_list@),
                        stamped_after(old(self).state.event_list@, self.state.event_list@, sample_index),
                        forall|j: int| 0 <= j < i ==> #[trigger] self.playhead_of(j) == advance(
                            old(self).playhead_of(j),
                            old(self).row_length_of(j),
                            old(self).rows_of(j),
                            old(self).loop_patterns,
                        ),
                        forall|j: int| i <= j < n ==> #[trigger] self.state.patterns@[j] == old(self).state.patterns@[j],
                        forall|j: int| 0 <= j < n ==> #[trigger] self.row_length_of(j) == old(self).row_length_of(j),
                        v == old(self).view(),
                        self.view() == tick_patterns(
                            *old(self),
                            EngineView { playlist_position: bump_position(v.playlist_position), ..v },
                            i as nat,
                            sample_index,
                        ),
                    decreases n - i,
                {
                    let ghost before = *self;
                    self.pattern_tick(i, sample_index);
                    assert(self.view() == tick_pattern(*old(self), before.view(), i as int, sample_index));
                    proof {
                        Self::lemma_pattern_tick_extends(&before, self, i as int, sample_index);
                        assert forall|k: int| old(self).state.event_list@.len() <= k < self.state.event_list@.len()
                            implies (#[trigger] self.state.event_list@[k]).position == sample_index by {
                            if k < before.state.event_list@.len() {
                                assert(self.state.event_list@[k] == before.state.event_list@[k]);
                            }
                        }
                        assert(old(self).state.event_list@ =~= self.state.event_list@.subrange(
                            0,
                            old(self).state.event_list@.len() as int,
                        )) by {
                            assert(old(self).state.event_list@ =~= before.state.event_list@.subrange(
                                0,
                                old(self).state.event_list@.len() as int,
                            ));
                            assert(before.state.event_list@ =~= self.state.event_list@.subrange(
                                0,
                                before.state.event_list@.len() as int,
                            ));
                        }
                        assert forall|j: int| 0 <= j < i + 1 implies #[trigger] self.playhead_of(j) == advance(
                            old(self).playhead_of(j),
                            old(self).row_length_of(j),
                            old(self).rows_of(j),
                            old(self).loop_patterns,
                        ) by {
                            if j < i {
                                assert(before.playhead_of(j) == self.playhead_of(j));
                            } else {
                                assert(before.state.patterns@[j] == old(self).state.patterns@[j]);
                            }
                        }
                        assert forall|j: int| i + 1 <= j < n implies #[trigger] self.state.patterns@[j]
                            == old(self).state.patterns@[j] by {
                            assert(before.state.patterns@[j] == old(self).state.patterns@[j]);
                        }
                        assert forall|j: int| 0 <= j < n implies #[trigger] self.row_length_of(j) == old(self).row_length_of(j) by {
                            assert(before.row_length_of(j) == old(self).row_length_of(j));
                        }
                    }
                    i = i + 1;
                }
            } else if self.current_pattern < self.state.patterns.len() {
                let c = self.current_pattern;
                if !self.state.patterns[c].playing {
                    let pos = self.state.patterns[c].position;
                    let ghost start = *self;
                    self.pattern_play(c, pos);
                    proof {
                        Self::lemma_playhead_view(&start, self, c as int);
                    }
                } else {
                    assert(v.heads.update(c as int, v.heads[c as int]) =~= v.heads);
                }
                let ghost before = *self;
                assert(before.view() == (EngineView {
                    heads: v.heads.update(c as int, resumed(v.heads[c as int], old(self).row_length_of(c as int))),
                    ..v
                }));
                self.pattern_tick(c, sample_index);
                proof {
                    Self::lemma_pattern_tick_extends(&before, self, c as int, sample_index);
                    assert(old(self).state.event_list@ =~= before.state.event_list@);
                }
            }
        }
        let ghost mid = *self;
        assert(mid.wf());
        self.samples_passed = self.samples_passed + 1;
        if self.samples_passed >= self.tick_length {
            self.samples_passed = 0;
        }
        assert forall|i: int| 0 <= i < self.state.patterns@.len() implies #[trigger] self.pattern_ok(i) by {
            assert(mid.pattern_ok(i));
        }
        assert forall|i: int| 0 <= i < self.state.patterns@.len() implies #[trigger] self.playhead_of(i) == mid.playhead_of(i) by {}
        assert(self.view() == (EngineView { samples_passed: self.samples_passed, ..mid.view() }));
        assert forall|j: int| 0 <= j < old(self).state.patterns@.len() implies #[trigger] self.row_length_of(j) == old(self).row_length_of(j) by {
            assert(mid.row_length_of(j) == old(self).row_length_of(j));
        }
    }

    /// Runs the engine for one buffer of `frames` frames. The event list is
    /// emptied first, then holds exactly the events of this buffer, each
    /// stamped with the frame at which it happens.
    pub fn process(&mut self, frames: u32)
        requires
            old(self).wf(),
        ensures
            final(self).wf(),
            final(self).same_static(old(self)),
            final(self).view() == engine_run(*old(self), EngineView { events: Seq::empty(), ..old(self).view() }, frames as nat),
            forall|k: int| 0 <= k < final(self).state.event_list@.len() ==> (#[trigger] final(self).state.event_list@[k]).position < frames,
            old(self).state.playing ==> final(self).samples_passed == sample_count_after(
                old(self).samples_passed as int,
                old(self).tick_length as int,
                frames as nat,
            ),
            !old(self).state.playing ==> final(self).state.event_list@.len() == 0,
    {
        self.clear_events();
        let ghost start = *self;
        assert(start.view() == (EngineView { events: Seq::empty(), ..old(self).view() })) by {
            assert(start.view().events =~= Seq::<TimedEvent>::empty());
        }
        let mut s: u32 = 0;
        while s < frames
            invariant
                s <= frames,
                self.wf(),
                start.samples_passed == old(self).samples_passed,
                start.view() == (EngineView { events: Seq::empty(), ..old(self).view() }),
                old(self).state.playing ==> self.samples_passed == sample_count_after(
                    old(self).samples_passed as int,
                    old(self).tick_length as int,
                    s as nat,
                ),
                !old(self).state.playing ==> self.state.event_list@.len() == 0,
                self.same_static(old(self)),
                self.view() == engine_run(*old(self), start.view(), s as nat),
                self.view().heads.len() == old(self).state.patterns@.len(),
                forall|k: int| 0 <= k < self.state.event_list@.len() ==> (#[trigger] self.state.event_list@[k]).position < s,
            decreases frames - s,
        {
            let ghost before = *self;
            self.tick(s);
            proof {
                lemma_engine_tick_static(before, *old(self), before.view(), s);
                assert forall|j: int| 0 <= j < old(self).state.patterns@.len() implies #[trigger] self.row_length_of(j) == old(self).row_length_of(j) by {
                    assert(before.row_length_of(j) == old(self).row_length_of(j));
                }
                assert forall|k: int| 0 <= k < self.state.event_list@.len() implies (#[trigger] self.state.event_list@[k]).position < s + 1 by {
                    if k < before.state.event_list@.len() {
                        assert(self.state.event_list@[k] == before.state.event_list@[k]);
                    }
                }
            }
            s = s + 1;
        }
    }

    /// Empties the event list once the buffer's events have been handed on.
    pub fn clear_events(&mut self)
        requires
            old(self).wf(),
        ensures
            final(self).wf(),
            final(self).state.event_list@.len() == 0,
            final(self).same_setup(old(self)),
            final(self).state.patterns == old(self).state.patterns,
            final(self).state.notes == old(self).state.notes,
            final(self).state.playing == old(self).state.playing,
            final(self).state.playlist == old(self).state.playlist,
            final(self).state.next_note_id == old(self).state.next_note_id,
            final(self).state.unsupported == old(self).state.unsupported,
            final(self).state.dropped == old(self).state.dropped,
    {
        self.state.event_list.clear();
        assert forall|i: int| 0 <= i < self.state.patterns@.len() implies #[trigger] self.pattern_ok(i) by {
            assert(old(self).pattern_ok(i));
        }
        proof {
            Self::lemma_voices_ok_same(old(self), self);
        }
    }

    /// Switches between song and pattern playback: every pattern stops and
    /// lets go of its voices, and the timeline goes back to its start.
    pub fn switch_song_mode(&mut self, song_mode: bool)
        requires
            old(self).wf(),
        ensures
            final(self).wf(),
            final(self).song_mode == song_mode,
            final(self).loop_patterns == old(self).loop_patterns,
            final(self).samplerate == old(self).samplerate,
            final(self).channels == old(self).channels,
            final(self).sample_size == old(self).sample_size,
            final(self).state.playlist.position == 0,
            final(self).project == old(self).project,
            final(self).tick_length == old(self).tick_length,
            final(self).samples_passed == old(self).samples_passed,
            final(self).current_pattern == old(self).current_pattern,
            final(self).state.playing == old(self).state.playing,
            final(self).state.patterns@.len() == old(self).state.patterns@.len(),
            old(self).state.event_list@.is_prefix_of(final(self).state.event_list@),
            forall|i: int| 0 <= i < old(self).state.patterns@.len() ==> #[trigger] final(self).playhead_of(i) == (Playhead {
                playing: false,
                ..old(self).playhead_of(i)
            }),
            forall|i: int, t: int|
                0 <= i < old(self).state.patterns@.len() && 0 <= t < final(self).state.patterns@[i].note_ids@.len()
                    ==> #[trigger] final(self).state.patterns@[i].note_ids@[t] is None,
            final(self).view() == (EngineView {
                playlist_position: 0,
                ..stop_patterns(old(self).view(), old(self).state.patterns@.len())
            }),
    {
        let n = self.state.patterns.len();
        let mut i: usize = 0;
        while i < n
            invariant
                i <= n,
                n == old(self).state.patterns@.len(),
                self.wf(),
                self.song_mode == old(self).song_mode,
                self.loop_patterns == old(self).loop_patterns,
                self.samplerate == old(self).samplerate,
                self.channels == old(self).channels,
                self.sample_size == old(self).sample_size,
                self.project == old(self).project,
                self.tick_length == old(self).tick_length,
                self.samples_passed == old(self).samples_passed,
                self.current_pattern == old(self).current_pattern,
                self.state.playing == old(self).state.playing,
                self.state.playlist == old(self).state.playlist,
                self.state.patterns@.len() == n,
                old(self).state.event_list@.is_prefix_of(self.state.event_list@),
                forall|j: int| 0 <= j < i ==> #[trigger] self.playhead_of(j) == (Playhead { playing: false, ..old(self).playhead_of(j) }),
                forall|j: int, t: int|
                    0 <= j < i && 0 <= t < self.state.patterns@[j].note_ids@.len() ==> #[trigger] self.state.patterns@[j].note_ids@[t] is None,
                forall|j: int| i <= j < n ==> #[trigger] self.state.patterns@[j] == old(self).state.patterns@[j],
                self.view() == stop_patterns(old(self).view(), i as nat),
            decreases n - i,
        {
            let ghost before = *self;
            self.pattern_stop(i);
            proof {
                lemma_release_prefix_clears(before.state.row_view(i as int), before.state.patterns@[i as int].tracks(), 0);
                assert(old(self).state.event_list@ =~= self.state.event_list@.subrange(0, old(self).state.event_list@.len() as int)) by {
                    assert(old(self).state.event_list@ =~= before.state.event_list@.subrange(0, old(self).state.event_list@.len() as int));
                    assert(before.state.event_list@ =~= self.state.event_list@.subrange(0, before.state.event_list@.len() as int));
                }
                assert forall|j: int| 0 <= j < i + 1 implies #[trigger] self.playhead_of(j) == (Playhead {
                    playing: false,
                    ..old(self).playhead_of(j)
                }) by {
                    if j < i {
                        assert(before.playhead_of(j) == self.playhead_of(j));
                    } else {
                        assert(before.state.patterns@[j] == old(self).state.patterns@[j]);
                    }
                }
                assert forall|j: int, t: int|
                    0 <= j < i + 1 && 0 <= t < self.state.patterns@[j].note_ids@.len() implies #[trigger] self.state.patterns@[j].note_ids@[t] is None by {
                    if j < i {
                        assert(before.state.patterns@[j] == self.state.patterns@[j]);
                        assert(before.state.patterns@[j].note_ids@[t] is None);
                    }
                }
                assert forall|j: int| i + 1 <= j < n implies #[trigger] self.state.patterns@[j] == old(self).state.patterns@[j] by {
                    assert(before.state.patterns@[j] == old(self).state.patterns@[j]);
                }
            }
            i = i + 1;
        }
        let ghost mid = *self;
        self.state.playlist.position = 0;
        self.song_mode = song_mode;
        assert(self.view() == (EngineView { playlist_position: 0, ..mid.view() }));
        assert forall|i: int| 0 <= i < self.state.patterns@.len() implies #[trigger] self.pattern_ok(i) by {
            assert(mid.pattern_ok(i));
        }
        assert forall|i: int| 0 <= i < self.state.patterns@.len() implies #[trigger] self.playhead_of(i) == mid.playhead_of(i) by {}
    }

    /// Whether `add_pattern` takes `pat`: at least one row, all rows as wide
    /// as the first, rows per beat between 1 and the project's ppq, and a
    /// length in ticks that fits a `u32`.
    pub fn can_add_pattern(&self, pat: &Pattern) -> (r: bool)
        ensures
            r == (pat.wf() && pat.rpb as int <= self.project.ppq as int && pat.rows@.len() * ((self.project.ppq as int)
                / (pat.rpb as int)) <= u32::MAX),
    {
        if pat.rows.len() == 0 || pat.rpb == 0 || pat.rpb as u16 > self.project.ppq {
            return false;
        }
        let width = pat.rows[0].len();
        let mut i: usize = 0;
        while i < pat.rows.len()
            invariant
                i <= pat.rows@.len(),
                pat.rows@.len() > 0,
                width == pat.tracks(),
                forall|k: int| 0 <= k < i ==> #[trigger] pat.rows@[k]@.len() == width,
            decreases pat.rows@.len() - i,
        {
            if pat.rows[i].len() != width {
                return false;
            }
            i = i + 1;
        }
        let ppq = self.project.ppq;
        let rpb = pat.rpb as u16;
        assert(ppq / rpb >= 1) by (nonlinear_arith)
            requires
                0 < rpb <= ppq,
        ;
        let row_length = (ppq / rpb) as u64;
        let rows = pat.rows.len() as u64;
        if rows > u32::MAX as u64 {
            assert(rows * row_length > u32::MAX) by (nonlinear_arith)
                requires
                    rows > u32::MAX,
                    row_length >= 1,
            ;
            return false;
        }
        assert(rows * row_length <= 0xffff_ffff * 0xffff) by (nonlinear_arith)
            requires
                rows <= 0xffff_ffff,
                row_length <= 0xffff,
        ;
        rows * row_length <= u32::MAX as u64
    }

    /// Replaces the cells of pattern `index` by those of `pat` when `pat` has
    /// the same shape and rows per beat; says whether it did.
    pub fn set_pattern(&mut self, index: usize, pat: Pattern) -> (r: bool)
        requires
            old(self).wf(),
            index < old(self).state.patterns@.len(),
        ensures
            final(self).wf(),
            final(self).state == old(self).state,
            final(self).tick_length == old(self).tick_length,
            final(self).samplerate == old(self).samplerate,
            final(self).channels == old(self).channels,
            final(self).sample_size == old(self).sample_size,
            final(self).samples_passed == old(self).samples_passed,
            final(self).song_mode == old(self).song_mode,
            final(self).loop_patterns == old(self).loop_patterns,
            final(self).current_pattern == old(self).current_pattern,
            final(self).project.ppq == old(self).project.ppq,
            final(self).project.tempo == old(self).project.tempo,
            r ==> final(self).project.patterns@ == old(self).project.patterns@.update(index as int, pat),
            !r ==> final(self).project == old(self).project,
            r == (pat.wf() && pat.rpb == old(self).project.patterns@[index as int].rpb
                && pat.rows@.len() == old(self).project.patterns@[index as int].rows@.len()
                && pat.tracks() == old(self).project.patterns@[index as int].tracks()),
    {
        assert(self.pattern_ok(index as int));
        let cur = &self.project.patterns[index];
        if pat.rows.len() != cur.rows.len() || pat.rpb != cur.rpb || pat.rows.len() == 0 || pat.rpb == 0 {
            return false;
        }
        let width = cur.rows[0].len();
        let mut i: usize = 0;
        while i < pat.rows.len()
            invariant
                i <= pat.rows@.len(),
                pat.rows@.len() > 0,
                *self == *old(self),
                old(self).wf(),
                width == self.project.patterns@[index as int].tracks(),
                forall|k: int| 0 <= k < i ==> #[trigger] pat.rows@[k]@.len() == width,
            decreases pat.rows@.len() - i,
        {
            if pat.rows[i].len() != width {
                return false;
            }
            i = i + 1;
        }
        self.project.patterns.set(index, pat);
        assert forall|i: int| 0 <= i < self.state.patterns@.len() implies #[trigger] self.pattern_ok(i) by {
            assert(old(self).pattern_ok(i));
        }
        true
    }

    /// Stops the transport: playback pauses, every pattern stops, lets go of
    /// its voices and goes back to its start.
    pub fn stop(&mut self)
        requires
            old(self).wf(),
        ensures
            final(self).wf(),
            !final(self).state.playing,
            final(self).project == old(self).project,
            final(self).tick_length == old(self).tick_length,
            final(self).samplerate == old(self).samplerate,
            final(self).channels == old(self).channels,
            final(self).sample_size == old(self).sample_size,
            final(self).samples_passed == old(self).samples_passed,
            final(self).song_mode == old(self).song_mode,
            final(self).loop_patterns == old(self).loop_patterns,
            final(self).current_pattern == old(self).current_pattern,
            final(self).state.patterns@.len() == old(self).state.patterns@.len(),
            old(self).state.event_list@.is_prefix_of(final(self).state.event_list@),
            forall|i: int| 0 <= i < old(self).state.patterns@.len() ==> #[trigger] final(self).playhead_of(i) == (Playhead {
                playing: false,
                position: 0,
                row: 0,
                ticks_passed: 0,
            }),
            forall|i: int, t: int|
                0 <= i < old(self).state.patterns@.len() && 0 <= t < final(self).state.patterns@[i].note_ids@.len()
                    ==> #[trigger] final(self).state.patterns@[i].note_ids@[t] is None,
            final(self).view() == (EngineView {
                heads: Seq::new(old(self).state.patterns@.len(), |i: int| Playhead { playing: false, position: 0, row: 0, ticks_passed: 0 }),
                playlist_position: 0,
                ..stop_patterns(old(self).view(), old(self).state.patterns@.len())
            }),
    {
        let song_mode = self.song_mode;
        self.switch_song_mode(song_mode);
        let ghost mid = *self;
        self.state.playing = false;
        assert forall|j: int| 0 <= j < self.state.patterns@.len() implies #[trigger] self.pattern_ok(j) by {
            assert(mid.pattern_ok(j));
        }
        assert forall|j: int| 0 <= j < mid.state.patterns@.len() implies !(#[trigger] mid.state.patterns@[j]).playing by {
            assert(mid.playhead_of(j).playing == false);
        }
        let n = self.state.patterns.len();
        let mut i: usize = 0;
        while i < n
            invariant
                i <= n,
                n == old(self).state.patterns@.len(),
                n == mid.state.patterns@.len(),
                self.wf(),
                !self.state.playing,
                self.project == old(self).project,
                self.state.patterns@.len() == n,
                self.state.event_list == mid.state.event_list,
                forall|j: int| 0 <= j < i ==> #[trigger] self.playhead_of(j) == (Playhead {
                    playing: false,
                    position: 0,
                    row: 0,
                    ticks_passed: 0,
                }),
                forall|j: int| 0 <= j < n ==> #[trigger] self.state.patterns@[j].note_ids == mid.state.patterns@[j].note_ids,
                forall|j: int| 0 <= j < n ==> #[trigger] self.state.patterns@[j].last_instruments == mid.state.patterns@[j].last_instruments,
                forall|j: int| i <= j < n ==> #[trigger] self.state.patterns@[j] == mid.state.patterns@[j],
                forall|j: int| 0 <= j < n ==> !(#[trigger] mid.state.patterns@[j]).playing,
                self.state.notes == mid.state.notes,
                self.state.next_note_id == mid.state.next_note_id,
                self.state.unsupported == mid.state.unsupported,
                self.state.dropped == mid.state.dropped,
                self.state.playlist == mid.state.playlist,
                self.samples_passed == mid.samples_passed,
                self.tick_length == mid.tick_length,
                self.samplerate == mid.samplerate,
                self.channels == mid.channels,
                self.sample_size == mid.sample_size,
                self.song_mode == mid.song_mode,
                self.loop_patterns == mid.loop_patterns,
                self.current_pattern == mid.current_pattern,
            decreases n - i,
        {
            assert(self.pattern_ok(i as int));
            let ghost before = *self;
            self.state.patterns[i].position = 0;
            self.state.patterns[i].row = 0;
            self.state.patterns[i].ticks_passed = 0;
            proof {
                Self::lemma_voices_ok_same(&before, self);
                let l = self.state.patterns@[i as int].row_length;
                assert(0 * l == 0) by (nonlinear_arith);
                assert forall|j: int| 0 <= j < self.state.patterns@.len() implies #[trigger] self.pattern_ok(j) by {
                    assert(before.pattern_ok(j));
                }
                assert forall|j: int| 0 <= j < i + 1 implies #[trigger] self.playhead_of(j) == (Playhead {
                    playing: false,
                    position: 0,
                    row: 0,
                    ticks_passed: 0,
                }) by {
                    if j < i {
                        assert(before.playhead_of(j) == self.playhead_of(j));
                    } else {
                        assert(!mid.state.patterns@[j].playing);
                    }
                }
                assert forall|j: int| 0 <= j < n implies #[trigger] self.state.patterns@[j].note_ids == mid.state.patterns@[j].note_ids by {
                    assert(before.state.patterns@[j].note_ids == mid.state.patterns@[j].note_ids);
                }
                assert forall|j: int| 0 <= j < n implies #[trigger] self.state.patterns@[j].last_instruments == mid.state.patterns@[j].last_instruments by {
                    assert(before.state.patterns@[j].last_instruments == mid.state.patterns@[j].last_instruments);
                }
                assert forall|j: int| i + 1 <= j < n implies #[trigger] self.state.patterns@[j] == mid.state.patterns@[j] by {
                    assert(before.state.patterns@[j] == mid.state.patterns@[j]);
                }
            }
            i = i + 1;
        }
        assert forall|i: int, t: int|
            0 <= i < n && 0 <= t < self.state.patterns@[i].note_ids@.len() implies #[trigger] self.state.patterns@[i].note_ids@[t] is None by {
            assert(self.state.patterns@[i].note_ids == mid.state.patterns@[i].note_ids);
            assert(mid.state.patterns@[i].note_ids@[t] is None);
        }
        let ghost target = EngineView {
            heads: Seq::new(n as nat, |i: int| Playhead { playing: false, position: 0, row: 0, ticks_passed: 0 }),
            ..mid.view()
        };
        assert forall|j: int| 0 <= j < n implies self.view().heads[j] == target.heads[j] by {
            assert(self.playhead_of(j) == target.heads[j]);
        }
        assert(self.view().heads =~= target.heads);
        assert(self.view().bindings =~= target.bindings);
        assert(self.view().last =~= target.last);
    }
}

} // verus!
