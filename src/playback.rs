use vstd::prelude::*;
use crate::events::{Event, NoteState, TimedEvent};
use crate::pattern::{Note, TrackEvent};
use crate::voices::{lemma_first_free_exists, lemma_pick_voice_in_range, pick_voice, released, sounding};

verus! {

/// What row resolution reads and writes, as mathematical values.
pub struct Resolver {
    /// The voice pool.
    pub voices: Seq<NoteState>,
    /// The voice each track of the pattern holds, if any.
    pub bindings: Seq<Option<usize>>,
    /// The last instrument each track used.
    pub last: Seq<u8>,
    /// The slot the next allocation asks for first.
    pub next_id: usize,
    /// Events emitted so far.
    pub events: Seq<TimedEvent>,
    /// Cells skipped because they ask for something not supported.
    pub unsupported: u64,
    /// Notes refused because every voice was busy.
    pub dropped: u64,
}

/// A counter that stops at its largest value.
pub open spec fn bump(n: u64) -> u64 {
    if n < u64::MAX {
        (n + 1) as u64
    } else {
        n
    }
}

/// Velocity clamped to the MIDI range; "not set" becomes full velocity.
pub open spec fn clamp_velocity(v: u8) -> u8 {
    if v > 127 {
        127
    } else {
        v
    }
}

/// The instrument a cell plays on: its own, or the track's last one when the
/// cell's instrument field is 0.
pub open spec fn resolved_instrument(r: Resolver, track: int, cell: TrackEvent) -> u8 {
    if cell.instrument == 0 {
        r.last[track]
    } else {
        (cell.instrument - 1) as u8
    }
}

/// Releases the voice that `track` holds: a NoteOff with the voice's stored
/// key and velocity if it still sounds, and the track holds nothing after.
pub open spec fn release_track(r: Resolver, track: int, at: u32) -> Resolver {
    match r.bindings[track] {
        Some(id) => {
            if id < r.voices.len() && r.voices[id as int].is_on {
                let v = r.voices[id as int];
                Resolver {
                    voices: r.voices.update(id as int, released(v)),
                    bindings: r.bindings.update(track, None),
                    events: r.events.push(
                        TimedEvent {
                            module_index: v.instrument,
                            position: at,
                            event: Event::NoteOff { id, key: v.key, vel: v.vel },
                        },
                    ),
                    ..r
                }
            } else {
                Resolver { bindings: r.bindings.update(track, None), ..r }
            }
        },
        None => r,
    }
}

/// Starts `key` on `track`: the track's previous voice is released first,
/// then a voice is taken (the pool's choice, asking for `next_id`) and a
/// NoteOn is emitted; with no free voice the note is dropped.
pub open spec fn trigger_note(r: Resolver, track: int, key: u8, cell: TrackEvent, at: u32) -> Resolver {
    let inst = resolved_instrument(r, track, cell);
    let vel = clamp_velocity(cell.volume);
    let s = release_track(r, track, at);
    let s = Resolver { last: s.last.update(track, inst), ..s };
    match pick_voice(s.voices, s.next_id as int) {
        Some(id) => Resolver {
            voices: s.voices.update(id as int, sounding(id, key, vel, inst as usize)),
            bindings: s.bindings.update(track, Some(id as usize)),
            next_id: (id + 1) as usize,
            events: s.events.push(
                TimedEvent {
                    module_index: inst as usize,
                    position: at,
                    event: Event::NoteOn { id: id as usize, key, vel },
                },
            ),
            ..s
        },
        None => Resolver { dropped: bump(s.dropped), ..s },
    }
}

/// The effect of one cell.
pub open spec fn resolve_cell(r: Resolver, track: int, cell: TrackEvent, at: u32) -> Resolver {
    match cell.note {
        Note::Empty => r,
        Note::PreviousTrack => Resolver { unsupported: bump(r.unsupported), ..r },
        Note::Off | Note::Cut | Note::Fade => release_track(r, track, at),
        Note::Key(k) => trigger_note(r, track, k, cell, at),
    }
}

/// The effect of the first `n` cells of a row, in track order.
pub open spec fn resolve_prefix(cells: Seq<TrackEvent>, n: nat, r: Resolver, at: u32) -> Resolver
    decreases n,
{
    if n == 0 {
        r
    } else {
        let prev = resolve_prefix(cells, (n - 1) as nat, r, at);
        resolve_cell(prev, n - 1, cells[n - 1], at)
    }
}

/// The effect of a whole row.
pub open spec fn resolve_row(cells: Seq<TrackEvent>, r: Resolver, at: u32) -> Resolver {
    resolve_prefix(cells, cells.len(), r, at)
}

/// Releasing the voices of the first `n` tracks, in track order.
pub open spec fn release_prefix(r: Resolver, n: nat, at: u32) -> Resolver
    decreases n,
{
    if n == 0 {
        r
    } else {
        release_track(release_prefix(r, (n - 1) as nat, at), n - 1, at)
    }
}

/// Where a pattern's playback stands.
pub struct Playhead {
    pub playing: bool,
    pub position: int,
    pub row: int,
    pub ticks_passed: int,
}

/// One tick of a pattern of `rows` rows of `row_length` ticks: count the
/// tick, and move to the next row once the current one has lasted
/// `row_length` ticks; the tick that reaches the end rewinds to the start
/// and, unless `loops`, stops playback.
pub open spec fn advance(p: Playhead, row_length: int, rows: int, loops: bool) -> Playhead {
    if !p.playing {
        p
    } else if p.position + 1 >= rows * row_length {
        Playhead { playing: loops, position: 0, row: 0, ticks_passed: 0 }
    } else if p.ticks_passed + 1 == row_length {
        Playhead { playing: true, position: p.position + 1, row: p.row + 1, ticks_passed: 0 }
    } else {
        Playhead { playing: true, position: p.position + 1, row: p.row, ticks_passed: p.ticks_passed + 1 }
    }
}

/// The row that a tick resolves, if any: the current row, when the tick is
/// its first one and the row lies inside the pattern.
pub open spec fn row_played(p: Playhead, row_length: int, rows: int) -> Option<int> {
    if p.playing && p.ticks_passed == 0 && 0 <= p.row < rows {
        Some(p.row)
    } else {
        None
    }
}

/// `n` ticks in a row.
pub open spec fn advance_n(p: Playhead, row_length: int, rows: int, loops: bool, n: nat) -> Playhead
    decreases n,
{
    if n == 0 {
        p
    } else {
        advance(advance_n(p, row_length, rows, loops, (n - 1) as nat), row_length, rows, loops)
    }
}

/// Every event of `new` past the length of `old` is stamped at `at`.
pub open spec fn stamped_after(old: Seq<TimedEvent>, new: Seq<TimedEvent>, at: u32) -> bool {
    forall|k: int| old.len() <= k < new.len() ==> (#[trigger] new[k]).position == at
}

/// Releasing a track only appends to the events and keeps the sizes of the
/// pool and of the bindings.
pub proof fn lemma_release_track_extends(r: Resolver, track: int, at: u32)
    requires
        0 <= track < r.bindings.len(),
    ensures
        r.events.is_prefix_of(release_track(r, track, at).events),
        stamped_after(r.events, release_track(r, track, at).events, at),
        release_track(r, track, at).voices.len() == r.voices.len(),
        release_track(r, track, at).bindings.len() == r.bindings.len(),
        release_track(r, track, at).bindings[track] is None,
        forall|t: int| 0 <= t < r.bindings.len() && t != track ==> release_track(r, track, at).bindings[t] == r.bindings[t],
{
    let s = release_track(r, track, at);
    assert(r.events =~= s.events.subrange(0, r.events.len() as int));
}

/// Releasing the first `n` tracks leaves none of them holding a voice and
/// only appends to the events.
pub proof fn lemma_release_prefix_clears(r: Resolver, n: nat, at: u32)
    requires
        n <= r.bindings.len(),
    ensures
        r.events.is_prefix_of(release_prefix(r, n, at).events),
        release_prefix(r, n, at).voices.len() == r.voices.len(),
        release_prefix(r, n, at).bindings.len() == r.bindings.len(),
        forall|t: int| 0 <= t < n ==> release_prefix(r, n, at).bindings[t] is None,
    decreases n,
{
    if n > 0 {
        let prev = release_prefix(r, (n - 1) as nat, at);
        lemma_release_prefix_clears(r, (n - 1) as nat, at);
        lemma_release_track_extends(prev, n - 1, at);
        let cur = release_prefix(r, n, at);
        assert(r.events =~= cur.events.subrange(0, r.events.len() as int)) by {
            assert(r.events =~= prev.events.subrange(0, r.events.len() as int));
            assert(prev.events =~= cur.events.subrange(0, prev.events.len() as int));
        }
    }
}

/// One cell only appends to the events and keeps the sizes of the pool, the
/// bindings and the last instruments.
pub proof fn lemma_resolve_cell_extends(r: Resolver, track: int, cell: TrackEvent, at: u32)
    requires
        0 <= track < r.bindings.len(),
        r.bindings.len() == r.last.len(),
    ensures
        r.events.is_prefix_of(resolve_cell(r, track, cell, at).events),
        stamped_after(r.events, resolve_cell(r, track, cell, at).events, at),
        resolve_cell(r, track, cell, at).voices.len() == r.voices.len(),
        resolve_cell(r, track, cell, at).bindings.len() == r.bindings.len(),
        resolve_cell(r, track, cell, at).last.len() == r.last.len(),
{
    lemma_release_track_extends(r, track, at);
    let s = resolve_cell(r, track, cell, at);
    let m = release_track(r, track, at);
    assert(r.events =~= m.events.subrange(0, r.events.len() as int));
    match cell.note {
        Note::Key(k) => {
            let inst = resolved_instrument(r, track, cell);
            let m2 = Resolver { last: m.last.update(track, inst), ..m };
            match pick_voice(m2.voices, m2.next_id as int) {
                Some(id) => {
                    lemma_pick_voice_in_range(m2.voices, m2.next_id as int);
                    assert(m.events =~= s.events.subrange(0, m.events.len() as int));
                },
                None => {},
            }
            assert(r.events =~= s.events.subrange(0, r.events.len() as int));
        },
        _ => {},
    }
}

/// A row only appends to the events and keeps the sizes of the pool, the
/// bindings and the last instruments.
pub proof fn lemma_resolve_prefix_extends(cells: Seq<TrackEvent>, n: nat, r: Resolver, at: u32)
    requires
        n <= cells.len(),
        cells.len() == r.bindings.len(),
        r.bindings.len() == r.last.len(),
    ensures
        r.events.is_prefix_of(resolve_prefix(cells, n, r, at).events),
        stamped_after(r.events, resolve_prefix(cells, n, r, at).events, at),
        resolve_prefix(cells, n, r, at).voices.len() == r.voices.len(),
        resolve_prefix(cells, n, r, at).bindings.len() == r.bindings.len(),
        resolve_prefix(cells, n, r, at).last.len() == r.last.len(),
    decreases n,
{
    if n > 0 {
        let prev = resolve_prefix(cells, (n - 1) as nat, r, at);
        lemma_resolve_prefix_extends(cells, (n - 1) as nat, r, at);
        lemma_resolve_cell_extends(prev, n - 1, cells[n - 1], at);
        let cur = resolve_prefix(cells, n, r, at);
        assert(r.events =~= cur.events.subrange(0, r.events.len() as int)) by {
            assert(r.events =~= prev.events.subrange(0, r.events.len() as int));
            assert(prev.events =~= cur.events.subrange(0, prev.events.len() as int));
        }
    }
}

/// Playback position of the song timeline.
pub struct PlaylistState {
    pub position: u32,
}

impl PlaylistState {
    /// Moves the timeline to `pos` ticks.
    pub fn seek(&mut self, pos: u32)
        ensures
            final(self).position == pos,
    {
        self.position = pos;
    }
}

/// Playback state of one pattern.
#[derive(Clone, Debug)]
pub struct PatternState {
    /// Ticks spent in the current row.
    pub ticks_passed: u32,
    /// Ticks per row, `ppq / rpb`.
    pub row_length: u32,
    /// The voice each track holds, if any.
    pub note_ids: Vec<Option<usize>>,
    /// The last instrument each track used.
    pub last_instruments: Vec<u8>,
    /// Ticks since the start of the pattern.
    pub position: u32,
    pub playing: bool,
    pub row: u32,
}

impl PatternState {
    pub open spec fn playhead(&self) -> Playhead {
        Playhead {
            playing: self.playing,
            position: self.position as int,
            row: self.row as int,
            ticks_passed: self.ticks_passed as int,
        }
    }

    /// Counters that agree with each other, and one voice binding and one
    /// last instrument per track.
    pub open spec fn wf(&self) -> bool {
        &&& self.row_length > 0
        &&& self.ticks_passed < self.row_length
        &&& self.position == self.row * self.row_length + self.ticks_passed
        &&& self.note_ids@.len() == self.last_instruments@.len()
    }

    pub open spec fn tracks(&self) -> nat {
        self.note_ids@.len()
    }

    /// A stopped state at the start of a pattern of `tracks` tracks: no voice
    /// held, and instrument 0 as every track's last instrument.
    pub fn new(tracks: usize, row_length: u32) -> (s: PatternState)
        requires
            row_length > 0,
        ensures
            s.wf(),
            s.row_length == row_length,
            s.playhead() == (Playhead { playing: false, position: 0, row: 0, ticks_passed: 0 }),
            s.note_ids@ == Seq::new(tracks as nat, |t: int| None::<usize>),
            s.last_instruments@ == Seq::new(tracks as nat, |t: int| 0u8),
    {
        let mut note_ids: Vec<Option<usize>> = Vec::with_capacity(tracks);
        let mut last_instruments: Vec<u8> = Vec::with_capacity(tracks);
        let mut t: usize = 0;
        while t < tracks
            invariant
                t <= tracks,
                note_ids@ == Seq::new(t as nat, |k: int| None::<usize>),
                last_instruments@ == Seq::new(t as nat, |k: int| 0u8),
            decreases tracks - t,
        {
            note_ids.push(None);
            last_instruments.push(0);
            t = t + 1;
            assert(note_ids@ =~= Seq::new(t as nat, |k: int| None::<usize>));
            assert(last_instruments@ =~= Seq::new(t as nat, |k: int| 0u8));
        }
        assert(0 * row_length == 0) by (nonlinear_arith);
        PatternState {
            ticks_passed: 0,
            row_length,
            note_ids,
            last_instruments,
            position: 0,
            playing: false,
            row: 0,
        }
    }
}

/// The playhead of a pattern that was just started from its beginning.
pub open spec fn at_start() -> Playhead {
    Playhead { playing: true, position: 0, row: 0, ticks_passed: 0 }
}

/// The playhead of a stopped pattern at its beginning.
pub open spec fn rewound() -> Playhead {
    Playhead { playing: false, position: 0, row: 0, ticks_passed: 0 }
}

/// During a pass from the start, after `k` ticks with `k` short of the end,
/// the pattern still plays at position `k`, with row and ticks into the row
/// that agree with it.
proof fn lemma_pass_in_progress(rows: int, row_length: int, loops: bool, k: nat)
    requires
        rows > 0,
        row_length > 0,
        k < rows * row_length,
    ensures
        ({
            let p = advance_n(at_start(), row_length, rows, loops, k);
            &&& p.playing
            &&& p.position == k
            &&& p.row >= 0
            &&& 0 <= p.ticks_passed < row_length
            &&& p.row * row_length + p.ticks_passed == k
        }),
    decreases k,
{
    if k > 0 {
        lemma_pass_in_progress(rows, row_length, loops, (k - 1) as nat);
        let p = advance_n(at_start(), row_length, rows, loops, (k - 1) as nat);
        if p.ticks_passed + 1 == row_length {
            assert((p.row + 1) * row_length == p.row * row_length + row_length) by (nonlinear_arith);
        }
    } else {
        assert(0 * row_length == 0);
    }
}

/// Played from its start, a pattern of `rows` rows of `row_length` ticks
/// plays throughout and is rewound after exactly `rows * row_length` ticks:
/// stopped, or playing from the start again when it `loops`.
pub proof fn lemma_full_pass_stops(rows: int, row_length: int, loops: bool)
    requires
        rows > 0,
        row_length > 0,
    ensures
        advance_n(at_start(), row_length, rows, loops, (rows * row_length) as nat) == if loops {
            at_start()
        } else {
            rewound()
        },
        forall|k: nat| 0 < k < rows * row_length ==> (#[trigger] advance_n(at_start(), row_length, rows, loops, k)).playing,
{
    assert(rows * row_length >= 1) by (nonlinear_arith)
        requires
            rows > 0,
            row_length > 0,
    ;
    let last = (rows * row_length - 1) as nat;
    lemma_pass_in_progress(rows, row_length, loops, last);
    assert forall|k: nat| 0 < k < rows * row_length implies (#[trigger] advance_n(at_start(), row_length, rows, loops, k)).playing by {
        lemma_pass_in_progress(rows, row_length, loops, k);
    }
}

/// A row whose cells are all empty emits nothing and changes nothing.
pub proof fn lemma_empty_row_is_silent(cells: Seq<TrackEvent>, r: Resolver, at: u32)
    requires
        forall|i: int| 0 <= i < cells.len() ==> (#[trigger] cells[i]).note == Note::Empty,
    ensures
        resolve_row(cells, r, at) == r,
{
    lemma_empty_prefix_is_silent(cells, cells.len(), r, at);
}

proof fn lemma_empty_prefix_is_silent(cells: Seq<TrackEvent>, n: nat, r: Resolver, at: u32)
    requires
        n <= cells.len(),
        forall|i: int| 0 <= i < cells.len() ==> (#[trigger] cells[i]).note == Note::Empty,
    ensures
        resolve_prefix(cells, n, r, at) == r,
    decreases n,
{
    if n > 0 {
        lemma_empty_prefix_is_silent(cells, (n - 1) as nat, r, at);
        assert(cells[n - 1].note == Note::Empty);
    }
}

/// A note whose instrument field is 0 plays on the instrument that the
/// previous note of the same track resolved to, and keeps it as the track's
/// last instrument.
pub proof fn lemma_instrument_repeat(r: Resolver, track: int, first: TrackEvent, second: TrackEvent, at: u32)
    requires
        0 <= track < r.bindings.len(),
        r.bindings.len() == r.last.len(),
        first.note is Key,
        first.instrument > 0,
        second.note is Key,
        second.instrument == 0,
    ensures
        ({
            let r1 = resolve_cell(r, track, first, at);
            let r2 = resolve_cell(r1, track, second, at);
            &&& resolved_instrument(r1, track, second) == first.instrument - 1
            &&& r2.last[track] == first.instrument - 1
            &&& r2.events.len() > r1.events.len() && r2.events.last().event is NoteOn
                ==> r2.events.last().module_index == first.instrument - 1
        }),
{
    let r1 = resolve_cell(r, track, first, at);
    let inst = (first.instrument - 1) as u8;
    lemma_release_track_extends(r, track, at);
    let m = release_track(r, track, at);
    let m1 = Resolver { last: m.last.update(track, inst), ..m };
    assert(m1.last[track] == inst);
    assert(r1.last == m1.last);
    assert(r1.last[track] == inst);
    lemma_release_track_extends(r1, track, at);
    let n = release_track(r1, track, at);
    assert(n.last == r1.last);
    assert(resolved_instrument(r1, track, second) == inst);
}

/// A cell on another track leaves this track's last instrument alone, so a
/// repeat still finds the instrument of the track's own previous note.
pub proof fn lemma_other_track_keeps_instrument(r: Resolver, other: int, cell: TrackEvent, track: int, at: u32)
    requires
        0 <= other < r.bindings.len(),
        0 <= track < r.last.len(),
        r.bindings.len() == r.last.len(),
        other != track,
    ensures
        resolve_cell(r, other, cell, at).last[track] == r.last[track],
        resolve_cell(r, other, cell, at).last.len() == r.last.len(),
{
    lemma_release_track_extends(r, other, at);
}

/// On a fresh track, whose last instrument is 0, a note with instrument
/// field 0 plays on instrument 0.
pub proof fn lemma_fresh_track_instrument(r: Resolver, track: int, cell: TrackEvent)
    requires
        0 <= track < r.last.len(),
        r.last[track] == 0,
        cell.instrument == 0,
    ensures
        resolved_instrument(r, track, cell) == 0,
{
}

/// A note on a track whose previous voice still sounds first releases that
/// voice, then starts the new one: a NoteOff and then a NoteOn, both at the
/// same sample offset, and nothing else.
pub proof fn lemma_voice_steal(r: Resolver, track: int, cell: TrackEvent, at: u32)
    requires
        0 <= track < r.bindings.len(),
        r.bindings.len() == r.last.len(),
        cell.note is Key,
        r.bindings[track] is Some,
        r.bindings[track]->0 < r.voices.len(),
        r.voices[r.bindings[track]->0 as int].is_on,
    ensures
        ({
            let id = r.bindings[track]->0;
            let v = r.voices[id as int];
            let s = resolve_cell(r, track, cell, at);
            let n = r.events.len() as int;
            &&& s.events.len() == n + 2
            &&& s.events.subrange(0, n) == r.events
            &&& s.events[n] == (TimedEvent {
                module_index: v.instrument,
                position: at,
                event: Event::NoteOff { id, key: v.key, vel: v.vel },
            })
            &&& s.events[n + 1].position == at
            &&& s.events[n + 1].event matches Event::NoteOn { key, vel, .. } && key == cell.note->0 && vel == clamp_velocity(cell.volume)
        }),
{
    let id = r.bindings[track]->0;
    let m = release_track(r, track, at);
    assert(!m.voices[id as int].is_on);
    let inst = resolved_instrument(r, track, cell);
    let m2 = Resolver { last: m.last.update(track, inst), ..m };
    if !(0 <= m2.next_id < m2.voices.len() && !m2.voices[m2.next_id as int].is_on) {
        lemma_first_free_exists(m2.voices, 0, id as nat);
    }
    let s = resolve_cell(r, track, cell, at);
    assert(s.events.subrange(0, r.events.len() as int) =~= r.events);
}

/// Resolving more cells of a row only appends to the events.
pub proof fn lemma_resolve_prefix_grows(cells: Seq<TrackEvent>, m: nat, n: nat, r: Resolver, at: u32)
    requires
        m <= n <= cells.len(),
        cells.len() == r.bindings.len(),
        r.bindings.len() == r.last.len(),
    ensures
        resolve_prefix(cells, m, r, at).events.is_prefix_of(resolve_prefix(cells, n, r, at).events),
    decreases n - m,
{
    if m < n {
        lemma_resolve_prefix_grows(cells, m, (n - 1) as nat, r, at);
        let prev = resolve_prefix(cells, (n - 1) as nat, r, at);
        lemma_resolve_prefix_extends(cells, (n - 1) as nat, r, at);
        lemma_resolve_cell_extends(prev, n - 1, cells[n - 1], at);
        let a = resolve_prefix(cells, m, r, at).events;
        let b = resolve_prefix(cells, n, r, at).events;
        assert(a =~= b.subrange(0, a.len() as int)) by {
            assert(a =~= prev.events.subrange(0, a.len() as int));
            assert(prev.events =~= b.subrange(0, prev.events.len() as int));
        }
    }
}

/// Cells on other tracks leave a track's last instrument alone.
proof fn lemma_prefix_keeps_instrument(cells: Seq<TrackEvent>, n: nat, r: Resolver, at: u32, track: int)
    requires
        n <= cells.len(),
        cells.len() == r.bindings.len(),
        r.bindings.len() == r.last.len(),
        0 <= track < cells.len(),
        n <= track,
    ensures
        resolve_prefix(cells, n, r, at).last[track] == r.last[track],
    decreases n,
{
    if n > 0 {
        lemma_prefix_keeps_instrument(cells, (n - 1) as nat, r, at, track);
        lemma_resolve_prefix_extends(cells, (n - 1) as nat, r, at);
        lemma_other_track_keeps_instrument(resolve_prefix(cells, (n - 1) as nat, r, at), n - 1, cells[n - 1], track, at);
    }
}

/// In a whole row, a note on `track` whose instrument field is 0 plays on the
/// instrument the track used last before the row (0 on a fresh track), and
/// that stays the track's last instrument after the row.
pub proof fn lemma_row_instrument_repeat(cells: Seq<TrackEvent>, r: Resolver, at: u32, track: int)
    requires
        cells.len() == r.bindings.len(),
        r.bindings.len() == r.last.len(),
        r.voices.len() <= usize::MAX,
        0 <= track < cells.len(),
        cells[track].note is Key,
        cells[track].instrument == 0,
    ensures
        resolved_instrument(resolve_prefix(cells, track as nat, r, at), track, cells[track]) == r.last[track],
        resolve_row(cells, r, at).last[track] == r.last[track],
        ({
            let p = resolve_prefix(cells, track as nat, r, at);
            let q = resolve_prefix(cells, (track + 1) as nat, r, at);
            q.events.len() > p.events.len() && q.events.last().event is NoteOn ==> {
                &&& q.events.last().module_index == r.last[track] as usize
                &&& q.events.last().event matches Event::NoteOn { id, .. } && q.voices[id as int].instrument == r.last[track] as usize
            }
        }),
{
    lemma_prefix_keeps_instrument(cells, track as nat, r, at, track);
    let p = resolve_prefix(cells, track as nat, r, at);
    lemma_resolve_prefix_extends(cells, track as nat, r, at);
    lemma_release_track_extends(p, track, at);
    let m = release_track(p, track, at);
    let inst = resolved_instrument(p, track, cells[track]);
    let m2 = Resolver { last: m.last.update(track, inst), ..m };
    lemma_pick_voice_in_range(m2.voices, m2.next_id as int);
    let q = resolve_prefix(cells, (track + 1) as nat, r, at);
    assert(q == resolve_cell(p, track, cells[track], at));
    assert(inst == r.last[track]);
    match pick_voice(m2.voices, m2.next_id as int) {
        Some(id) => {
            assert(id as usize as int == id);
            assert(q.events.last() == (TimedEvent {
                module_index: inst as usize,
                position: at,
                event: Event::NoteOn { id: id as usize, key: cells[track].note->0, vel: clamp_velocity(cells[track].volume) },
            }));
            assert(q.voices[id as int] == sounding(id, cells[track].note->0, clamp_velocity(cells[track].volume), inst as usize));
        },
        None => {
            assert(q.events == m.events);
            if q.events.len() > p.events.len() {
                assert(q.events.last().event is NoteOff);
            }
        },
    }
    lemma_row_rest_keeps_instrument(cells, (track + 1) as nat, cells.len(), r, at, track);
}

proof fn lemma_row_rest_keeps_instrument(cells: Seq<TrackEvent>, m: nat, n: nat, r: Resolver, at: u32, track: int)
    requires
        m <= n <= cells.len(),
        cells.len() == r.bindings.len(),
        r.bindings.len() == r.last.len(),
        0 <= track < m,
    ensures
        resolve_prefix(cells, n, r, at).last[track] == resolve_prefix(cells, m, r, at).last[track],
    decreases n - m,
{
    if m < n {
        lemma_row_rest_keeps_instrument(cells, m, (n - 1) as nat, r, at, track);
        lemma_resolve_prefix_extends(cells, (n - 1) as nat, r, at);
        lemma_other_track_keeps_instrument(resolve_prefix(cells, (n - 1) as nat, r, at), n - 1, cells[n - 1], track, at);
    }
}

/// In a whole row, a note on `track` whose previous voice still sounds when
/// its turn comes produces a NoteOff for that voice (its id, key and
/// velocity) immediately followed by the NoteOn of the new note, both at the
/// row's sample offset; later tracks only append after them.
pub proof fn lemma_row_voice_steal(cells: Seq<TrackEvent>, r: Resolver, at: u32, track: int)
    requires
        cells.len() == r.bindings.len(),
        r.bindings.len() == r.last.len(),
        0 <= track < cells.len(),
        cells[track].note is Key,
        ({
            let p = resolve_prefix(cells, track as nat, r, at);
            &&& p.bindings[track] is Some
            &&& p.bindings[track]->0 < p.voices.len()
            &&& p.voices[p.bindings[track]->0 as int].is_on
        }),
    ensures
        ({
            let p = resolve_prefix(cells, track as nat, r, at);
            let id = p.bindings[track]->0;
            let v = p.voices[id as int];
            let f = resolve_row(cells, r, at);
            let n = p.events.len() as int;
            &&& f.events.len() >= n + 2
            &&& f.events[n] == (TimedEvent { module_index: v.instrument, position: at, event: Event::NoteOff { id, key: v.key, vel: v.vel } })
            &&& f.events[n + 1].position == at
            &&& f.events[n + 1].event matches Event::NoteOn { key, vel, .. } && key == cells[track].note->0 && vel
                == clamp_velocity(cells[track].volume)
        }),
{
    let p = resolve_prefix(cells, track as nat, r, at);
    lemma_resolve_prefix_extends(cells, track as nat, r, at);
    lemma_voice_steal(p, track, cells[track], at);
    lemma_resolve_prefix_grows(cells, (track + 1) as nat, cells.len(), r, at);
    let q = resolve_prefix(cells, (track + 1) as nat, r, at);
    let f = resolve_row(cells, r, at);
    let n = p.events.len() as int;
    assert(f.events[n] == q.events[n]);
    assert(f.events[n + 1] == q.events[n + 1]);
}

/// Some track of `b` holds voice `v`.
pub open spec fn holds(b: Seq<Option<usize>>, v: usize) -> bool {
    exists|t: int| 0 <= t < b.len() && b[t] == Some(v)
}

/// Every voice a track holds exists and sounds, and no two tracks hold the
/// same voice.
pub open spec fn bindings_sound(r: Resolver) -> bool {
    &&& forall|t: int|
        0 <= t < r.bindings.len() && (#[trigger] r.bindings[t]) is Some ==> r.bindings[t]->0 < r.voices.len()
            && r.voices[r.bindings[t]->0 as int].is_on
    &&& forall|t: int, u: int|
        0 <= t < r.bindings.len() && 0 <= u < r.bindings.len() && t != u && (#[trigger] r.bindings[t]) is Some ==> r.bindings[t]
            != #[trigger] r.bindings[u]
}

/// `s` came from `r` without touching voices that sounded in `r` and that no
/// track of `r` held: they are as they were, and no track of `s` holds them.
pub open spec fn spares_others(r: Resolver, s: Resolver) -> bool {
    forall|v: usize|
        (v as int) < r.voices.len() && r.voices[v as int].is_on && !holds(r.bindings, v) ==> #[trigger] s.voices[v as int]
            == r.voices[v as int] && !holds(s.bindings, v)
}

proof fn lemma_release_track_sound(r: Resolver, track: int, at: u32)
    requires
        0 <= track < r.bindings.len(),
        bindings_sound(r),
    ensures
        bindings_sound(release_track(r, track, at)),
        spares_others(r, release_track(r, track, at)),
{
    let s = release_track(r, track, at);
    lemma_release_track_extends(r, track, at);
    assert forall|v: usize|
        (v as int) < r.voices.len() && r.voices[v as int].is_on && !holds(r.bindings, v) implies #[trigger] s.voices[v as int]
        == r.voices[v as int] && !holds(s.bindings, v) by {
        if holds(s.bindings, v) {
            let t = choose|t: int| 0 <= t < s.bindings.len() && s.bindings[t] == Some(v);
            assert(r.bindings[t] == Some(v));
        }
        if r.bindings[track] is Some {
            assert(r.bindings[track]->0 != v);
        }
    }
    assert forall|t: int| 0 <= t < s.bindings.len() && (#[trigger] s.bindings[t]) is Some implies s.bindings[t]->0
        < s.voices.len() && s.voices[s.bindings[t]->0 as int].is_on by {
        assert(r.bindings[t] == s.bindings[t]);
        if r.bindings[track] is Some {
            assert(r.bindings[track] != r.bindings[t]);
        }
    }
}

/// Resolving a cell keeps the bindings sound and spares the voices of other
/// patterns.
pub proof fn lemma_resolve_cell_sound(r: Resolver, track: int, cell: TrackEvent, at: u32)
    requires
        0 <= track < r.bindings.len(),
        r.bindings.len() == r.last.len(),
        r.voices.len() <= usize::MAX,
        bindings_sound(r),
    ensures
        bindings_sound(resolve_cell(r, track, cell, at)),
        spares_others(r, resolve_cell(r, track, cell, at)),
{
    lemma_release_track_sound(r, track, at);
    lemma_release_track_extends(r, track, at);
    match cell.note {
        Note::Key(k) => {
            let m = release_track(r, track, at);
            let inst = resolved_instrument(r, track, cell);
            let m2 = Resolver { last: m.last.update(track, inst), ..m };
            let s = resolve_cell(r, track, cell, at);
            match pick_voice(m2.voices, m2.next_id as int) {
                Some(id) => {
                    lemma_pick_voice_in_range(m2.voices, m2.next_id as int);
                    assert(m2.bindings == m.bindings && m2.voices == m.voices);
                    assert(id as usize as int == id);
                    assert(!holds(m2.bindings, id as usize)) by {
                        if holds(m2.bindings, id as usize) {
                            let t = choose|t: int| 0 <= t < m2.bindings.len() && m2.bindings[t] == Some(id as usize);
                            assert(m.bindings[t] is Some);
                            assert(m.voices[id as int].is_on);
                        }
                    }
                    assert forall|t: int| 0 <= t < s.bindings.len() && (#[trigger] s.bindings[t]) is Some implies s.bindings[t]->0
                        < s.voices.len() && s.voices[s.bindings[t]->0 as int].is_on by {
                        if t != track {
                            assert(s.bindings[t] == m2.bindings[t]);
                            assert(m.bindings[t] is Some);
                            assert(m2.bindings[t] != Some(id as usize));
                        }
                    }
                    assert forall|t: int, u: int|
                        0 <= t < s.bindings.len() && 0 <= u < s.bindings.len() && t != u && (#[trigger] s.bindings[t]) is Some
                            implies s.bindings[t] != #[trigger] s.bindings[u] by {
                        if t != track && u != track {
                            assert(m2.bindings[t] != m2.bindings[u]);
                        } else if t == track {
                            assert(m2.bindings[u] != Some(id as usize));
                        } else {
                            assert(m2.bindings[t] != Some(id as usize));
                        }
                    }
                    assert forall|v: usize|
                        (v as int) < r.voices.len() && r.voices[v as int].is_on && !holds(r.bindings, v) implies #[trigger] s.voices[v as int]
                        == r.voices[v as int] && !holds(s.bindings, v) by {
                        assert(m.voices[v as int] == r.voices[v as int] && !holds(m.bindings, v));
                        assert(v != id);
                        assert(s.bindings[track] == Some(id as usize));
                        if holds(s.bindings, v) {
                            let t = choose|t: int| 0 <= t < s.bindings.len() && s.bindings[t] == Some(v);
                            assert(t != track);
                            assert(m2.bindings[t] == Some(v));
                        }
                    }
                },
                None => {
                    assert(spares_others(r, s));
                },
            }
        },
        _ => {},
    }
}

/// Resolving the first `n` cells of a row keeps the bindings sound and
/// spares the voices of other patterns.
pub proof fn lemma_resolve_prefix_sound(cells: Seq<TrackEvent>, n: nat, r: Resolver, at: u32)
    requires
        n <= cells.len(),
        cells.len() == r.bindings.len(),
        r.bindings.len() == r.last.len(),
        r.voices.len() <= usize::MAX,
        bindings_sound(r),
    ensures
        bindings_sound(resolve_prefix(cells, n, r, at)),
        spares_others(r, resolve_prefix(cells, n, r, at)),
    decreases n,
{
    if n > 0 {
        let prev = resolve_prefix(cells, (n - 1) as nat, r, at);
        lemma_resolve_prefix_sound(cells, (n - 1) as nat, r, at);
        lemma_resolve_prefix_extends(cells, (n - 1) as nat, r, at);
        lemma_resolve_cell_sound(prev, n - 1, cells[n - 1], at);
        let s = resolve_prefix(cells, n, r, at);
        assert forall|v: usize|
            (v as int) < r.voices.len() && r.voices[v as int].is_on && !holds(r.bindings, v) implies #[trigger] s.voices[v as int]
            == r.voices[v as int] && !holds(s.bindings, v) by {
            assert(prev.voices[v as int] == r.voices[v as int] && !holds(prev.bindings, v));
        }
    }
}

/// Releasing the first `n` tracks keeps the bindings sound and spares the
/// voices of other patterns.
pub proof fn lemma_release_prefix_sound(r: Resolver, n: nat, at: u32)
    requires
        n <= r.bindings.len(),
        bindings_sound(r),
    ensures
        bindings_sound(release_prefix(r, n, at)),
        spares_others(r, release_prefix(r, n, at)),
    decreases n,
{
    if n > 0 {
        let prev = release_prefix(r, (n - 1) as nat, at);
        lemma_release_prefix_sound(r, (n - 1) as nat, at);
        lemma_release_prefix_clears(r, (n - 1) as nat, at);
        lemma_release_track_sound(prev, n - 1, at);
        let s = release_prefix(r, n, at);
        assert forall|v: usize|
            (v as int) < r.voices.len() && r.voices[v as int].is_on && !holds(r.bindings, v) implies #[trigger] s.voices[v as int]
            == r.voices[v as int] && !holds(s.bindings, v) by {
            assert(prev.voices[v as int] == r.voices[v as int] && !holds(prev.bindings, v));
        }
    }
}

/// A cell on another track leaves alone a voice that `track` holds: the
/// binding stays and the voice keeps its state.
proof fn lemma_cell_keeps_other_binding(r: Resolver, other: int, cell: TrackEvent, at: u32, track: int)
    requires
        0 <= other < r.bindings.len(),
        0 <= track < r.bindings.len(),
        other != track,
        r.bindings.len() == r.last.len(),
        r.voices.len() <= usize::MAX,
        bindings_sound(r),
        r.bindings[track] is Some,
    ensures
        resolve_cell(r, other, cell, at).bindings[track] == r.bindings[track],
        resolve_cell(r, other, cell, at).voices[r.bindings[track]->0 as int] == r.voices[r.bindings[track]->0 as int],
{
    let v = r.bindings[track]->0;
    assert(r.voices[v as int].is_on);
    if r.bindings[other] is Some {
        assert(r.bindings[other] != r.bindings[track]);
    }
    let m = release_track(r, other, at);
    lemma_release_track_extends(r, other, at);
    assert(m.voices[v as int] == r.voices[v as int]);
    match cell.note {
        Note::Key(k) => {
            let inst = resolved_instrument(r, other, cell);
            let m2 = Resolver { last: m.last.update(other, inst), ..m };
            lemma_pick_voice_in_range(m2.voices, m2.next_id as int);
        },
        _ => {},
    }
}

proof fn lemma_prefix_keeps_binding(cells: Seq<TrackEvent>, n: nat, r: Resolver, at: u32, track: int)
    requires
        n <= track < cells.len(),
        cells.len() == r.bindings.len(),
        r.bindings.len() == r.last.len(),
        r.voices.len() <= usize::MAX,
        bindings_sound(r),
        r.bindings[track] is Some,
    ensures
        resolve_prefix(cells, n, r, at).bindings[track] == r.bindings[track],
        resolve_prefix(cells, n, r, at).voices[r.bindings[track]->0 as int] == r.voices[r.bindings[track]->0 as int],
    decreases n,
{
    if n > 0 {
        let prev = resolve_prefix(cells, (n - 1) as nat, r, at);
        lemma_prefix_keeps_binding(cells, (n - 1) as nat, r, at, track);
        lemma_resolve_prefix_extends(cells, (n - 1) as nat, r, at);
        lemma_resolve_prefix_sound(cells, (n - 1) as nat, r, at);
        lemma_cell_keeps_other_binding(prev, n - 1, cells[n - 1], at, track);
    }
}

/// With sound bindings before the row, a note on `track` whose voice sounds
/// before the row produces, in the row's events, a NoteOff for that voice
/// (its id, key and velocity as before the row) immediately followed by the
/// NoteOn of the new note, both at the row's sample offset.
pub proof fn lemma_row_voice_steal_from_start(cells: Seq<TrackEvent>, r: Resolver, at: u32, track: int)
    requires
        cells.len() == r.bindings.len(),
        r.bindings.len() == r.last.len(),
        r.voices.len() <= usize::MAX,
        bindings_sound(r),
        0 <= track < cells.len(),
        cells[track].note is Key,
        r.bindings[track] is Some,
    ensures
        ({
            let id = r.bindings[track]->0;
            let v = r.voices[id as int];
            let f = resolve_row(cells, r, at);
            let n = resolve_prefix(cells, track as nat, r, at).events.len() as int;
            &&& f.events.len() >= n + 2
            &&& f.events[n] == (TimedEvent { module_index: v.instrument, position: at, event: Event::NoteOff { id, key: v.key, vel: v.vel } })
            &&& f.events[n + 1].position == at
            &&& f.events[n + 1].event matches Event::NoteOn { key, vel, .. } && key == cells[track].note->0 && vel
                == clamp_velocity(cells[track].volume)
        }),
{
    lemma_prefix_keeps_binding(cells, track as nat, r, at, track);
    lemma_resolve_prefix_extends(cells, track as nat, r, at);
    let id = r.bindings[track]->0;
    assert(r.voices[id as int].is_on);
    lemma_row_voice_steal(cells, r, at, track);
}

} // verus!
