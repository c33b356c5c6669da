use corrosion::clock::tick_length_samples;
use corrosion::engine::{DAWEngine, DEFAULT_PPQ, DEFAULT_TEMPO};
use corrosion::events::{Event, TimedEvent};
use corrosion::pattern::{format_note, Note, Pattern, TrackEvent};
use corrosion::playlist::{Clip, PatternClip};
use corrosion::voices::{VoiceError, VoicePool, VOICE_POOL_SIZE};

fn cell(note: Note, instrument: u8, volume: u8) -> TrackEvent {
    TrackEvent { note, instrument, volume }
}

fn engine_with(pat: Pattern) -> DAWEngine {
    let mut e = DAWEngine::new(48000, 2, 512);
    e.add_pattern(pat);
    e
}

#[test]
fn tick_length_at_default_tempo() {
    assert_eq!(tick_length_samples(125, 96, 48000), 240);
    assert_eq!(tick_length_samples(120, 96, 44100), 229);
}

#[test]
fn tick_length_is_positive_for_usual_settings() {
    for tempo in [1u16, 60, 125, 300, 999] {
        for ppq in [1u16, 24, 96, 960] {
            assert!(tick_length_samples(tempo, ppq, 48000) > 0);
            assert_eq!(tick_length_samples(tempo, ppq, 48000), tick_length_samples(tempo, ppq, 48000));
        }
    }
}

#[test]
fn tick_length_of_zero_tempo_is_zero() {
    assert_eq!(tick_length_samples(0, 96, 48000), 0);
    assert_eq!(tick_length_samples(125, 0, 48000), 0);
}

#[test]
fn tick_length_saturates() {
    assert_eq!(tick_length_samples(1, 1, u32::MAX), u32::MAX);
}

#[test]
fn new_engine_defaults() {
    let e = DAWEngine::new(48000, 2, 512);
    assert_eq!(e.project.ppq, DEFAULT_PPQ);
    assert_eq!(e.project.tempo, DEFAULT_TEMPO);
    assert_eq!(e.tick_length, 240);
    assert_eq!(e.state.notes.notes.len(), VOICE_POOL_SIZE);
    assert!(!e.state.playing);
}

#[test]
fn set_tempo_recomputes_tick_length() {
    let mut e = DAWEngine::new(48000, 2, 512);
    e.set_tempo(150);
    assert_eq!(e.project.tempo, 150);
    assert_eq!(e.tick_length, 200);
}

#[test]
fn free_then_allocate_returns_same_slot() {
    let mut pool = VoicePool::new(8);
    let a = pool.allocate(3, 60, 100, 0).unwrap();
    assert_eq!(a, 3);
    let b = pool.allocate(3, 62, 100, 0).unwrap();
    assert_eq!(b, 0);
    pool.free(a);
    assert!(!pool.notes[a].is_on);
    assert_eq!(pool.notes[a].key, 60);
    let c = pool.allocate(3, 64, 90, 1).unwrap();
    assert_eq!(c, a);
    assert!(pool.notes[c].is_on);
    assert_eq!(pool.notes[c].key, 64);
}

#[test]
fn allocate_out_of_range_slot_takes_first_free() {
    let mut pool = VoicePool::new(4);
    assert_eq!(pool.allocate(100, 60, 100, 0), Ok(0));
    assert_eq!(pool.allocate(0, 61, 100, 0), Ok(1));
}

#[test]
fn exhausted_pool_refuses() {
    let mut pool = VoicePool::new(2);
    assert_eq!(pool.allocate(0, 60, 100, 0), Ok(0));
    assert_eq!(pool.allocate(0, 61, 100, 0), Ok(1));
    assert_eq!(pool.allocate(0, 62, 100, 0), Err(VoiceError::Exhausted));
    assert_eq!(pool.notes[0].key, 60);
}

#[test]
fn full_pass_stops_and_rewinds() {
    let pat = Pattern::new(2, 4);
    let mut e = engine_with(pat);
    let row_length = e.state.patterns[0].row_length;
    assert_eq!(row_length, 24);
    e.pattern_play(0, 0);
    for k in 0..(4 * row_length) {
        assert!(e.state.patterns[0].playing, "stopped early at tick {}", k);
        e.pattern_tick(0, 0);
    }
    let s = &e.state.patterns[0];
    assert!(!s.playing);
    assert_eq!(s.position, 0);
    assert_eq!(s.row, 0);
    assert_eq!(s.ticks_passed, 0);
}

#[test]
fn play_seeks_row_and_ticks() {
    let mut e = engine_with(Pattern::new(1, 8));
    e.pattern_play(0, 50);
    let s = &e.state.patterns[0];
    assert!(s.playing);
    assert_eq!(s.position, 50);
    assert_eq!(s.row, 2);
    assert_eq!(s.ticks_passed, 2);
}

#[test]
fn empty_row_emits_nothing() {
    let mut e = engine_with(Pattern::new(4, 2));
    e.pattern_play(0, 0);
    e.pattern_tick(0, 0);
    assert!(e.state.event_list.is_empty());
    assert_eq!(e.state.next_note_id, 0);
}

#[test]
fn instrument_repeats_on_track() {
    let mut pat = Pattern::new(1, 2);
    pat.rows[0][0] = cell(Note::Key(60), 3, 100);
    pat.rows[1][0] = cell(Note::Key(62), 0, 100);
    let mut e = engine_with(pat);
    e.pattern_play(0, 0);
    for _ in 0..48 {
        e.pattern_tick(0, 7);
    }
    let ons: Vec<&TimedEvent> = e.state.event_list.iter().filter(|t| matches!(t.event, Event::NoteOn { .. })).collect();
    assert_eq!(ons.len(), 2);
    assert_eq!(ons[0].module_index, 2);
    assert_eq!(ons[1].module_index, 2);
}

#[test]
fn fresh_track_defaults_to_instrument_zero() {
    let mut pat = Pattern::new(1, 1);
    pat.rows[0][0] = cell(Note::Key(60), 0, 100);
    let mut e = engine_with(pat);
    e.pattern_play(0, 0);
    e.pattern_tick(0, 0);
    assert_eq!(e.state.event_list.len(), 1);
    assert_eq!(e.state.event_list[0].module_index, 0);
}

#[test]
fn new_note_steals_previous_voice() {
    let mut pat = Pattern::new(1, 2);
    pat.rows[0][0] = cell(Note::Key(60), 1, 100);
    pat.rows[1][0] = cell(Note::Key(62), 0, 90);
    let mut e = engine_with(pat);
    e.pattern_play(0, 0);
    e.pattern_tick(0, 3);
    for _ in 1..24 {
        e.pattern_tick(0, 0);
    }
    e.pattern_tick(0, 11);
    let ev = &e.state.event_list;
    assert_eq!(ev.len(), 3);
    assert_eq!(ev[0], TimedEvent { module_index: 0, position: 3, event: Event::NoteOn { id: 0, key: 60, vel: 100 } });
    assert_eq!(ev[1], TimedEvent { module_index: 0, position: 11, event: Event::NoteOff { id: 0, key: 60, vel: 100 } });
    match ev[2].event {
        Event::NoteOn { key, vel, .. } => {
            assert_eq!(key, 62);
            assert_eq!(vel, 90);
        }
        _ => panic!("expected a NoteOn"),
    }
    assert_eq!(ev[2].position, 11);
}

#[test]
fn note_off_releases_voice() {
    let mut pat = Pattern::new(1, 2);
    pat.rows[0][0] = cell(Note::Key(60), 1, 100);
    pat.rows[1][0] = cell(Note::Off, 0, 128);
    let mut e = engine_with(pat);
    e.pattern_play(0, 0);
    for _ in 0..25 {
        e.pattern_tick(0, 5);
    }
    let ev = &e.state.event_list;
    assert_eq!(ev.len(), 2);
    assert_eq!(ev[1].event, Event::NoteOff { id: 0, key: 60, vel: 100 });
    assert!(!e.state.notes.notes[0].is_on);
    assert_eq!(e.state.patterns[0].note_ids[0], None);
}

#[test]
fn cut_and_fade_release_voice() {
    for stop in [Note::Cut, Note::Fade] {
        let mut pat = Pattern::new(1, 2);
        pat.rows[0][0] = cell(Note::Key(48), 1, 64);
        pat.rows[1][0] = cell(stop, 0, 128);
        let mut e = engine_with(pat);
        e.pattern_play(0, 0);
        for _ in 0..25 {
            e.pattern_tick(0, 0);
        }
        assert_eq!(e.state.event_list.len(), 2);
        assert_eq!(e.state.event_list[1].event, Event::NoteOff { id: 0, key: 48, vel: 64 });
    }
}

#[test]
fn off_on_silent_track_emits_nothing() {
    let mut pat = Pattern::new(1, 1);
    pat.rows[0][0] = cell(Note::Off, 0, 128);
    let mut e = engine_with(pat);
    e.pattern_play(0, 0);
    e.pattern_tick(0, 0);
    assert!(e.state.event_list.is_empty());
}

#[test]
fn previous_track_marker_is_counted_not_played() {
    let mut pat = Pattern::new(2, 1);
    pat.rows[0][0] = cell(Note::PreviousTrack, 0, 128);
    pat.rows[0][1] = cell(Note::Key(60), 0, 100);
    let mut e = engine_with(pat);
    e.pattern_play(0, 0);
    e.pattern_tick(0, 0);
    assert_eq!(e.state.unsupported, 1);
    assert_eq!(e.state.event_list.len(), 1);
}

#[test]
fn unset_volume_plays_full_velocity() {
    let mut pat = Pattern::new(1, 1);
    pat.rows[0][0] = cell(Note::Key(60), 0, 200);
    let mut e = engine_with(pat);
    e.pattern_play(0, 0);
    e.pattern_tick(0, 0);
    assert_eq!(e.state.event_list[0].event, Event::NoteOn { id: 0, key: 60, vel: 127 });
}

#[test]
fn single_note_pattern_end_to_end() {
    let mut pat = Pattern::new(1, 1);
    pat.rows[0][0] = cell(Note::Key(60), 1, 100);
    let mut e = engine_with(pat);
    e.state.playing = true;
    e.process(1);
    assert_eq!(e.state.event_list.len(), 1);
    assert_eq!(e.state.event_list[0], TimedEvent { module_index: 0, position: 0, event: Event::NoteOn { id: 0, key: 60, vel: 100 } });
    let row_length = e.state.patterns[0].row_length;
    for _ in 1..row_length {
        e.pattern_tick(0, 0);
    }
    let s = &e.state.patterns[0];
    assert_eq!((s.playing, s.row, s.position, s.ticks_passed), (false, 0, 0, 0));
    assert_eq!(e.state.event_list.len(), 1);
}

#[test]
fn one_row_of_ticks_moves_to_next_row() {
    let mut pat = Pattern::new(1, 2);
    pat.rows[0][0] = cell(Note::Key(60), 1, 100);
    let mut e = engine_with(pat);
    e.pattern_play(0, 0);
    for _ in 0..24 {
        e.pattern_tick(0, 0);
    }
    let s = &e.state.patterns[0];
    assert!(s.playing);
    assert_eq!((s.row, s.ticks_passed, s.position), (1, 0, 24));
}

#[test]
fn process_ticks_once_per_tick_length() {
    let mut pat = Pattern::new(1, 4);
    pat.rows[1][0] = cell(Note::Key(60), 1, 100);
    let mut e = engine_with(pat);
    e.state.playing = true;
    e.process(240 * 24 + 1);
    assert_eq!(e.state.event_list.len(), 1);
    assert_eq!(e.state.event_list[0].position, 240 * 24);
    assert_eq!(e.samples_passed, 1);
}

#[test]
fn paused_engine_does_nothing() {
    let mut pat = Pattern::new(1, 1);
    pat.rows[0][0] = cell(Note::Key(60), 1, 100);
    let mut e = engine_with(pat);
    e.process(1000);
    assert!(e.state.event_list.is_empty());
    assert_eq!(e.samples_passed, 0);
}

#[test]
fn song_mode_ticks_every_pattern() {
    let mut a = Pattern::new(1, 1);
    a.rows[0][0] = cell(Note::Key(60), 1, 100);
    let mut b = Pattern::new(1, 1);
    b.rows[0][0] = cell(Note::Key(64), 2, 100);
    let mut e = engine_with(a);
    e.add_pattern(b);
    e.switch_song_mode(true);
    e.pattern_play(0, 0);
    e.pattern_play(1, 0);
    e.state.playing = true;
    e.tick(0);
    assert_eq!(e.state.playlist.position, 1);
    assert_eq!(e.state.event_list.len(), 2);
    assert_eq!(e.state.event_list[0].module_index, 0);
    assert_eq!(e.state.event_list[1].module_index, 1);
}

#[test]
fn switching_mode_releases_all_voices() {
    let mut pat = Pattern::new(2, 2);
    pat.rows[0][0] = cell(Note::Key(60), 1, 100);
    pat.rows[0][1] = cell(Note::Key(64), 1, 100);
    let mut e = engine_with(pat);
    e.pattern_play(0, 0);
    e.pattern_tick(0, 0);
    e.clear_events();
    e.switch_song_mode(true);
    assert!(e.song_mode);
    assert!(!e.state.patterns[0].playing);
    assert_eq!(e.state.event_list.len(), 2);
    assert!(e.state.event_list.iter().all(|t| matches!(t.event, Event::NoteOff { .. })));
    assert!(e.state.notes.notes.iter().all(|n| !n.is_on));
    assert!(e.state.patterns[0].note_ids.iter().all(|n| n.is_none()));
}

#[test]
fn stop_keeps_position() {
    let mut e = engine_with(Pattern::new(1, 4));
    e.pattern_play(0, 30);
    e.pattern_stop(0);
    assert!(!e.state.patterns[0].playing);
    assert_eq!(e.state.patterns[0].position, 30);
}

#[test]
fn clip_of_pattern_spans_it() {
    let e = engine_with(Pattern::new(8, 64));
    let c = e.pattern_to_clip(0);
    assert_eq!(c, Clip::Pattern(PatternClip { pattern_index: 0, begin: 0, end: 24 * 64, offset: 0, track: 0 }));
    assert_eq!(c.length(), 1536);
    assert_eq!(c.pos_begin(), 0);
    assert_eq!(c.pos_end(), 1536);
    assert_eq!(c.offset(), 0);
    assert_eq!(c.track(), 0);
}

#[test]
fn new_pattern_is_empty() {
    let p = Pattern::new(3, 5);
    assert_eq!(p.rows.len(), 5);
    assert_eq!(p.rpb, 4);
    for row in &p.rows {
        assert_eq!(row.len(), 3);
        for c in row {
            assert_eq!(*c, cell(Note::Empty, 0, 128));
        }
    }
}

#[test]
fn note_codes_round_trip() {
    assert_eq!(Note::from_code(60), Note::Key(60));
    assert_eq!(Note::from_code(120), Note::PreviousTrack);
    assert_eq!(Note::from_code(128), Note::Off);
    assert_eq!(Note::from_code(129), Note::Cut);
    assert_eq!(Note::from_code(130), Note::Fade);
    assert_eq!(Note::from_code(255), Note::Empty);
    assert_eq!(Note::from_code(125), Note::Empty);
    for c in [0u8, 59, 119, 120, 128, 129, 130, 255] {
        assert_eq!(Note::from_code(c).code(), c);
    }
}

#[test]
fn notes_print_as_tracker_text() {
    assert_eq!(format_note(Note::Key(60)), "C-5");
    assert_eq!(format_note(Note::Key(61)), "C#5");
    assert_eq!(format_note(Note::Key(11)), "B-0");
    assert_eq!(format_note(Note::Key(119)), "B-9");
    assert_eq!(format_note(Note::Empty), "...");
    assert_eq!(format_note(Note::PreviousTrack), "<<<");
    assert_eq!(format_note(Note::Off), "Off");
    assert_eq!(format_note(Note::Cut), "Cut");
    assert_eq!(format_note(Note::Fade), "Fde");
    assert_eq!(format_note(Note::Key(200)), "???");
}
