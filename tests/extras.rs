use corrosion::engine::DAWEngine;
use corrosion::events::{Event, PluginError};
use corrosion::midi::midi_message;
use corrosion::pattern::{Note, Pattern, TrackEvent};
use corrosion::playback::PlaylistState;
use corrosion::ui::canvas::{Command, TextCanvas};
use corrosion::ui::longest_line_len;

#[test]
fn midi_note_messages_use_voice_channel() {
    assert_eq!(midi_message(&Event::NoteOn { id: 3, key: 60, vel: 100 }, true), Some((0x93, 60, 100)));
    assert_eq!(midi_message(&Event::NoteOff { id: 0, key: 60, vel: 64 }, true), Some((0x80, 60, 64)));
    assert_eq!(midi_message(&Event::ExprVolume { id: 2, target_vol: 90 }, true), Some((0xB2, 7, 90)));
}

#[test]
fn midi_pitch_bend_bytes() {
    assert_eq!(midi_message(&Event::ExprPitch { id: 1, target_pitch: 200 }, true), Some((0xE1, 0, 8)));
    assert_eq!(midi_message(&Event::ExprPitch { id: 1, target_pitch: -300 }, true), Some((0xE1, 0, 0)));
    assert_eq!(midi_message(&Event::ExprPitch { id: 0, target_pitch: 5000 }, true), Some((0xE0, 1, 72)));
}

#[test]
fn midi_without_message() {
    assert_eq!(midi_message(&Event::ControlChange { index: 1, value: 2 }, true), None);
    assert_eq!(midi_message(&Event::NoteOn { id: 0, key: 60, vel: 100 }, false), None);
}

#[test]
fn pattern_admission() {
    let e = DAWEngine::new(48000, 2, 512);
    assert!(e.can_add_pattern(&Pattern::new(8, 64)));
    assert!(!e.can_add_pattern(&Pattern::new(8, 0)));
    let mut ragged = Pattern::new(2, 2);
    ragged.rows[1].pop();
    assert!(!e.can_add_pattern(&ragged));
    let mut fast = Pattern::new(1, 1);
    fast.rpb = 97;
    assert!(!e.can_add_pattern(&fast));
    fast.rpb = 0;
    assert!(!e.can_add_pattern(&fast));
}

#[test]
fn pattern_write_back_keeps_shape() {
    let mut e = DAWEngine::new(48000, 2, 512);
    e.add_pattern(Pattern::new(2, 4));
    let mut edited = Pattern::new(2, 4);
    edited.rows[1][1] = TrackEvent { note: Note::Key(50), instrument: 1, volume: 10 };
    assert!(e.set_pattern(0, edited));
    assert_eq!(e.project.patterns[0].rows[1][1].note, Note::Key(50));
    assert!(!e.set_pattern(0, Pattern::new(3, 4)));
    assert!(!e.set_pattern(0, Pattern::new(2, 5)));
    assert_eq!(e.project.patterns[0].rows[1][1].note, Note::Key(50));
}

#[test]
fn transport_stop_rewinds_and_releases() {
    let mut pat = Pattern::new(1, 4);
    pat.rows[0][0] = TrackEvent { note: Note::Key(60), instrument: 1, volume: 100 };
    let mut e = DAWEngine::new(48000, 2, 512);
    e.add_pattern(pat);
    e.state.playing = true;
    e.process(300);
    assert!(e.state.notes.notes[0].is_on);
    e.clear_events();
    e.stop();
    assert!(!e.state.playing);
    assert!(!e.state.notes.notes[0].is_on);
    assert_eq!(e.state.event_list.len(), 1);
    assert_eq!(e.state.event_list[0].event, Event::NoteOff { id: 0, key: 60, vel: 100 });
    let s = &e.state.patterns[0];
    assert_eq!((s.playing, s.position, s.row, s.ticks_passed), (false, 0, 0, 0));
}

#[test]
fn pattern_mode_loops_pattern() {
    let mut pat = Pattern::new(1, 1);
    pat.rows[0][0] = TrackEvent { note: Note::Key(60), instrument: 1, volume: 100 };
    let mut e = DAWEngine::new(48000, 2, 512);
    e.add_pattern(pat);
    e.state.playing = true;
    e.process(240 * 24 + 1);
    let ons = e.state.event_list.iter().filter(|t| matches!(t.event, Event::NoteOn { .. })).count();
    assert_eq!(ons, 2);
}

#[test]
fn playlist_seek() {
    let mut p = PlaylistState { position: 5 };
    p.seek(96);
    assert_eq!(p.position, 96);
}

#[test]
fn canvas_refuses_commands_off_canvas() {
    let mut c = TextCanvas::new(16, 16, vec![u64::MAX; 64]);
    assert!(!c.apply(&Command::Char(2, 0, 1, 2, 'a')));
    assert!(!c.apply(&Command::Char(0, 0, 1, 2, 'z')));
    assert!(c.buffer.iter().all(|&p| p == 0));
    assert!(c.apply(&Command::Char(1, 1, 1, 2, '!')));
    assert_eq!(c.buffer[8 * 16 + 8], 1);
    assert!(!c.apply(&Command::Text(0, 0, 1, 2, "abc".to_string())));
    assert!(c.apply(&Command::Text(0, 0, 3, 2, "!\n!".to_string())));
    assert_eq!(c.buffer[0], 3);
    assert_eq!(c.buffer[8 * 16], 3);
}

#[test]
fn longest_line() {
    assert_eq!(longest_line_len(""), 0);
    assert_eq!(longest_line_len("File\nPlayback\nQuit"), 8);
    assert_eq!(longest_line_len("ab\r\ncd"), 2);
    assert_eq!(longest_line_len("abc\n"), 3);
}

#[test]
fn plugin_errors_carry_detail() {
    let e = PluginError::LoadError("missing".to_string());
    match e {
        PluginError::LoadError(d) => assert_eq!(d, "missing"),
        _ => panic!("wrong variant"),
    }
    assert!(matches!(PluginError::NoSuchPlugin, PluginError::NoSuchPlugin));
    assert!(matches!(PluginError::InitError(String::new()), PluginError::InitError(_)));
}

#[test]
fn each_buffer_starts_a_fresh_event_list() {
    let mut pat = Pattern::new(1, 1);
    pat.rows[0][0] = TrackEvent { note: Note::Key(60), instrument: 1, volume: 100 };
    let mut e = DAWEngine::new(48000, 2, 512);
    e.add_pattern(pat);
    e.state.playing = true;
    e.process(16);
    assert_eq!(e.state.event_list.len(), 1);
    e.process(16);
    assert!(e.state.event_list.is_empty());
    e.process(512);
    assert!(e.state.event_list.iter().all(|t| t.position < 512));
}

#[test]
fn looping_patterns_start_over() {
    let mut e = DAWEngine::new(48000, 2, 512);
    e.add_pattern(Pattern::new(1, 2));
    e.loop_patterns = true;
    e.pattern_play(0, 0);
    for _ in 0..48 {
        e.pattern_tick(0, 0);
    }
    let s = &e.state.patterns[0];
    assert_eq!((s.playing, s.position, s.row, s.ticks_passed), (true, 0, 0, 0));
}
