use corrosion::pattern::{Note, Pattern};
use corrosion::ui::widgets::pattern_editor::{push_digit, truncate_number, Move, PatternEditor, COLUMN_INSTRUMENT, COLUMN_NOTE, COLUMN_VOLUME, VOLUME_UNSET};
use corrosion::ui::Position;

fn editor(tracks: u8, rows: u8) -> PatternEditor {
    let mut e = PatternEditor::new(Position { x: 5, y: 6 }, Position { x: 100, y: 10 });
    e.pattern = Some(Pattern::new(tracks, rows));
    e
}

#[test]
fn digits_push_and_truncate() {
    assert_eq!(push_digit(12, 3), Some(123));
    assert_eq!(push_digit(0, 7), Some(7));
    assert_eq!(push_digit(6553, 5), Some(65535));
    assert_eq!(push_digit(6553, 6), None);
    assert_eq!(truncate_number(1234, 2), 34);
    assert_eq!(truncate_number(1234, 3), 234);
    assert_eq!(truncate_number(7, 3), 7);
}

#[test]
fn editor_needs_a_pattern() {
    let e = PatternEditor::new(Position { x: 0, y: 0 }, Position { x: 10, y: 10 });
    assert!(!e.cursor_valid());
    assert!(editor(2, 4).cursor_valid());
}

#[test]
fn cursor_walks_columns_and_tracks() {
    let mut e = editor(2, 4);
    e.move_cursor(Move::Left);
    assert_eq!((e.current_track, e.current_column), (0, COLUMN_NOTE));
    e.move_cursor(Move::Right);
    e.move_cursor(Move::Right);
    assert_eq!((e.current_track, e.current_column), (0, COLUMN_VOLUME));
    e.move_cursor(Move::Right);
    assert_eq!((e.current_track, e.current_column), (1, COLUMN_NOTE));
    e.move_cursor(Move::Left);
    assert_eq!((e.current_track, e.current_column), (0, COLUMN_VOLUME));
    e.set_ctrl(true);
    e.move_cursor(Move::Right);
    assert_eq!((e.current_track, e.current_column), (1, COLUMN_NOTE));
    e.move_cursor(Move::Right);
    e.move_cursor(Move::Left);
    assert_eq!((e.current_track, e.current_column), (0, COLUMN_INSTRUMENT));
}

#[test]
fn cursor_rows_page_and_scroll() {
    let mut e = editor(1, 20);
    e.move_cursor(Move::Up);
    assert_eq!(e.current_row, 0);
    e.move_cursor(Move::PageDown);
    assert_eq!(e.current_row, 3);
    e.move_cursor(Move::Down);
    assert_eq!(e.current_row, 4);
    assert_eq!(e.row_scroll, 1);
    for _ in 0..10 {
        e.move_cursor(Move::PageDown);
    }
    assert_eq!(e.current_row, 19);
    e.move_cursor(Move::PageUp);
    assert_eq!(e.current_row, 16);
    assert_eq!(e.row_scroll, 16);
}

#[test]
fn notes_go_in_the_note_column() {
    let mut e = editor(1, 2);
    e.enter_note(Note::Key(60));
    assert_eq!(e.pattern.as_ref().unwrap().rows[0][0].note, Note::Key(60));
    assert!(e.take_changed());
    assert!(!e.take_changed());
    e.move_cursor(Move::Right);
    e.take_changed();
    e.enter_note(Note::Key(62));
    assert_eq!(e.pattern.as_ref().unwrap().rows[0][0].note, Note::Key(60));
    assert!(!e.take_changed());
}

#[test]
fn typing_instrument_keeps_two_digits() {
    let mut e = editor(1, 2);
    e.move_cursor(Move::Right);
    assert_eq!(e.current_column, COLUMN_INSTRUMENT);
    for d in [1, 2, 3] {
        e.type_digit(d);
    }
    assert_eq!(e.pattern.as_ref().unwrap().rows[0][0].instrument, 23);
    e.clear_cell();
    assert_eq!(e.pattern.as_ref().unwrap().rows[0][0].instrument, 0);
}

#[test]
fn typing_volume_stores_valid_values() {
    let mut e = editor(1, 2);
    e.move_cursor(Move::Right);
    e.move_cursor(Move::Right);
    assert_eq!(e.temp_volume, VOLUME_UNSET);
    e.type_digit(9);
    e.type_digit(9);
    assert_eq!(e.pattern.as_ref().unwrap().rows[0][0].volume, 99);
    e.type_digit(9);
    assert_eq!(e.temp_volume, 999);
    assert_eq!(e.pattern.as_ref().unwrap().rows[0][0].volume, 99);
    e.move_cursor(Move::Down);
    assert_eq!(e.pattern.as_ref().unwrap().rows[0][0].volume, 127);
    assert_eq!(e.temp_volume, VOLUME_UNSET);
    e.move_cursor(Move::Up);
    assert_eq!(e.temp_volume, 127);
    e.clear_cell();
    assert_eq!(e.pattern.as_ref().unwrap().rows[0][0].volume, 128);
    assert_eq!(e.temp_volume, VOLUME_UNSET);
}

#[test]
fn click_focuses() {
    let mut e = editor(1, 1);
    e.click(6 * 8, 7 * 8);
    assert!(e.focused);
    e.click(0, 0);
    assert!(!e.focused);
}
