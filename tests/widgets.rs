use corrosion::ui::canvas::{Command, TextCanvas};
use corrosion::ui::frame::{frame_commands, FrameColors, FrameGlyphs};
use corrosion::ui::theme::MAIN_COLOR;
use corrosion::ui::widgets::button::{Button, MouseAction};
use corrosion::ui::widgets::clock::Clock;
use corrosion::ui::widgets::menu::{main_menu, MenuItem, MENU_MAIN, MENU_PLAYBACK};
use corrosion::ui::widgets::rulers::LabelRuler;
use corrosion::ui::{pixel_to_char, Position};

#[test]
fn pixels_map_to_cells() {
    assert_eq!(pixel_to_char(0, 0), (0, 0));
    assert_eq!(pixel_to_char(15, 8), (1, 1));
    assert_eq!(pixel_to_char(1023, 767), (127, 95));
}

#[test]
fn menu_item_trigger_is_taken_once() {
    let mut item = MenuItem::new("Play");
    assert_eq!(item.label, "Play");
    assert!(!item.triggered());
    item.trigger();
    assert!(item.triggered());
    assert!(!item.triggered());
}

#[test]
fn main_menu_layout() {
    let m = main_menu();
    assert_eq!(m.pages.len(), 4);
    let labels: Vec<&str> = m.pages[MENU_MAIN].iter().map(|i| i.label.as_str()).collect();
    assert_eq!(labels, vec!["File", "Playback", "Settings", "Quit"]);
    assert_eq!(m.pages[MENU_PLAYBACK].len(), 3);
    assert_eq!(m.pos, Position { x: 64, y: 48 });
    assert_eq!(m.bg, MAIN_COLOR);
    assert!(!m.visible);
}

#[test]
fn menu_navigation() {
    let mut m = main_menu();
    m.select_previous();
    assert_eq!(m.selected_item, 0);
    for _ in 0..10 {
        m.select_next();
    }
    assert_eq!(m.selected_item, 3);
    m.activate();
    assert!(m.pages[MENU_MAIN][3].triggered());
    m.goto_page(MENU_PLAYBACK);
    assert_eq!(m.current_page, MENU_PLAYBACK);
    assert_eq!(m.selected_item, 0);
    m.visible = true;
    m.close();
    assert!(!m.visible);
    assert_eq!(m.current_page, 0);
}

#[test]
fn button_click_needs_press_and_release_on_label() {
    let mut b = Button::new(Position { x: 2, y: 3 }, " Go ".to_string(), (0, 1), (2, 3));
    b.handle_mouse(MouseAction::Down, 2 * 8, 3 * 8 + 4);
    assert!(b.pressed);
    assert!(b.hovered);
    assert_eq!(b.last_mouse_pos, Some((2, 3)));
    b.handle_mouse(MouseAction::Up, 5 * 8 + 7, 3 * 8);
    assert!(!b.pressed);
    assert!(b.clicked());
    assert!(!b.clicked());
}

#[test]
fn button_leaving_label_cancels_press() {
    let mut b = Button::new(Position { x: 2, y: 3 }, "Go".to_string(), (0, 1), (2, 3));
    b.handle_mouse(MouseAction::Down, 16, 24);
    b.handle_mouse(MouseAction::Move, 100, 24);
    assert!(!b.pressed);
    assert!(!b.hovered);
    b.handle_mouse(MouseAction::Up, 16, 24);
    assert!(!b.clicked());
}

#[test]
fn clock_readout() {
    let c = Clock {
        pos: Position { x: 0, y: 2 },
        bg_color: 0,
        color: 0,
        beat_color: 0,
        downbeat_color: 0,
        ticks: 96 * 4 + 24 + 5,
        ppq: 96,
        flash_on_beat: false,
        playing: true,
    };
    assert_eq!(c.readout(), (2, 17 % 16 + 1, 29));
}

#[test]
fn label_is_centred() {
    let r = LabelRuler { label: "Pattern".to_string(), bg_color: 0, ruler_color: 0, label_color: 0, start_x: 1, end_x: 127, y: 3 };
    assert_eq!(r.label_x(), 61);
}

#[test]
fn glyph_is_drawn_in_its_cell() {
    let mut font = vec![0u64; 128];
    font['A' as usize] = 0b1000_0001 | (1u64 << 63);
    let mut c = TextCanvas::new(16, 16, font);
    assert_eq!(c.buffer.len(), 256);
    c.char(1, 1, 7, 9, 'A');
    let at = |x: usize, y: usize| c.buffer[y * 16 + x];
    assert_eq!(at(8, 8), 7);
    assert_eq!(at(9, 8), 9);
    assert_eq!(at(15, 8), 7);
    assert_eq!(at(15, 15), 7);
    assert_eq!(at(14, 15), 9);
    assert_eq!(at(0, 0), 0);
    assert_eq!(at(7, 8), 0);
}

#[test]
fn text_wraps_at_newline() {
    let mut font = vec![u64::MAX; 128];
    font['b' as usize] = 0;
    let mut c = TextCanvas::new(24, 16, font);
    c.text(1, 0, 5, 6, "a\nb");
    assert_eq!(c.buffer[0 * 24 + 8], 5);
    assert_eq!(c.buffer[8 * 24 + 8], 6);
    assert_eq!(c.buffer[8 * 24 + 0], 0);
    assert_eq!(c.buffer[0 * 24 + 16], 0);
    let _ = Command::Char(0, 0, 0, 0, 'x');
}

#[test]
fn frame_around_region() {
    let g = FrameGlyphs { left: 'l', right: 'r', top: 't', bottom: 'b', top_left: '1', bottom_right: '2', top_right: '3', bottom_left: '4' };
    let c = FrameColors { left: 1, right: 2, top: 3, bottom: 4, top_left: 5, bottom_right: 6, top_right: 7, bottom_left: 8, bg: 9 };
    let cmds = frame_commands(Position { x: 2, y: 2 }, Position { x: 4, y: 3 }, true, g, c);
    let cells: Vec<(usize, usize, u32, u32, char)> = cmds
        .iter()
        .map(|cmd| match cmd {
            Command::Char(x, y, fg, bg, ch) => (*x, *y, *fg, *bg, *ch),
            Command::Text(..) => panic!("frames are drawn cell by cell"),
        })
        .collect();
    assert_eq!(
        cells,
        vec![
            (1, 2, 1, 9, 'l'),
            (4, 2, 2, 9, 'r'),
            (2, 1, 3, 9, 't'),
            (3, 1, 3, 9, 't'),
            (2, 3, 4, 9, 'b'),
            (3, 3, 4, 9, 'b'),
            (1, 1, 5, 9, '1'),
            (4, 3, 6, 9, '2'),
            (4, 1, 7, 9, '3'),
            (1, 3, 8, 9, '4'),
        ]
    );
}

#[test]
fn menu_is_centred_on_its_position() {
    let mut m = main_menu();
    assert_eq!(m.layout(), Some((64 - 4, 48 - 4, 8)));
    m.goto_page(MENU_PLAYBACK);
    assert_eq!(m.layout(), Some((64 - 2, 48 - 3, 5)));
    m.pos = Position { x: 1, y: 40 };
    assert_eq!(m.layout(), None);
    m.goto_page(9);
    assert_eq!(m.layout(), None);
}

#[test]
fn release_off_label_after_press_clicks_nothing() {
    let mut b = Button::new(Position { x: 2, y: 3 }, "Go".to_string(), (0, 1), (2, 3));
    b.handle_mouse(MouseAction::Down, 16, 24);
    b.handle_mouse(MouseAction::Up, 17, 25);
    b.handle_mouse(MouseAction::Down, 16, 24);
    b.handle_mouse(MouseAction::Up, 200, 24);
    assert!(!b.clicked());
}
