use vstd::prelude::*;
use crate::pattern::{Note, Pattern};
use crate::playback::PatternState;
use crate::ui::Position;

verus! {

pub const COLUMN_NOTE: u8 = 0;

pub const COLUMN_INSTRUMENT: u8 = 1;

pub const COLUMN_VOLUME: u8 = 2;

/// The volume being typed when none is.
pub const VOLUME_UNSET: u16 = 65535;

/// A cursor move of the editor.
#[derive(Clone, Copy, PartialEq, Eq, Structural, Debug)]
pub enum Move {
    Up,
    Down,
    Left,
    Right,
    PageUp,
    PageDown,
}

/// `n` with decimal digit `d` appended, if that fits a `u16`.
pub open spec fn pushed_digit(n: u16, d: u8) -> Option<u16> {
    if n * 10 + d <= u16::MAX {
        Some((n * 10 + d) as u16)
    } else {
        None
    }
}

/// Appends decimal digit `d` (0..=9) to `n`; `None` when the result does
/// not fit.
pub fn push_digit(n: u16, d: u8) -> (r: Option<u16>)
    requires
        d < 10,
    ensures
        r == pushed_digit(n, d),
{
    if n > 6553 || (n == 6553 && d > 5) {
        None
    } else {
        Some(n * 10 + d as u16)
    }
}

/// Keeps the last `digits` decimal digits of `n` (1 to 4 digits).
pub fn truncate_number(n: u16, digits: u8) -> (r: u16)
    requires
        1 <= digits <= 4,
    ensures
        digits == 1 ==> r == n % 10,
        digits == 2 ==> r == n % 100,
        digits == 3 ==> r == n % 1000,
        digits == 4 ==> r == n % 10000,
{
    if digits == 1 {
        n % 10
    } else if digits == 2 {
        n % 100
    } else if digits == 3 {
        n % 1000
    } else {
        n % 10000
    }
}

/// Editing state of the pattern editor: the pattern copy being edited, the
/// cursor, and the volume being typed. Drawing is done elsewhere.
pub struct PatternEditor {
    pub pos1: Position,
    pub pos2: Position,
    pub focused: bool,
    pub ctrl_held: bool,
    pub changed: bool,
    /// Volume typed so far in the volume column, or `VOLUME_UNSET`.
    pub temp_volume: u16,
    pub pattern: Option<Pattern>,
    pub state: Option<PatternState>,
    pub text_color: u32,
    pub outer_bg: u32,
    pub inner_bg: u32,
    pub top_rim: u32,
    pub bottom_rim: u32,
    pub beat_color: u32,
    pub bar_color: u32,
    pub row_selection_color: u32,
    pub column_selection_color: u32,
    pub current_track: usize,
    pub current_column: u8,
    pub current_row: usize,
    pub track_scroll: usize,
    pub row_scroll: usize,
}

/// The volume a typed value stores: unset above 999, else clamped to 127.
pub open spec fn stored_volume(temp: u16) -> u8 {
    if temp > 999 {
        128
    } else if temp > 127 {
        127
    } else {
        temp as u8
    }
}

/// The typed value that shows a stored volume.
pub open spec fn loaded_volume(vol: u8) -> u16 {
    if vol > 127 {
        VOLUME_UNSET
    } else {
        vol as u16
    }
}

impl PatternEditor {
    /// A pattern is loaded, well formed, and the cursor is on one of its cells.
    pub open spec fn cursor_ok(&self) -> bool {
        &&& self.pattern is Some
        &&& self.pattern->0.wf()
        &&& self.current_row < self.pattern->0.rows@.len()
        &&& self.current_track < self.pattern->0.tracks()
        &&& self.current_column <= COLUMN_VOLUME
    }

    pub open spec fn rows(&self) -> int {
        self.pattern->0.rows@.len() as int
    }

    pub open spec fn tracks(&self) -> int {
        self.pattern->0.tracks() as int
    }

    /// Rows the editor shows at once.
    pub open spec fn row_capacity(&self) -> int {
        if self.pos2.y > self.pos1.y {
            self.pos2.y - self.pos1.y
        } else {
            1
        }
    }

    /// The cell under the cursor.
    pub open spec fn cell(&self) -> crate::pattern::TrackEvent {
        self.pattern->0.rows@[self.current_row as int]@[self.current_track as int]
    }

    /// An editor at the region from `pos1` to `pos2`, with no pattern loaded.
    pub fn new(pos1: Position, pos2: Position) -> (e: PatternEditor)
        ensures
            e.pos1 == pos1,
            e.pos2 == pos2,
            e.pattern is None,
            e.state is None,
            e.temp_volume == VOLUME_UNSET,
            !e.changed && !e.focused && !e.ctrl_held,
            e.current_row == 0 && e.current_track == 0 && e.current_column == COLUMN_NOTE,
            e.row_scroll == 0 && e.track_scroll == 0,
    {
        PatternEditor {
            pos1,
            pos2,
            focused: false,
            ctrl_held: false,
            changed: false,
            temp_volume: VOLUME_UNSET,
            pattern: None,
            state: None,
            text_color: 0,
            outer_bg: 0,
            inner_bg: 0,
            top_rim: 0,
            bottom_rim: 0,
            beat_color: 0x082838,
            bar_color: 0x381c08,
            row_selection_color: 0x3f3f3f,
            column_selection_color: 0x7f7f7f,
            current_track: 0,
            current_column: COLUMN_NOTE,
            current_row: 0,
            track_scroll: 0,
            row_scroll: 0,
        }
    }

    /// Whether a well-formed pattern is loaded and the cursor is on one of its
    /// cells.
    pub fn cursor_valid(&self) -> (r: bool)
        ensures
            r == self.cursor_ok(),
    {
        match &self.pattern {
            None => false,
            Some(p) => {
                if p.rows.len() == 0 || p.rpb == 0 || self.current_column > COLUMN_VOLUME {
                    return false;
                }
                let width = p.rows[0].len();
                let mut i: usize = 0;
                while i < p.rows.len()
                    invariant
                        i <= p.rows@.len(),
                        p.rows@.len() > 0,
                        p.rpb > 0,
                        self.pattern == Some(*p),
                        width == p.tracks(),
                        forall|k: int| 0 <= k < i ==> #[trigger] p.rows@[k]@.len() == width,
                    decreases p.rows@.len() - i,
                {
                    if p.rows[i].len() != width {
                        return false;
                    }
                    i = i + 1;
                }
                self.current_row < p.rows.len() && self.current_track < width
            },
        }
    }

    fn row_capacity_exec(&self) -> (r: usize)
        ensures
            r == self.row_capacity(),
            r >= 1,
    {
        if self.pos2.y > self.pos1.y {
            self.pos2.y - self.pos1.y
        } else {
            1
        }
    }

    /// Sets the field of the cell under the cursor that the current column
    /// edits.
    fn write_cell(&mut self, note: Option<Note>, instrument: Option<u8>, volume: Option<u8>)
        requires
            old(self).cursor_ok(),
        ensures
            final(self).cursor_ok(),
            final(self).pattern->0.rpb == old(self).pattern->0.rpb,
            final(self).pattern->0.rows@.len() == old(self).pattern->0.rows@.len(),
            final(self).pattern->0.tracks() == old(self).pattern->0.tracks(),
            final(self).pos1 == old(self).pos1,
            final(self).pos2 == old(self).pos2,
            final(self).pattern->0.grid() == old(self).pattern->0.grid().update(
                old(self).current_row as int,
                old(self).pattern->0.grid()[old(self).current_row as int].update(
                    old(self).current_track as int,
                    crate::pattern::TrackEvent {
                        note: match note { Some(n) => n, None => old(self).cell().note },
                        instrument: match instrument { Some(i) => i, None => old(self).cell().instrument },
                        volume: match volume { Some(v) => v, None => old(self).cell().volume },
                    },
                ),
            ),
            final(self).current_row == old(self).current_row,
            final(self).current_track == old(self).current_track,
            final(self).current_column == old(self).current_column,
            final(self).row_scroll == old(self).row_scroll,
            final(self).temp_volume == old(self).temp_volume,
            final(self).changed == old(self).changed,
            final(self).ctrl_held == old(self).ctrl_held,
    {
        let r = self.current_row;
        let t = self.current_track;
        match &mut self.pattern {
            Some(p) => {
                let mut c = p.rows[r][t];
                if let Some(n) = note {
                    c.note = n;
                }
                if let Some(i) = instrument {
                    c.instrument = i;
                }
                if let Some(v) = volume {
                    c.volume = v;
                }
                let ghost before = p.rows@;
                let ghost g = p.grid();
                p.rows[r][t] = c;
                proof {
                    assert(p.rows@[r as int]@ == before[r as int]@.update(t as int, c));
                    assert forall|i: int| 0 <= i < p.rows@.len() implies #[trigger] p.rows@[i]@.len() == p.tracks() by {
                        if i != r {
                            assert(p.rows@[i] == before[i]);
                        }
                    }
                    assert forall|i: int| 0 <= i < p.rows@.len() implies #[trigger] p.grid()[i] == g.update(r as int, g[r as int].update(t as int, c))[i] by {
                        if i != r {
                            assert(p.rows@[i] == before[i]);
                        }
                    }
                    assert(p.grid() =~= g.update(r as int, g[r as int].update(t as int, c)));
                }
            },
            None => {},
        }
    }

    /// Moves the cursor. Arrow moves first store the typed volume in the cell
    /// they leave and then show the volume of the cell they reach; the view
    /// scrolls to keep the cursor visible.
    pub fn move_cursor(&mut self, m: Move)
        requires
            old(self).cursor_ok(),
        ensures
            final(self).cursor_ok(),
            final(self).pattern->0.rows@.len() == old(self).pattern->0.rows@.len(),
            final(self).current_row == match m {
                Move::Up => if old(self).current_row > 0 { old(self).current_row - 1 } else { 0 },
                Move::Down => if old(self).current_row + 1 < old(self).rows() { old(self).current_row + 1 } else { old(self).current_row as int },
                Move::PageUp => if old(self).current_row >= old(self).row_capacity() - 1 {
                    old(self).current_row - (old(self).row_capacity() - 1)
                } else {
                    0
                },
                Move::PageDown => if old(self).current_row + old(self).row_capacity() - 1 < old(self).rows() {
                    old(self).current_row + old(self).row_capacity() - 1
                } else {
                    old(self).rows() - 1
                },
                _ => old(self).current_row as int,
            },
            (m == Move::Left) ==> {
                if old(self).current_column == COLUMN_NOTE {
                    if old(self).current_track != 0 {
                        final(self).current_track == old(self).current_track - 1 && final(self).current_column == COLUMN_VOLUME
                    } else {
                        final(self).current_track == 0 && final(self).current_column == COLUMN_NOTE
                    }
                } else if old(self).ctrl_held && old(self).current_track != 0 {
                    final(self).current_track == old(self).current_track - 1 && final(self).current_column == old(self).current_column
                } else {
                    final(self).current_track == old(self).current_track && final(self).current_column == old(self).current_column - 1
                }
            },
            (m == Move::Right) ==> {
                if old(self).current_column == COLUMN_VOLUME {
                    if old(self).current_track + 1 != old(self).tracks() {
                        final(self).current_track == old(self).current_track + 1 && final(self).current_column == COLUMN_NOTE
                    } else {
                        final(self).current_track == old(self).current_track && final(self).current_column == COLUMN_VOLUME
                    }
                } else if old(self).ctrl_held && old(self).current_track + 1 != old(self).tracks() {
                    final(self).current_track == old(self).current_track + 1 && final(self).current_column == old(self).current_column
                } else {
                    final(self).current_track == old(self).current_track && final(self).current_column == old(self).current_column + 1
                }
            },
            !(m == Move::Left || m == Move::Right) ==> final(self).current_track == old(self).current_track
                && final(self).current_column == old(self).current_column,
            old(self).row_scroll <= final(self).current_row < old(self).row_scroll + old(self).row_capacity() ==> final(self).row_scroll
                == old(self).row_scroll,
            final(self).current_row < old(self).row_scroll ==> final(self).row_scroll == final(self).current_row,
            final(self).current_row >= old(self).row_scroll + old(self).row_capacity() ==> final(self).row_scroll
                == final(self).current_row - (old(self).row_capacity() - 1),
            (m == Move::PageUp || m == Move::PageDown) ==> final(self).pattern == old(self).pattern && final(self).temp_volume
                == old(self).temp_volume && final(self).changed == old(self).changed,
            !(m == Move::PageUp || m == Move::PageDown) ==> {
                &&& final(self).changed
                &&& final(self).temp_volume == loaded_volume(final(self).cell().volume)
                &&& final(self).pattern->0.grid() == old(self).pattern->0.grid().update(
                    old(self).current_row as int,
                    old(self).pattern->0.grid()[old(self).current_row as int].update(
                        old(self).current_track as int,
                        crate::pattern::TrackEvent { volume: stored_volume(old(self).temp_volume), ..old(self).cell() },
                    ),
                )
            },
    {
        let arrow = !(m == Move::PageUp || m == Move::PageDown);
        if arrow {
            let v: u8 = if self.temp_volume > 999 {
                128
            } else if self.temp_volume > 127 {
                127
            } else {
                self.temp_volume as u8
            };
            self.write_cell(None, None, Some(v));
        }
        let cap = self.row_capacity_exec();
        let rows = match &self.pattern {
            Some(p) => p.rows.len(),
            None => 1,
        };
        let tracks = match &self.pattern {
            Some(p) => p.rows[0].len(),
            None => 1,
        };
        match m {
            Move::Up => {
                if self.current_row != 0 {
                    self.current_row = self.current_row - 1;
                }
            },
            Move::Down => {
                if self.current_row + 1 < rows {
                    self.current_row = self.current_row + 1;
                }
            },
            Move::Left => {
                if self.current_column == COLUMN_NOTE {
                    if self.current_track != 0 {
                        self.current_track = self.current_track - 1;
                        self.current_column = COLUMN_VOLUME;
                    }
                } else if self.ctrl_held && self.current_track != 0 {
                    self.current_track = self.current_track - 1;
                } else {
                    self.current_column = self.current_column - 1;
                }
            },
            Move::Right => {
                if self.current_column == COLUMN_VOLUME {
                    if self.current_track + 1 != tracks {
                        self.current_track = self.current_track + 1;
                        self.current_column = COLUMN_NOTE;
                    }
                } else if self.ctrl_held && self.current_track + 1 != tracks {
                    self.current_track = self.current_track + 1;
                } else {
                    self.current_column = self.current_column + 1;
                }
            },
            Move::PageDown => {
                if cap - 1 < rows - self.current_row {
                    self.current_row = self.current_row + (cap - 1);
                } else {
                    self.current_row = rows - 1;
                }
            },
            Move::PageUp => {
                if self.current_row >= cap - 1 {
                    self.current_row = self.current_row - (cap - 1);
                } else {
                    self.current_row = 0;
                }
            },
        }
        if self.current_row >= self.row_scroll && self.current_row - self.row_scroll > cap - 1 {
            self.row_scroll = self.current_row - (cap - 1);
        } else if self.current_row < self.row_scroll {
            self.row_scroll = self.current_row;
        }
        if arrow {
            let vol = match &self.pattern {
                Some(p) => p.rows[self.current_row][self.current_track].volume,
                None => 128,
            };
            self.temp_volume = if vol > 127 {
                VOLUME_UNSET
            } else {
                vol as u16
            };
            self.changed = true;
        }
    }

    /// Holds or releases the modifier that makes left and right jump whole
    /// tracks.
    pub fn set_ctrl(&mut self, held: bool)
        ensures
            final(self).ctrl_held == held,
            final(self).pattern == old(self).pattern,
            final(self).current_row == old(self).current_row,
            final(self).current_track == old(self).current_track,
            final(self).current_column == old(self).current_column,
    {
        self.ctrl_held = held;
    }

    /// Empties the field under the cursor: no note, instrument 0 (repeat), or
    /// volume not set.
    pub fn clear_cell(&mut self)
        requires
            old(self).cursor_ok(),
        ensures
            final(self).cursor_ok(),
            final(self).changed,
            final(self).current_row == old(self).current_row,
            final(self).current_track == old(self).current_track,
            final(self).current_column == old(self).current_column,
            final(self).pattern->0.grid() == old(self).pattern->0.grid().update(
                old(self).current_row as int,
                old(self).pattern->0.grid()[old(self).current_row as int].update(
                    old(self).current_track as int,
                    if old(self).current_column == COLUMN_NOTE {
                        crate::pattern::TrackEvent { note: Note::Empty, ..old(self).cell() }
                    } else if old(self).current_column == COLUMN_INSTRUMENT {
                        crate::pattern::TrackEvent { instrument: 0, ..old(self).cell() }
                    } else {
                        crate::pattern::TrackEvent { volume: 128, ..old(self).cell() }
                    },
                ),
            ),
            final(self).temp_volume == if old(self).current_column == COLUMN_VOLUME {
                VOLUME_UNSET
            } else {
                old(self).temp_volume
            },
    {
        if self.current_column == COLUMN_NOTE {
            self.write_cell(Some(Note::Empty), None, None);
        } else if self.current_column == COLUMN_INSTRUMENT {
            self.write_cell(None, Some(0), None);
        } else {
            self.write_cell(None, None, Some(128));
            self.temp_volume = VOLUME_UNSET;
        }
        self.changed = true;
    }

    /// Writes `note` under the cursor when the cursor is in the note column.
    pub fn enter_note(&mut self, note: Note)
        requires
            old(self).cursor_ok(),
        ensures
            final(self).cursor_ok(),
            final(self).current_row == old(self).current_row,
            final(self).current_track == old(self).current_track,
            final(self).current_column == old(self).current_column,
            old(self).current_column == COLUMN_NOTE ==> final(self).changed && final(self).pattern->0.grid() == old(self).pattern->0.grid().update(
                old(self).current_row as int,
                old(self).pattern->0.grid()[old(self).current_row as int].update(
                    old(self).current_track as int,
                    crate::pattern::TrackEvent { note, ..old(self).cell() },
                ),
            ),
            old(self).current_column != COLUMN_NOTE ==> final(self).pattern == old(self).pattern && final(self).changed == old(self).changed,
    {
        if self.current_column == COLUMN_NOTE {
            self.write_cell(Some(note), None, None);
            self.changed = true;
        }
    }

    /// Types decimal digit `d`: in the instrument column it is appended to
    /// the instrument, of which the last two digits stay; in the volume column
    /// it is appended to the typed volume, of which the last three digits stay,
    /// and a typed volume up to 127 is stored in the cell.
    pub fn type_digit(&mut self, d: u8)
        requires
            old(self).cursor_ok(),
            d < 10,
        ensures
            final(self).cursor_ok(),
            final(self).current_row == old(self).current_row,
            final(self).current_track == old(self).current_track,
            final(self).current_column == old(self).current_column,
            old(self).current_column == COLUMN_INSTRUMENT ==> {
                let inst = ((old(self).cell().instrument as int * 10 + d) % 100) as u8;
                &&& final(self).changed
                &&& final(self).temp_volume == old(self).temp_volume
                &&& final(self).pattern->0.grid() == old(self).pattern->0.grid().update(
                    old(self).current_row as int,
                    old(self).pattern->0.grid()[old(self).current_row as int].update(
                        old(self).current_track as int,
                        crate::pattern::TrackEvent { instrument: inst, ..old(self).cell() },
                    ),
                )
            },
            old(self).current_column == COLUMN_VOLUME ==> {
                let start: u16 = if old(self).temp_volume == VOLUME_UNSET { 0 } else { old(self).temp_volume };
                let typed: u16 = match pushed_digit(start, d) {
                    Some(v) => (v % 1000) as u16,
                    None => start,
                };
                &&& final(self).temp_volume == typed
                &&& typed <= 127 ==> final(self).changed && final(self).pattern->0.grid() == old(self).pattern->0.grid().update(
                    old(self).current_row as int,
                    old(self).pattern->0.grid()[old(self).current_row as int].update(
                        old(self).current_track as int,
                        crate::pattern::TrackEvent { volume: typed as u8, ..old(self).cell() },
                    ),
                )
                &&& typed > 127 ==> final(self).pattern == old(self).pattern && final(self).changed == old(self).changed
            },
            old(self).current_column == COLUMN_NOTE ==> final(self).pattern == old(self).pattern && final(self).temp_volume
                == old(self).temp_volume && final(self).changed == old(self).changed,
    {
        if self.current_column == COLUMN_INSTRUMENT {
            let inst = match &self.pattern {
                Some(p) => p.rows[self.current_row][self.current_track].instrument,
                None => 0,
            };
            let pushed = push_digit(inst as u16, d);
            let v: u16 = match pushed {
                Some(v) => truncate_number(v, 2),
                None => inst as u16,
            };
            self.write_cell(None, Some(v as u8), None);
            self.changed = true;
        } else if self.current_column == COLUMN_VOLUME {
            if self.temp_volume == VOLUME_UNSET {
                self.temp_volume = 0;
            }
            if let Some(v) = push_digit(self.temp_volume, d) {
                self.temp_volume = truncate_number(v, 3);
            }
            if self.temp_volume <= 127 {
                let v = self.temp_volume as u8;
                self.write_cell(None, None, Some(v));
                self.changed = true;
            }
        }
    }

    /// Focuses the editor when a click at pixel (`x`, `y`) lands inside it,
    /// and unfocuses it otherwise.
    pub fn click(&mut self, x: usize, y: usize)
        ensures
            final(self).focused == (old(self).pos1.x <= x / 8 <= old(self).pos2.x && old(self).pos1.y <= y / 8 <= old(self).pos2.y),
            final(self).pattern == old(self).pattern,
            final(self).current_row == old(self).current_row,
            final(self).current_track == old(self).current_track,
            final(self).current_column == old(self).current_column,
    {
        let (nx, ny) = crate::ui::pixel_to_char(x, y);
        self.focused = self.pos1.x <= nx && nx <= self.pos2.x && self.pos1.y <= ny && ny <= self.pos2.y;
    }

    /// Reports whether the pattern was edited since the last call, and
    /// clears that.
    pub fn take_changed(&mut self) -> (r: bool)
        ensures
            r == old(self).changed,
            !final(self).changed,
            final(self).pattern == old(self).pattern,
            final(self).current_row == old(self).current_row,
            final(self).current_track == old(self).current_track,
            final(self).current_column == old(self).current_column,
    {
        let r = self.changed;
        self.changed = false;
        r
    }
}

} // verus!
