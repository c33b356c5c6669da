use vstd::prelude::*;
use crate::ui::Position;

verus! {

/// What the mouse did.
#[derive(Clone, Copy, PartialEq, Eq, Structural, Debug)]
pub enum MouseAction {
    Move,
    Down,
    Up,
    /// Not a mouse event; it is seen at pixel (0, 0).
    Other,
}

/// A one-line push button; `pos` is where its label starts.
pub struct Button {
    pub pos: Position,
    pub label: String,
    pub fg_bg: (u32, u32),
    pub rims: (u32, u32),
    pub pressed: bool,
    pub hovered: bool,
    pub last_mouse_pos: Option<(usize, usize)>,
    pub clicked: bool,
}

/// Whether character cell (`cx`, `cy`) lies on the label of a button at `pos`
/// with a label of `len` characters.
pub open spec fn on_label(pos: Position, len: int, cx: int, cy: int) -> bool {
    pos.x <= cx < pos.x + len && cy == pos.y
}

impl Button {
    pub fn new(pos: Position, label: String, fg_bg: (u32, u32), rims: (u32, u32)) -> (b: Button)
        ensures
            b.pos == pos,
            b.label == label,
            b.fg_bg == fg_bg,
            b.rims == rims,
            !b.pressed,
            !b.hovered,
            !b.clicked,
            b.last_mouse_pos is None,
    {
        Button { pos, label, fg_bg, rims, pressed: false, hovered: false, last_mouse_pos: None, clicked: false }
    }

    /// Follows the mouse at pixel (`x`, `y`): over the label it hovers, a
    /// press there presses it (and drops any click not yet reported) and a
    /// release of a pressed button clicks it; off the label it is neither
    /// pressed nor hovered, so a release there clicks nothing.
    pub fn handle_mouse(&mut self, action: MouseAction, x: usize, y: usize)
        ensures
            ({
                let (px, py) = if action == MouseAction::Other { (0usize, 0usize) } else { (x, y) };
                let cx = px / 8;
                let cy = py / 8;
                let inside = on_label(old(self).pos, old(self).label@.len() as int, cx as int, cy as int);
                &&& final(self).last_mouse_pos == if action == MouseAction::Down {
                    Some((cx as usize, cy as usize))
                } else {
                    old(self).last_mouse_pos
                }
                &&& inside ==> final(self).hovered
                &&& inside ==> final(self).pressed == (action == MouseAction::Down || (action != MouseAction::Up && old(self).pressed))
                &&& inside ==> final(self).clicked == if action == MouseAction::Down {
                    false
                } else {
                    old(self).clicked || (action == MouseAction::Up && old(self).pressed)
                }
                &&& !inside ==> !final(self).hovered && !final(self).pressed && final(self).clicked == old(self).clicked
            }),
            final(self).pos == old(self).pos,
            final(self).label == old(self).label,
    {
        let (px, py) = if action == MouseAction::Other {
            (0usize, 0usize)
        } else {
            (x, y)
        };
        let (cx, cy) = crate::ui::pixel_to_char(px, py);
        if action == MouseAction::Down {
            self.last_mouse_pos = Some((cx, cy));
        }
        let len = self.label.as_str().unicode_len();
        let inside = cx >= self.pos.x && cx - self.pos.x < len && cy == self.pos.y;
        if inside {
            self.hovered = true;
            if action == MouseAction::Down {
                self.pressed = true;
                self.clicked = false;
            } else if action == MouseAction::Up {
                if self.pressed {
                    self.pressed = false;
                    self.clicked = true;
                }
            }
        } else {
            self.pressed = false;
            self.hovered = false;
        }
    }

    /// Reports whether the button was clicked since the last call, and
    /// clears that.
    pub fn clicked(&mut self) -> (r: bool)
        ensures
            r == old(self).clicked,
            !final(self).clicked,
            final(self).pressed == old(self).pressed,
            final(self).hovered == old(self).hovered,
            final(self).pos == old(self).pos,
            final(self).label == old(self).label,
    {
        if self.clicked {
            self.clicked = false;
            true
        } else {
            false
        }
    }
}

} // verus!
