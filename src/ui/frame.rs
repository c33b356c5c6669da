use vstd::prelude::*;
use crate::ui::canvas::Command;
use crate::ui::Position;

verus! {

/// The glyphs of a frame.
#[derive(Clone, Copy, PartialEq, Eq, Structural, Debug)]
pub struct FrameGlyphs {
    pub left: char,
    pub right: char,
    pub top: char,
    pub bottom: char,
    pub top_left: char,
    pub bottom_right: char,
    pub top_right: char,
    pub bottom_left: char,
}

/// The colours of a frame's pieces.
#[derive(Clone, Copy, PartialEq, Eq, Structural, Debug)]
pub struct FrameColors {
    pub left: u32,
    pub right: u32,
    pub top: u32,
    pub bottom: u32,
    pub top_left: u32,
    pub bottom_right: u32,
    pub top_right: u32,
    pub bottom_left: u32,
    pub bg: u32,
}

/// One character cell to draw: column, row, foreground, glyph.
pub type Cell = (usize, usize, u32, char);

/// The cells of a frame around the region from `pos1` to `pos2` (`pos2`
/// excluded): the left side on column `lx`, the right side on column
/// `pos2.x`, the top on row `ty`, the bottom on row `pos2.y`, in that order,
/// then the corners top left, bottom right, top right, bottom left.
pub open spec fn frame_cells(pos1: Position, pos2: Position, lx: int, ty: int, g: FrameGlyphs, c: FrameColors) -> Seq<Cell> {
    let h = pos2.y - pos1.y;
    let w = pos2.x - pos1.x;
    Seq::new(h as nat, |k: int| (lx as usize, (pos1.y + k) as usize, c.left, g.left))
        + Seq::new(h as nat, |k: int| (pos2.x, (pos1.y + k) as usize, c.right, g.right))
        + Seq::new(w as nat, |k: int| ((pos1.x + k) as usize, ty as usize, c.top, g.top))
        + Seq::new(w as nat, |k: int| ((pos1.x + k) as usize, pos2.y, c.bottom, g.bottom))
        + seq![
            (lx as usize, ty as usize, c.top_left, g.top_left),
            (pos2.x, pos2.y, c.bottom_right, g.bottom_right),
            (pos2.x, ty as usize, c.top_right, g.top_right),
            (lx as usize, pos2.y, c.bottom_left, g.bottom_left),
        ]
}

/// The commands that draw a frame around the region from `pos1` to `pos2`:
/// one cell outside the region when `outside`, else on its left and top
/// edges. Every command is a `Char` on background `c.bg`.
pub fn frame_commands(pos1: Position, pos2: Position, outside: bool, g: FrameGlyphs, c: FrameColors) -> (r: Vec<Command>)
    requires
        pos1.x <= pos2.x,
        pos1.y <= pos2.y,
        outside ==> pos1.x >= 1 && pos1.y >= 1,
    ensures
        ({
            let lx = if outside { pos1.x - 1 } else { pos1.x as int };
            let ty = if outside { pos1.y - 1 } else { pos1.y as int };
            let cells = frame_cells(pos1, pos2, lx, ty, g, c);
            &&& r@.len() == cells.len()
            &&& forall|k: int| 0 <= k < cells.len() ==> #[trigger] r@[k] == Command::Char(cells[k].0, cells[k].1, cells[k].2, c.bg, cells[k].3)
        }),
{
    let lx = if outside { pos1.x - 1 } else { pos1.x };
    let ty = if outside { pos1.y - 1 } else { pos1.y };
    let ghost cells = frame_cells(pos1, pos2, lx as int, ty as int, g, c);
    let h = pos2.y - pos1.y;
    let w = pos2.x - pos1.x;
    let mut r: Vec<Command> = Vec::new();
    let mut k: usize = 0;
    while k < h
        invariant
            k <= h,
            h == pos2.y - pos1.y,
            w == pos2.x - pos1.x,
            cells == frame_cells(pos1, pos2, lx as int, ty as int, g, c),
            r@.len() == k,
            forall|i: int| 0 <= i < k ==> #[trigger] r@[i] == Command::Char(cells[i].0, cells[i].1, cells[i].2, c.bg, cells[i].3),
        decreases h - k,
    {
        r.push(Command::Char(lx, pos1.y + k, c.left, c.bg, g.left));
        k = k + 1;
    }
    k = 0;
    while k < h
        invariant
            k <= h,
            h == pos2.y - pos1.y,
            w == pos2.x - pos1.x,
            cells == frame_cells(pos1, pos2, lx as int, ty as int, g, c),
            r@.len() == h + k,
            forall|i: int| 0 <= i < h + k ==> #[trigger] r@[i] == Command::Char(cells[i].0, cells[i].1, cells[i].2, c.bg, cells[i].3),
        decreases h - k,
    {
        r.push(Command::Char(pos2.x, pos1.y + k, c.right, c.bg, g.right));
        k = k + 1;
    }
    k = 0;
    while k < w
        invariant
            k <= w,
            h == pos2.y - pos1.y,
            w == pos2.x - pos1.x,
            cells == frame_cells(pos1, pos2, lx as int, ty as int, g, c),
            r@.len() == 2 * h + k,
            forall|i: int| 0 <= i < 2 * h + k ==> #[trigger] r@[i] == Command::Char(cells[i].0, cells[i].1, cells[i].2, c.bg, cells[i].3),
        decreases w - k,
    {
        r.push(Command::Char(pos1.x + k, ty, c.top, c.bg, g.top));
        k = k + 1;
    }
    k = 0;
    while k < w
        invariant
            k <= w,
            h == pos2.y - pos1.y,
            w == pos2.x - pos1.x,
            cells == frame_cells(pos1, pos2, lx as int, ty as int, g, c),
            r@.len() == 2 * h + w + k,
            forall|i: int| 0 <= i < 2 * h + w + k ==> #[trigger] r@[i] == Command::Char(cells[i].0, cells[i].1, cells[i].2, c.bg, cells[i].3),
        decreases w - k,
    {
        r.push(Command::Char(pos1.x + k, pos2.y, c.bottom, c.bg, g.bottom));
        k = k + 1;
    }
    r.push(Command::Char(lx, ty, c.top_left, c.bg, g.top_left));
    r.push(Command::Char(pos2.x, pos2.y, c.bottom_right, c.bg, g.bottom_right));
    r.push(Command::Char(pos2.x, ty, c.top_right, c.bg, g.top_right));
    r.push(Command::Char(lx, pos2.y, c.bottom_left, c.bg, g.bottom_left));
    r
}

} // verus!
