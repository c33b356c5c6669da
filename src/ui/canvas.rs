use vstd::prelude::*;

verus! {

/// A drawing request for the canvas, in character space: position,
/// foreground, background, and what to draw.
pub enum Command {
    Char(usize, usize, u32, u32, char),
    Text(usize, usize, u32, u32, String),
}

/// Whether bit `bit` of an 8x8 glyph is set; bit `row * 8 + col` is the
/// pixel at `row`, `col`.
pub open spec fn glyph_lit(glyph: u64, bit: int) -> bool {
    glyph & (1u64 << (bit as u64)) != 0
}

/// Pixel `k` of a buffer `width` pixels wide, seen as the pixel at `row`,
/// `col` of character cell (`x`, `y`), when it lies in that cell.
pub open spec fn cell_row(k: int, y: int, width: int) -> int {
    k / width - y * 8
}

pub open spec fn cell_col(k: int, x: int, width: int) -> int {
    k % width - x * 8
}

pub open spec fn in_cell(k: int, x: int, y: int, width: int) -> bool {
    0 <= cell_row(k, y, width) < 8 && 0 <= cell_col(k, x, width) < 8
}

/// `buffer` once glyph `glyph` is drawn in character cell (`x`, `y`): set
/// bits in `fg`, clear bits in `bg`, everything outside the cell unchanged.
pub open spec fn draw_glyph(buffer: Seq<u32>, width: int, x: int, y: int, glyph: u64, fg: u32, bg: u32) -> Seq<u32> {
    Seq::new(
        buffer.len(),
        |k: int|
            if in_cell(k, x, y, width) {
                if glyph_lit(glyph, cell_row(k, y, width) * 8 + cell_col(k, x, width)) {
                    fg
                } else {
                    bg
                }
            } else {
                buffer[k]
            },
    )
}

/// The cell (`x`, `y`) lies inside a `width` by `height` canvas.
pub open spec fn cell_fits(x: int, y: int, width: int, height: int) -> bool {
    0 <= x && 0 <= y && x * 8 + 8 <= width && y * 8 + 8 <= height
}

/// Drawing `chars` as text from (`x`, `y`): a newline goes to the start
/// column `x0` of the next line, any other character is drawn and moves one
/// cell right. Every drawn character has a glyph and a cell on the canvas.
pub open spec fn text_fits(chars: Seq<char>, x0: int, x: int, y: int, width: int, height: int, glyphs: int) -> bool
    decreases chars.len(),
{
    if chars.len() == 0 {
        true
    } else if chars[0] == '\n' {
        text_fits(chars.drop_first(), x0, x0, y + 1, width, height, glyphs)
    } else {
        &&& cell_fits(x, y, width, height)
        &&& (chars[0] as int) < glyphs
        &&& text_fits(chars.drop_first(), x0, x + 1, y, width, height, glyphs)
    }
}

/// The buffer once `chars` is drawn as text from (`x`, `y`).
pub open spec fn draw_text(buffer: Seq<u32>, font: Seq<u64>, width: int, chars: Seq<char>, x0: int, x: int, y: int, fg: u32, bg: u32) -> Seq<u32>
    decreases chars.len(),
{
    if chars.len() == 0 {
        buffer
    } else if chars[0] == '\n' {
        draw_text(buffer, font, width, chars.drop_first(), x0, x0, y + 1, fg, bg)
    } else {
        draw_text(
            draw_glyph(buffer, width, x, y, font[chars[0] as int], fg, bg),
            font,
            width,
            chars.drop_first(),
            x0,
            x + 1,
            y,
            fg,
            bg,
        )
    }
}

/// A pixel buffer drawn on in 8x8 character cells from a bitmap font.
pub struct TextCanvas {
    pub width: usize,
    pub height: usize,
    /// `width * height` pixels, row after row.
    pub buffer: Vec<u32>,
    /// One 8x8 glyph per code point.
    pub font: Vec<u64>,
}

impl TextCanvas {
    pub open spec fn wf(&self) -> bool {
        self.buffer@.len() == self.width * self.height
    }

    /// A black canvas of `w` by `h` pixels.
    pub fn new(w: usize, h: usize, font: Vec<u64>) -> (c: TextCanvas)
        requires
            w * h <= usize::MAX,
        ensures
            c.wf(),
            c.width == w,
            c.height == h,
            c.font == font,
            forall|k: int| 0 <= k < w * h ==> #[trigger] c.buffer@[k] == 0,
    {
        let n = w * h;
        let mut buffer: Vec<u32> = Vec::with_capacity(n);
        let mut k: usize = 0;
        while k < n
            invariant
                k <= n,
                buffer@.len() == k,
                forall|i: int| 0 <= i < k ==> #[trigger] buffer@[i] == 0,
            decreases n - k,
        {
            buffer.push(0);
            k = k + 1;
        }
        TextCanvas { width: w, height: h, buffer, font }
    }

    /// Draws `c` in character cell (`x`, `y`).
    pub fn char(&mut self, x: usize, y: usize, fg: u32, bg: u32, c: char)
        requires
            old(self).wf(),
            cell_fits(x as int, y as int, old(self).width as int, old(self).height as int),
            (c as int) < old(self).font@.len(),
        ensures
            final(self).wf(),
            final(self).width == old(self).width,
            final(self).height == old(self).height,
            final(self).font == old(self).font,
            final(self).buffer@ == draw_glyph(
                old(self).buffer@,
                old(self).width as int,
                x as int,
                y as int,
                old(self).font@[c as int],
                fg,
                bg,
            ),
    {
        let width = self.width;
        let blen = self.buffer.len();
        let glyph = self.font[c as usize];
        let ghost target = draw_glyph(old(self).buffer@, width as int, x as int, y as int, glyph, fg, bg);
        assert((y * 8 + 8) * width <= self.height * width) by (nonlinear_arith)
            requires
                y * 8 + 8 <= self.height,
        ;
        let mut r: usize = 0;
        while r < 8
            invariant
                r <= 8,
                width == self.width,
                self.wf(),
                self.width == old(self).width,
                self.height == old(self).height,
                self.font == old(self).font,
                glyph == self.font@[c as int],
                cell_fits(x as int, y as int, width as int, self.height as int),
                (y * 8 + 8) * width <= self.height * width,
                blen == self.buffer@.len(),
                blen == old(self).buffer@.len(),
                target == draw_glyph(old(self).buffer@, width as int, x as int, y as int, glyph, fg, bg),
                forall|k: int| 0 <= k < self.buffer@.len() ==> #[trigger] self.buffer@[k] == if in_cell(k, x as int, y as int, width as int) && cell_row(k, y as int, width as int) < r {
                    target[k]
                } else {
                    old(self).buffer@[k]
                },
            decreases 8 - r,
        {
            let mut col: usize = 0;
            while col < 8
                invariant
                    r < 8,
                    col <= 8,
                    width == self.width,
                    self.wf(),
                    self.width == old(self).width,
                    self.height == old(self).height,
                    self.font == old(self).font,
                    glyph == self.font@[c as int],
                    cell_fits(x as int, y as int, width as int, self.height as int),
                    (y * 8 + 8) * width <= self.height * width,
                    blen == self.buffer@.len(),
                    blen == old(self).buffer@.len(),
                    target == draw_glyph(old(self).buffer@, width as int, x as int, y as int, glyph, fg, bg),
                    forall|k: int| 0 <= k < self.buffer@.len() ==> #[trigger] self.buffer@[k] == if in_cell(k, x as int, y as int, width as int) && (cell_row(k, y as int, width as int) < r || (cell_row(k, y as int, width as int) == r && cell_col(k, x as int, width as int) < col)) {
                        target[k]
                    } else {
                        old(self).buffer@[k]
                    },
                decreases 8 - col,
            {
                let row = y * 8 + r;
                let column = x * 8 + col;
                assert(row * width + column < (y * 8 + 8) * width) by (nonlinear_arith)
                    requires
                        row < y * 8 + 8,
                        column < width,
                ;
                assert(row * width + column < blen);
                let idx = row * width + column;
                let bit: u64 = (r * 8 + col) as u64;
                let lit = glyph & (1u64 << bit) != 0;
                let v = if lit {
                    fg
                } else {
                    bg
                };
                let ghost prev = self.buffer@;
                self.buffer.set(idx, v);
                proof {
                    vstd::arithmetic::div_mod::lemma_fundamental_div_mod_converse(idx as int, width as int, row as int, column as int);
                    assert(cell_row(idx as int, y as int, width as int) == r);
                    assert(cell_col(idx as int, x as int, width as int) == col);
                    assert(target[idx as int] == v);
                    assert forall|k: int| 0 <= k < self.buffer@.len() implies #[trigger] self.buffer@[k] == if in_cell(k, x as int, y as int, width as int) && (cell_row(k, y as int, width as int) < r || (cell_row(k, y as int, width as int) == r && cell_col(k, x as int, width as int) < col + 1)) {
                        target[k]
                    } else {
                        old(self).buffer@[k]
                    } by {
                        if k != idx {
                            vstd::arithmetic::div_mod::lemma_fundamental_div_mod(k, width as int);
                            if cell_row(k, y as int, width as int) == r && cell_col(k, x as int, width as int) == col {
                                assert(k / (width as int) == row);
                                assert(k % (width as int) == column);
                                assert((width as int) * row == row * (width as int)) by (nonlinear_arith);
                                assert(k == idx);
                            }
                            assert(prev[k] == self.buffer@[k]);
                            assert(prev[k] == if in_cell(k, x as int, y as int, width as int) && (cell_row(k, y as int, width as int) < r || (cell_row(k, y as int, width as int) == r && cell_col(k, x as int, width as int) < col)) {
                                target[k]
                            } else {
                                old(self).buffer@[k]
                            });
                        } else {
                            assert(self.buffer@[k] == v);
                        }
                    }
                }
                col = col + 1;
            }
            r = r + 1;
        }
        assert(self.buffer@ =~= target);
    }

    /// Draws `string` from character cell (`x`, `y`); a newline moves to the
    /// start column of the next line.
    pub fn text(&mut self, x: usize, y: usize, fg: u32, bg: u32, string: &str)
        requires
            old(self).wf(),
            y + string@.len() <= usize::MAX,
            text_fits(string@, x as int, x as int, y as int, old(self).width as int, old(self).height as int, old(self).font@.len() as int),
        ensures
            final(self).wf(),
            final(self).width == old(self).width,
            final(self).height == old(self).height,
            final(self).font == old(self).font,
            final(self).buffer@ == draw_text(
                old(self).buffer@,
                old(self).font@,
                old(self).width as int,
                string@,
                x as int,
                x as int,
                y as int,
                fg,
                bg,
            ),
    {
        let n = string.unicode_len();
        assert(string@.skip(0) =~= string@);
        let mut i: usize = 0;
        let mut cx: usize = x;
        let mut cy: usize = y;
        while i < n
            invariant
                i <= n,
                n == string@.len(),
                y + n <= usize::MAX,
                cy <= y + i,
                self.wf(),
                self.width == old(self).width,
                self.height == old(self).height,
                self.font == old(self).font,
                text_fits(string@.skip(i as int), x as int, cx as int, cy as int, self.width as int, self.height as int, self.font@.len() as int),
                draw_text(self.buffer@, self.font@, self.width as int, string@.skip(i as int), x as int, cx as int, cy as int, fg, bg)
                    == draw_text(old(self).buffer@, old(self).font@, old(self).width as int, string@, x as int, x as int, y as int, fg, bg),
            decreases n - i,
        {
            let ch = string.get_char(i);
            let ghost rest = string@.skip(i as int);
            assert(rest[0] == ch);
            assert(rest.drop_first() =~= string@.skip(i as int + 1));
            if ch == '\n' {
                cy = cy + 1;
                cx = x;
            } else {
                self.char(cx, cy, fg, bg, ch);
                cx = cx + 1;
            }
            i = i + 1;
        }
        assert(string@.skip(n as int) =~= Seq::<char>::empty());
    }

    /// Whether character cell (`x`, `y`) lies on the canvas.
    pub fn cell_on_canvas(&self, x: usize, y: usize) -> (r: bool)
        ensures
            r == cell_fits(x as int, y as int, self.width as int, self.height as int),
    {
        if self.width < 8 || self.height < 8 {
            return false;
        }
        let mx = (self.width - 8) / 8;
        let my = (self.height - 8) / 8;
        proof {
            assert((x <= mx) == (x * 8 + 8 <= self.width)) by (nonlinear_arith)
                requires
                    mx == (self.width - 8) / 8,
                    self.width >= 8,
            ;
            assert((y <= my) == (y * 8 + 8 <= self.height)) by (nonlinear_arith)
                requires
                    my == (self.height - 8) / 8,
                    self.height >= 8,
            ;
        }
        x <= mx && y <= my
    }

    /// Whether `string`, drawn from (`x`, `y`), stays on the canvas and has a
    /// glyph for every character it draws.
    pub fn text_on_canvas(&self, x: usize, y: usize, string: &str) -> (r: bool)
        ensures
            r == (y + string@.len() <= usize::MAX && text_fits(string@, x as int, x as int, y as int, self.width as int, self.height as int, self.font@.len() as int)),
    {
        let n = string.unicode_len();
        if n > usize::MAX - y {
            return false;
        }
        let glyphs = self.font.len();
        let mut i: usize = 0;
        let mut cx: usize = x;
        let mut cy: usize = y;
        assert(string@.skip(0) =~= string@);
        while i < n
            invariant
                i <= n,
                n == string@.len(),
                y + n <= usize::MAX,
                cy <= y + i,
                glyphs == self.font@.len(),
                text_fits(string@, x as int, x as int, y as int, self.width as int, self.height as int, glyphs as int)
                    == text_fits(string@.skip(i as int), x as int, cx as int, cy as int, self.width as int, self.height as int, glyphs as int),
            decreases n - i,
        {
            let ch = string.get_char(i);
            let ghost rest = string@.skip(i as int);
            assert(rest[0] == ch);
            assert(rest.drop_first() =~= string@.skip(i as int + 1));
            if ch == '\n' {
                cy = cy + 1;
                cx = x;
            } else {
                if !self.cell_on_canvas(cx, cy) || ch as u32 as usize >= glyphs {
                    return false;
                }
                cx = cx + 1;
            }
            i = i + 1;
        }
        assert(string@.skip(n as int) =~= Seq::<char>::empty());
        true
    }

    /// Carries out a drawing command if it stays on the canvas; says whether
    /// it did. A command that would leave the canvas draws nothing.
    pub fn apply(&mut self, cmd: &Command) -> (r: bool)
        requires
            old(self).wf(),
        ensures
            final(self).wf(),
            final(self).width == old(self).width,
            final(self).height == old(self).height,
            final(self).font == old(self).font,
            match *cmd {
                Command::Char(x, y, fg, bg, c) => {
                    &&& r == (cell_fits(x as int, y as int, old(self).width as int, old(self).height as int) && (c as int) < old(self).font@.len())
                    &&& r ==> final(self).buffer@ == draw_glyph(old(self).buffer@, old(self).width as int, x as int, y as int, old(self).font@[c as int], fg, bg)
                    &&& !r ==> final(self).buffer@ == old(self).buffer@
                },
                Command::Text(x, y, fg, bg, ref s) => {
                    &&& r == (y + s@.len() <= usize::MAX && text_fits(s@, x as int, x as int, y as int, old(self).width as int, old(self).height as int, old(self).font@.len() as int))
                    &&& r ==> final(self).buffer@ == draw_text(old(self).buffer@, old(self).font@, old(self).width as int, s@, x as int, x as int, y as int, fg, bg)
                    &&& !r ==> final(self).buffer@ == old(self).buffer@
                },
            },
    {
        match cmd {
            Command::Char(x, y, fg, bg, c) => {
                if self.cell_on_canvas(*x, *y) && (*c as u32 as usize) < self.font.len() {
                    self.char(*x, *y, *fg, *bg, *c);
                    true
                } else {
                    false
                }
            },
            Command::Text(x, y, fg, bg, s) => {
                if self.text_on_canvas(*x, *y, s.as_str()) {
                    self.text(*x, *y, *fg, *bg, s.as_str());
                    true
                } else {
                    false
                }
            },
        }
    }
}

} // verus!
