use vstd::prelude::*;

pub mod canvas;
pub mod font;
pub mod frame;
pub mod theme;
pub mod widgets;

verus! {

/// Width of the window in pixels.
pub const WIDTH: usize = 1024;

/// Height of the window in pixels.
pub const HEIGHT: usize = 768;

/// A place in character space.
#[derive(Clone, Copy, PartialEq, Eq, Structural, Debug)]
pub struct Position {
    pub x: usize,
    pub y: usize,
}

/// The character cell that holds pixel (`x`, `y`); cells are 8 by 8 pixels.
pub fn pixel_to_char(x: usize, y: usize) -> (r: (usize, usize))
    ensures
        r.0 == x / 8,
        r.1 == y / 8,
{
    (x / 8, y / 8)
}

/// The longest line of `chars`, in characters, where `cur` characters of the
/// current line have been seen, `best` is the longest line so far and `cr`
/// says whether the last character seen was a carriage return. Lines end at
/// `\n`; a `\r` right before it does not count.
pub open spec fn line_fold(chars: Seq<char>, cur: nat, best: nat, cr: bool) -> nat
    decreases chars.len(),
{
    if chars.len() == 0 {
        if cur > best {
            cur
        } else {
            best
        }
    } else if chars[0] == '\n' {
        let line: nat = if cr && cur > 0 {
            (cur - 1) as nat
        } else {
            cur
        };
        line_fold(chars.drop_first(), 0, if line > best { line } else { best }, false)
    } else {
        line_fold(chars.drop_first(), cur + 1, best, chars[0] == '\r')
    }
}

/// Length of the longest line of `string`, in characters.
pub fn longest_line_len(string: &str) -> (r: usize)
    ensures
        r == line_fold(string@, 0, 0, false),
{
    let n = string.unicode_len();
    let mut i: usize = 0;
    let mut cur: usize = 0;
    let mut best: usize = 0;
    let mut cr = false;
    assert(string@.skip(0) =~= string@);
    while i < n
        invariant
            i <= n,
            n == string@.len(),
            cur <= i,
            best <= i,
            line_fold(string@, 0, 0, false) == line_fold(string@.skip(i as int), cur as nat, best as nat, cr),
        decreases n - i,
    {
        let c = string.get_char(i);
        let ghost rest = string@.skip(i as int);
        assert(rest[0] == c);
        assert(rest.drop_first() =~= string@.skip(i as int + 1));
        if c == '\n' {
            let line = if cr && cur > 0 {
                cur - 1
            } else {
                cur
            };
            if line > best {
                best = line;
            }
            cur = 0;
            cr = false;
        } else {
            cur = cur + 1;
            cr = c == '\r';
        }
        i = i + 1;
    }
    assert(string@.skip(n as int) =~= Seq::<char>::empty());
    if cur > best {
        cur
    } else {
        best
    }
}

} // verus!
