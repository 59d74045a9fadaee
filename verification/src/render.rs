//! The textual snapshot of a universe: one line per row, each cell drawn
//! as a filled square when alive or a hollow square when dead, every cell
//! followed by one space and every row ended by a newline.

use crate::cell::Cell;
use crate::universe::Universe;
use vstd::prelude::*;

verus! {

/// The single-character glyph for one cell.
pub open spec fn glyph(c: Cell) -> char {
    match c {
        Cell::Alive => '◼',
        Cell::Dead => '◻',
    }
}

/// The characters of the first `c` cells of row `r`: each cell's glyph
/// followed by a single space, the trailing space included.
pub open spec fn row_chars(s: Seq<Cell>, w: nat, r: nat, c: nat) -> Seq<char>
    decreases c,
{
    if c == 0 {
        Seq::empty()
    } else {
        row_chars(s, w, r, (c - 1) as nat) + seq![glyph(s[(r * w + c - 1) as int]), ' ']
    }
}

/// The characters of the first `r` rows of a grid `w` cells wide, each
/// row ended by a newline.
pub open spec fn rows_chars(s: Seq<Cell>, w: nat, r: nat) -> Seq<char>
    decreases r,
{
    if r == 0 {
        Seq::empty()
    } else {
        rows_chars(s, w, (r - 1) as nat) + row_chars(s, w, (r - 1) as nat, w) + seq!['\n']
    }
}

/// The full textual snapshot of a grid of `h` rows of `w` cells.
pub open spec fn spec_render(s: Seq<Cell>, w: nat, h: nat) -> Seq<char> {
    rows_chars(s, w, h)
}

impl Universe {
    /// Renders the whole grid, row-major: one glyph and one space per
    /// cell — the trailing space after the last cell of a row included —
    /// and a newline at the end of every row.
    pub fn render(&self) -> (out: String)
        requires
            self.inv(),
        ensures
            out@ == spec_render(self@, self.spec_width() as nat, self.spec_height() as nat),
    {
        let ghost s = self@;
        let ghost w = self.spec_width() as nat;
        let mut out = String::new();
        let mut row: u32 = 0;
        while row < self.height()
            invariant
                self.inv(),
                s == self@,
                w == self.spec_width() as nat,
                row <= self.spec_height(),
                out@ == rows_chars(s, w, row as nat),
            decreases self.spec_height() - row,
        {
            let mut col: u32 = 0;
            while col < self.width()
                invariant
                    self.inv(),
                    s == self@,
                    w == self.spec_width() as nat,
                    row < self.spec_height(),
                    col <= self.spec_width(),
                    out@ == rows_chars(s, w, row as nat) + row_chars(s, w, row as nat, col as nat),
                decreases self.spec_width() - col,
            {
                let i = self.get_index(row, col);
                let ghost out0 = out@;
                match self.get_cell(i) {
                    Cell::Alive => out.append("◼ "),
                    Cell::Dead => out.append("◻ "),
                }
                proof {
                    reveal_strlit("◼ ");
                    reveal_strlit("◻ ");
                    assert(out@ =~= out0 + seq![glyph(s[i as int]), ' ']);
                    assert(out@ =~= rows_chars(s, w, row as nat) + row_chars(
                        s,
                        w,
                        row as nat,
                        (col + 1) as nat,
                    ));
                }
                col += 1;
            }
            let ghost out1 = out@;
            out.append("\n");
            proof {
                reveal_strlit("\n");
                assert(out@ =~= out1 + seq!['\n']);
                assert(out@ =~= rows_chars(s, w, (row + 1) as nat));
            }
            row += 1;
        }
        out
    }
}

} // verus!
