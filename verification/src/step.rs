//! The generation step: toroidal neighbour counting and the transition
//! rule — a live cell survives with exactly two or three live neighbours,
//! a dead cell is born with exactly three, and every other cell is dead.

use crate::cell::{lemma_packing_lossless, pack_cells, Cell};
use crate::universe::Universe;
use vstd::arithmetic::div_mod::{
    lemma_fundamental_div_mod_converse, lemma_mod_add_multiples_vanish,
    lemma_mod_division_less_than_divisor, lemma_mod_self_0, lemma_small_mod,
};
use vstd::prelude::*;

verus! {

/// The toroidal neighbour coordinate `delta` steps from `x` on an axis of
/// length `m`: grid edges wrap around, so position 0 and position `m - 1`
/// are adjacent.
pub open spec fn wrap(x: int, delta: int, m: int) -> int {
    (x + delta) % m
}

/// 1 if the cell at `row`, `column` of a grid `width` cells wide is
/// alive, else 0.
pub open spec fn live_at(s: Seq<Cell>, width: int, row: int, column: int) -> int {
    if s[row * width + column] == Cell::Alive {
        1
    } else {
        0
    }
}

/// How many of the eight toroidal neighbours of the cell at `row`,
/// `column` are alive: for each of the 3-by-3 offsets excluding the
/// centre, the neighbour is `(row + dr) % height`, `(column + dc) % width`
/// with `dr` over `{height - 1, 0, 1}` and `dc` over `{width - 1, 0, 1}`.
pub open spec fn spec_live_neighbor_count(
    s: Seq<Cell>,
    width: int,
    height: int,
    row: int,
    column: int,
) -> int {
    live_at(s, width, wrap(row, height - 1, height), wrap(column, width - 1, width)) + live_at(
        s,
        width,
        wrap(row, height - 1, height),
        column,
    ) + live_at(s, width, wrap(row, height - 1, height), wrap(column, 1, width)) + live_at(
        s,
        width,
        row,
        wrap(column, width - 1, width),
    ) + live_at(s, width, row, wrap(column, 1, width)) + live_at(
        s,
        width,
        wrap(row, 1, height),
        wrap(column, width - 1, width),
    ) + live_at(s, width, wrap(row, 1, height), column) + live_at(
        s,
        width,
        wrap(row, 1, height),
        wrap(column, 1, width),
    )
}

/// The state of the cell with linear index `i` in the next generation,
/// computed entirely from the current generation `s`: alive exactly when
/// it is alive with two live neighbours or has three live neighbours.
pub open spec fn next_cell(s: Seq<Cell>, width: int, height: int, i: int) -> Cell {
    let n = spec_live_neighbor_count(s, width, height, i / width, i % width);
    if (s[i] == Cell::Alive && n == 2) || n == 3 {
        Cell::Alive
    } else {
        Cell::Dead
    }
}

/// The whole next generation: every cell advanced independently under the
/// transition rule, from a frozen snapshot of the current generation.
pub open spec fn next_gen(s: Seq<Cell>, width: int, height: int) -> Seq<Cell> {
    Seq::new((width * height) as nat, |i: int| next_cell(s, width, height, i))
}

/// One toroidal step backwards on an axis of length `m`.
fn wrap_dec(x: u32, m: u32) -> (r: u32)
    requires
        1 <= m,
        x < m,
    ensures
        r == wrap(x as int, m as int - 1, m as int),
        r < m,
{
    proof {
        if x == 0 {
            lemma_small_mod((m - 1) as nat, m as nat);
        } else {
            lemma_mod_add_multiples_vanish(x as int - 1, m as int);
            lemma_small_mod((x - 1) as nat, m as nat);
        }
    }
    if x == 0 {
        m - 1
    } else {
        x - 1
    }
}

/// One toroidal step forwards on an axis of length `m`.
fn wrap_inc(x: u32, m: u32) -> (r: u32)
    requires
        1 <= m,
        x < m,
    ensures
        r == wrap(x as int, 1, m as int),
        r < m,
{
    proof {
        if x == m - 1 {
            lemma_mod_self_0(m as int);
        } else {
            lemma_small_mod((x + 1) as nat, m as nat);
        }
    }
    if x == m - 1 {
        0
    } else {
        x + 1
    }
}

impl Universe {
    /// 1 if the cell at `row`, `column` is alive, else 0.
    fn cell_value(&self, row: u32, column: u32) -> (v: u8)
        requires
            self.inv(),
            row < self.spec_height(),
            column < self.spec_width(),
        ensures
            v == live_at(self@, self.spec_width() as int, row as int, column as int),
    {
        let i = self.get_index(row, column);
        match self.get_cell(i) {
            Cell::Alive => 1,
            Cell::Dead => 0,
        }
    }

    /// Counts the live cells among the eight toroidal neighbours of the
    /// cell at `row`, `column`.
    pub fn live_neighbor_count(&self, row: u32, column: u32) -> (n: u8)
        requires
            self.inv(),
            row < self.spec_height(),
            column < self.spec_width(),
        ensures
            n == spec_live_neighbor_count(
                self@,
                self.spec_width() as int,
                self.spec_height() as int,
                row as int,
                column as int,
            ),
            n <= 8,
    {
        let north = wrap_dec(row, self.height());
        let south = wrap_inc(row, self.height());
        let west = wrap_dec(column, self.width());
        let east = wrap_inc(column, self.width());
        let mut count: u8 = 0;
        count += self.cell_value(north, west);
        count += self.cell_value(north, column);
        count += self.cell_value(north, east);
        count += self.cell_value(row, west);
        count += self.cell_value(row, east);
        count += self.cell_value(south, west);
        count += self.cell_value(south, column);
        count += self.cell_value(south, east);
        count
    }

    /// Advances the universe one generation in place. The whole next
    /// generation is computed from a frozen snapshot of the current one —
    /// no cell observes an already-updated neighbour — and the packed
    /// buffer is then replaced wholesale.
    pub fn tick(&mut self)
        requires
            old(self).inv(),
        ensures
            final(self).inv(),
            final(self).spec_width() == old(self).spec_width(),
            final(self).spec_height() == old(self).spec_height(),
            final(self)@ == next_gen(
                old(self)@,
                old(self).spec_width() as int,
                old(self).spec_height() as int,
            ),
    {
        let ghost w = self.spec_width() as int;
        let ghost h = self.spec_height() as int;
        let total: usize = (self.width() as usize) * (self.height() as usize);
        let mut next: Vec<Cell> = Vec::new();
        let mut i: usize = 0;
        while i < total
            invariant
                *self == *old(self),
                self.inv(),
                w == self.spec_width() as int,
                h == self.spec_height() as int,
                total == w * h,
                i <= total,
                next@.len() == i,
                forall|k: int| 0 <= k < i ==> next@[k] == next_cell(self@, w, h, k),
            decreases total - i,
        {
            let rc = self.get_row_column(i);
            let n = self.live_neighbor_count(rc.0, rc.1);
            let here = self.get_cell(i);
            let c = if (here == Cell::Alive && n == 2) || n == 3 {
                Cell::Alive
            } else {
                Cell::Dead
            };
            next.push(c);
            i += 1;
        }
        self.cells = pack_cells(next.as_slice());
        proof {
            lemma_packing_lossless(next@, self.cells@);
            assert(self@ =~= next_gen(old(self)@, w, h));
        }
    }
}

/// Law: a universe with no live cell stays that way — after one step of
/// the transition rule every cell of the next generation is still dead,
/// whatever the dimensions.
pub proof fn lemma_all_dead_stays_dead(s: Seq<Cell>, width: int, height: int)
    requires
        0 <= width,
        0 <= height,
        s.len() == width * height,
        forall|i: int| 0 <= i < s.len() ==> s[i] == Cell::Dead,
    ensures
        next_gen(s, width, height).len() == s.len(),
        forall|i: int| 0 <= i < s.len() ==> next_gen(s, width, height)[i] == Cell::Dead,
{
    assert forall|i: int| 0 <= i < s.len() implies next_gen(s, width, height)[i]
        == Cell::Dead by {
        assert(1 <= width && 1 <= height) by (nonlinear_arith)
            requires
                0 <= width,
                0 <= height,
                0 < width * height,
        ;
        lemma_mod_division_less_than_divisor(i, width);
        lemma_multiply_divide_lt_local(i, width, height);
        lemma_neighbor_count_of_all_dead(s, width, height, i / width, i % width);
    }
}

/// Law: a live cell with no live cell among its eight toroidal
/// neighbours is dead after one step of the transition rule.
pub proof fn lemma_isolated_cell_dies(s: Seq<Cell>, width: int, height: int, row: int, column: int)
    requires
        1 <= width,
        1 <= height,
        s.len() == width * height,
        0 <= row < height,
        0 <= column < width,
        s[row * width + column] == Cell::Alive,
        spec_live_neighbor_count(s, width, height, row, column) == 0,
    ensures
        next_gen(s, width, height)[row * width + column] == Cell::Dead,
{
    assert(0 <= row * width + column < width * height) by (nonlinear_arith)
        requires
            0 <= row < height,
            0 <= column < width,
            1 <= width,
    ;
    lemma_fundamental_div_mod_converse(row * width + column, width, row, column);
}

/// Every neighbour of a cell of an all-dead grid is dead, so its live
/// neighbour count is zero.
proof fn lemma_neighbor_count_of_all_dead(s: Seq<Cell>, width: int, height: int, row: int, column: int)
    requires
        1 <= width,
        1 <= height,
        s.len() == width * height,
        0 <= row < height,
        0 <= column < width,
        forall|i: int| 0 <= i < s.len() ==> s[i] == Cell::Dead,
    ensures
        spec_live_neighbor_count(s, width, height, row, column) == 0,
{
    assert forall|r: int, c: int| 0 <= r < height && 0 <= c < width implies live_at(
        s,
        width,
        r,
        c,
    ) == 0 by {
        assert(0 <= r * width + c < width * height) by (nonlinear_arith)
            requires
                0 <= r < height,
                0 <= c < width,
                1 <= width,
        ;
    }
    lemma_mod_division_less_than_divisor(row + (height - 1), height);
    lemma_mod_division_less_than_divisor(row + 1, height);
    lemma_mod_division_less_than_divisor(column + (width - 1), width);
    lemma_mod_division_less_than_divisor(column + 1, width);
}

/// `i / w < h` when `0 <= i < w * h`.
proof fn lemma_multiply_divide_lt_local(i: int, width: int, height: int)
    requires
        1 <= width,
        0 <= i < width * height,
    ensures
        0 <= i / width < height,
{
    vstd::arithmetic::div_mod::lemma_multiply_divide_lt(i, width, height);
    vstd::arithmetic::div_mod::lemma_div_pos_is_pos(i, width);
}

} // verus!
