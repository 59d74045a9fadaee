//! The universe: dimensions, packed cell storage, construction and
//! read accessors.

use crate::cell::{
    lemma_cells_fit, lemma_packing_lossless, lemma_test_bit, num_bytes, pack_cells, unpack, Cell,
};
use vstd::arithmetic::div_mod::{
    lemma_fundamental_div_mod, lemma_mod_division_less_than_divisor, lemma_multiply_divide_lt,
};
use vstd::prelude::*;

verus! {

/// A Game of Life universe: a toroidal grid of `width * height` cells,
/// fixed in size once constructed, stored bit-packed eight cells per byte.
pub struct Universe {
    pub(crate) width: u32,
    pub(crate) height: u32,
    pub(crate) cells: Vec<u8>,
}

impl View for Universe {
    type V = Seq<Cell>;

    /// A universe is viewed as its row-major sequence of logical cells:
    /// the cell at `row`, `column` has linear index `row * width + column`.
    open(crate) spec fn view(&self) -> Seq<Cell> {
        unpack(self.cells@, (self.width * self.height) as nat)
    }
}

impl Universe {
    /// The fixed grid width.
    pub open(crate) spec fn spec_width(&self) -> u32 {
        self.width
    }

    /// The fixed grid height.
    pub open(crate) spec fn spec_height(&self) -> u32 {
        self.height
    }

    /// Well-formedness: positive dimensions, a cell count that fits in
    /// `u32`, and a packed buffer of exactly `ceil(width * height / 8)`
    /// bytes. Constructors establish it and every method preserves it.
    pub open(crate) spec fn inv(&self) -> bool {
        &&& 1 <= self.width
        &&& 1 <= self.height
        &&& self.width * self.height <= u32::MAX
        &&& self.cells@.len() == num_bytes((self.width * self.height) as nat)
    }

    /// Builds a universe of the given dimensions from one `Cell` per
    /// logical position, in row-major order, packing them into bits.
    /// Both dimensions must be positive — a zero-sized universe is never
    /// constructed — and the cell count must match the dimensions
    /// exactly.
    pub fn from_cells(width: u32, height: u32, cells: &[Cell]) -> (u: Universe)
        requires
            1 <= width,
            1 <= height,
            width * height <= u32::MAX,
            cells@.len() == width * height,
        ensures
            u.inv(),
            u.spec_width() == width,
            u.spec_height() == height,
            u@ == cells@,
    {
        let packed = pack_cells(cells);
        let u = Universe { width, height, cells: packed };
        proof {
            lemma_packing_lossless(cells@, u.cells@);
        }
        u
    }

    /// Builds the standard 64-by-64 universe from one host-supplied random
    /// draw per cell, in row-major order: `true` makes the cell alive.
    pub fn new(random_bits: &[bool]) -> (u: Universe)
        requires
            random_bits@.len() == 64 * 64,
        ensures
            u.inv(),
            u.spec_width() == 64,
            u.spec_height() == 64,
            u@.len() == 64 * 64,
            forall|i: int|
                0 <= i < 64 * 64 ==> u@[i] == (if random_bits@[i] {
                    Cell::Alive
                } else {
                    Cell::Dead
                }),
    {
        let mut cells: Vec<Cell> = Vec::new();
        let mut i: usize = 0;
        while i < 64 * 64
            invariant
                i <= 64 * 64,
                cells@.len() == i,
                random_bits@.len() == 64 * 64,
                forall|k: int|
                    0 <= k < i ==> cells@[k] == (if random_bits@[k] {
                        Cell::Alive
                    } else {
                        Cell::Dead
                    }),
            decreases 64 * 64 - i,
        {
            if random_bits[i] {
                cells.push(Cell::Alive);
            } else {
                cells.push(Cell::Dead);
            }
            i += 1;
        }
        Universe::from_cells(64, 64, cells.as_slice())
    }

    /// The grid width.
    pub fn width(&self) -> (w: u32)
        ensures
            w == self.spec_width(),
    {
        self.width
    }

    /// The grid height.
    pub fn height(&self) -> (h: u32)
        ensures
            h == self.spec_height(),
    {
        self.height
    }

    /// Read-only access to the packed byte buffer, for zero-copy external
    /// rendering; the borrow ends before the next mutating call.
    pub fn cells(&self) -> (bytes: &Vec<u8>)
        requires
            self.inv(),
        ensures
            bytes@.len() == num_bytes((self.spec_width() * self.spec_height()) as nat),
            self@ == unpack(bytes@, (self.spec_width() * self.spec_height()) as nat),
    {
        &self.cells
    }

    /// Linear index of the cell at `row`, `column` (row-major).
    pub fn get_index(&self, row: u32, column: u32) -> (i: usize)
        requires
            self.inv(),
            row < self.spec_height(),
            column < self.spec_width(),
        ensures
            i == row * self.spec_width() + column,
            i < self.spec_width() * self.spec_height(),
    {
        proof {
            assert(row * self.width + column < self.width * self.height) by (nonlinear_arith)
                requires
                    row < self.height,
                    column < self.width,
                    1 <= self.width,
            ;
        }
        ((row * self.width) + column) as usize
    }

    /// Row and column of the cell with linear index `index`: the inverse
    /// of `get_index`.
    pub fn get_row_column(&self, index: usize) -> (rc: (u32, u32))
        requires
            self.inv(),
            index < self.spec_width() * self.spec_height(),
        ensures
            rc.0 == index as int / self.spec_width() as int,
            rc.1 == index as int % self.spec_width() as int,
            rc.0 < self.spec_height(),
            rc.1 < self.spec_width(),
            rc.0 * self.spec_width() + rc.1 == index,
    {
        let idx: u32 = index as u32;
        proof {
            lemma_fundamental_div_mod(idx as int, self.width as int);
            lemma_mod_division_less_than_divisor(idx as int, self.width as int);
            lemma_multiply_divide_lt(idx as int, self.width as int, self.height as int);
        }
        (idx / self.width, idx % self.width)
    }

    /// The cell at linear index `index`, read from bit `index % 8` of byte
    /// `index / 8` of the packed buffer.
    pub fn get_cell(&self, index: usize) -> (c: Cell)
        requires
            self.inv(),
            index < self.spec_width() * self.spec_height(),
        ensures
            c == self@[index as int],
    {
        let byte_index: usize = index / 8;
        let bit_index: u8 = (index % 8) as u8;
        proof {
            lemma_cells_fit((self.width * self.height) as nat);
            lemma_multiply_divide_lt(index as int, 8, self.cells@.len() as int);
        }
        let b: u8 = self.cells[byte_index];
        proof {
            lemma_test_bit(b, bit_index);
        }
        if b & (1u8 << bit_index) == 0 {
            Cell::Dead
        } else {
            Cell::Alive
        }
    }

    /// Unpacks the whole buffer back into one `Cell` per logical position,
    /// in row-major order; the unused bits of a trailing partial byte are
    /// discarded.
    pub fn to_cells(&self) -> (out: Vec<Cell>)
        requires
            self.inv(),
        ensures
            out@ == self@,
    {
        let total: usize = (self.width as usize) * (self.height as usize);
        let mut out: Vec<Cell> = Vec::new();
        let mut i: usize = 0;
        while i < total
            invariant
                self.inv(),
                total == self.spec_width() * self.spec_height(),
                i <= total,
                out@.len() == i,
                forall|k: int| 0 <= k < i ==> out@[k] == self@[k],
            decreases total - i,
        {
            out.push(self.get_cell(i));
            i += 1;
        }
        proof {
            assert(out@ =~= self@);
        }
        out
    }
}

} // verus!
