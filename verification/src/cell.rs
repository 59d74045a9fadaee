//! The cell state and the bit-packed storage scheme.
//!
//! A grid of `n` logical cells is stored in `ceil(n / 8)` bytes: the cell
//! with linear index `i` sits at bit `i % 8` of byte `i / 8`, and a set bit
//! means the cell is alive.

use vstd::arithmetic::div_mod::{
    lemma_div_multiples_vanish_fancy, lemma_fundamental_div_mod,
    lemma_fundamental_div_mod_converse, lemma_mod_division_less_than_divisor,
};
use vstd::prelude::*;

verus! {

/// The state of one grid position: dead or alive.
#[derive(Clone, Copy, Debug, PartialEq, Eq, Structural)]
pub enum Cell {
    Dead,
    Alive,
}

/// Whether bit `j` of byte `b` is set.
pub open spec fn bit_of(b: u8, j: u8) -> bool {
    (b >> j) & 1u8 == 1u8
}

/// The cell stored at bit `j` of byte `b`.
pub open spec fn cell_of_bit(b: u8, j: u8) -> Cell {
    if bit_of(b, j) {
        Cell::Alive
    } else {
        Cell::Dead
    }
}

/// Number of bytes needed to hold `n` cells, one per bit.
pub open spec fn num_bytes(n: nat) -> nat {
    (n + 7) / 8
}

/// The first `n` cells held by a packed byte sequence, in linear order.
pub open spec fn unpack(bytes: Seq<u8>, n: nat) -> Seq<Cell> {
    Seq::new(n, |i: int| cell_of_bit(bytes[i / 8], (i % 8) as u8))
}

/// `bytes` is a correct packing of the cell sequence `s`: it has exactly
/// `ceil(s.len() / 8)` bytes and every cell sits at its assigned bit.
pub open spec fn packs_to(s: Seq<Cell>, bytes: Seq<u8>) -> bool {
    &&& bytes.len() == num_bytes(s.len())
    &&& forall|i: int| 0 <= i < s.len() ==> cell_of_bit(bytes[i / 8], (i % 8) as u8) == #[trigger] s[i]
}

/// Law: bit-packing is lossless and order-preserving — unpacking any byte
/// sequence that packs a cell sequence yields back exactly that sequence.
pub proof fn lemma_packing_lossless(s: Seq<Cell>, bytes: Seq<u8>)
    requires
        packs_to(s, bytes),
    ensures
        unpack(bytes, s.len()) == s,
{
    assert(unpack(bytes, s.len()) =~= s);
}

/// `n` cells always fit in the bits of `num_bytes(n)` bytes.
pub(crate) proof fn lemma_cells_fit(n: nat)
    ensures
        n <= 8 * num_bytes(n),
{
    lemma_fundamental_div_mod(n as int + 7, 8);
    lemma_mod_division_less_than_divisor(n as int + 7, 8);
}

/// `ceil(n / 8)` written with a division rounding up equals the same count
/// written with a remainder test, the form the executable code computes.
proof fn lemma_num_bytes_split(n: nat)
    ensures
        num_bytes(n) == n / 8 + if n % 8 == 0 {
            0int
        } else {
            1int
        },
{
    lemma_fundamental_div_mod(n as int, 8);
    lemma_mod_division_less_than_divisor(n as int, 8);
    let q = n as int / 8;
    let r = n as int % 8;
    if r == 0 {
        lemma_div_multiples_vanish_fancy(q, 7, 8);
    } else {
        lemma_div_multiples_vanish_fancy(q + 1, r - 1, 8);
    }
}

/// No bit of the zero byte is set.
proof fn lemma_zero_bits()
    by (bit_vector)
    ensures
        forall|j: u8| j < 8 ==> !#[trigger] bit_of(0u8, j),
{
}

/// Setting bit `j` sets exactly that bit and leaves every other bit alone.
proof fn lemma_set_bit(b: u8, j: u8)
    by (bit_vector)
    requires
        j < 8,
    ensures
        bit_of(b | (1u8 << j), j),
        forall|jj: u8| jj < 8 && jj != j ==> #[trigger] bit_of(b | (1u8 << j), jj) == bit_of(b, jj),
{
}

/// Masking with `1 << j` tests exactly bit `j`.
pub(crate) proof fn lemma_test_bit(b: u8, j: u8)
    by (bit_vector)
    requires
        j < 8,
    ensures
        (b & (1u8 << j) == 0) == !bit_of(b, j),
{
}

/// Packs a cell sequence into bytes, eight cells per byte, least
/// significant bit first; the unused high bits of a trailing partial byte
/// are left clear.
pub(crate) fn pack_cells(cells: &[Cell]) -> (out: Vec<u8>)
    requires
        cells@.len() <= u32::MAX,
    ensures
        packs_to(cells@, out@),
{
    let len: usize = cells.len();
    let nbytes: usize = len / 8 + if len % 8 != 0 {
        1
    } else {
        0
    };
    proof {
        lemma_num_bytes_split(len as nat);
    }
    let mut out: Vec<u8> = Vec::new();
    let mut k: usize = 0;
    while k < nbytes
        invariant
            k <= nbytes,
            out@.len() == k,
            len == cells@.len(),
            len <= u32::MAX,
            nbytes == num_bytes(len as nat),
            forall|i: int|
                0 <= i < 8 * k && i < len ==> cell_of_bit(out@[i / 8], (i % 8) as u8)
                    == #[trigger] cells@[i],
        decreases nbytes - k,
    {
        let mut b: u8 = 0;
        proof {
            lemma_zero_bits();
        }
        let mut j: usize = 0;
        while j < 8
            invariant
                j <= 8,
                k < nbytes,
                len == cells@.len(),
                len <= u32::MAX,
                nbytes == num_bytes(len as nat),
                forall|jj: u8|
                    jj < j && 8 * k + jj < len ==> #[trigger] bit_of(b, jj) == (cells@[8 * k + jj]
                        == Cell::Alive),
                forall|jj: u8| j <= jj < 8 ==> !#[trigger] bit_of(b, jj),
            decreases 8 - j,
        {
            let idx: u64 = (k as u64) * 8 + (j as u64);
            if idx < len as u64 {
                if cells[idx as usize] == Cell::Alive {
                    let ghost b0 = b;
                    b = b | (1u8 << j);
                    proof {
                        lemma_set_bit(b0, j as u8);
                    }
                }
            }
            j += 1;
        }
        out.push(b);
        proof {
            assert forall|i: int| 0 <= i < 8 * (k + 1) && i < len implies cell_of_bit(
                out@[i / 8],
                (i % 8) as u8,
            ) == #[trigger] cells@[i] by {
                if i < 8 * k {
                    lemma_fundamental_div_mod_converse(i, 8, i / 8, i % 8);
                    lemma_mod_division_less_than_divisor(i, 8);
                    assert(i <= 8 * (k - 1) + 7);
                    assert(i / 8 < k) by {
                        lemma_fundamental_div_mod(i, 8);
                    };
                } else {
                    let jj = i - 8 * k;
                    lemma_fundamental_div_mod_converse(i, 8, k as int, jj);
                    assert(bit_of(b, jj as u8) == (cells@[i] == Cell::Alive));
                }
            };
        }
        k += 1;
    }
    proof {
        lemma_cells_fit(len as nat);
    }
    out
}

} // verus!
