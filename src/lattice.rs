//! Periodic (toroidal) index arithmetic and the mathematical model of a
//! lattice of spins.

use vstd::arithmetic::div_mod::{lemma_fundamental_div_mod, lemma_fundamental_div_mod_converse};
use crate::acceptance::Acceptance;
use vstd::prelude::*;

verus! {

/// The largest extent of one lattice dimension.
pub const MAX_EXTENT: i32 = 65535;

/// The cell `index` stands for along a dimension of `boundary` cells, with
/// periodic wraparound: the Euclidean remainder, so that `-1` becomes
/// `boundary - 1` and `boundary` becomes `0`.
pub open spec fn wrapped(index: int, boundary: int) -> int {
    index % boundary
}

/// Maps a signed coordinate onto `[0, boundary)` with standard periodic
/// wraparound (every index congruent modulo `boundary` lands on the same
/// cell).
///
/// This is the lattice's single boundary rule. An asymmetric variant, which
/// sends `boundary` to `boundary % (boundary - 1)` instead of `0`, is not
/// periodic and is deliberately not used.
pub fn reflect_index(index: i32, boundary: i32) -> (r: u16)
    requires
        0 < boundary <= MAX_EXTENT,
    ensures
        r as int == wrapped(index as int, boundary as int),
        (r as int) < boundary as int,
{
    if index >= 0 {
        let m: u32 = (index as u32) % (boundary as u32);
        m as u16
    } else {
        let k: u64 = (-(index as i64)) as u64;
        let m: u64 = k % (boundary as u64);
        proof {
            let b = boundary as int;
            let ki = k as int;
            let q = ki / b;
            lemma_fundamental_div_mod(ki, b);
            assert(m as int == ki % b);
            assert(index as int == -ki);
            assert((-q) * b == -(b * q)) by (nonlinear_arith);
            assert((-q - 1) * b == -(b * q) - b) by (nonlinear_arith);
            if m == 0 {
                lemma_fundamental_div_mod_converse(index as int, b, -q, 0);
            } else {
                lemma_fundamental_div_mod_converse(index as int, b, -q - 1, b - m);
            }
        }
        if m == 0 {
            0
        } else {
            (boundary as u64 - m) as u16
        }
    }
}

/// The largest number of cells a lattice may hold: its energy lies in
/// `[-2N, 2N]`, and that range widened by one flip (at most 8) must fit an
/// `i32`.
pub const MAX_CELLS: usize = 1073741819;

/// The abstract state of a lattice simulation.
///
/// Cells are stored column by column: the cell in column `i` and row `j`
/// sits at position `i * rows + j` of `spins`.
pub struct LatticeView {
    pub cols: int,
    pub rows: int,
    pub spins: Seq<i8>,
    pub energy: int,
    pub magnetisation: int,
    pub acceptance: Acceptance,
}

/// Position in the flat sequence of the cell at signed coordinates `(i, j)`.
pub open spec fn cell_index(cols: int, rows: int, i: int, j: int) -> int {
    wrapped(i, cols) * rows + wrapped(j, rows)
}

/// Sum of all spins.
pub open spec fn spin_sum(s: Seq<i8>) -> int
    decreases s.len(),
{
    if s.len() == 0 {
        0
    } else {
        spin_sum(s.drop_last()) + s.last() as int
    }
}

/// Sum over the cells of `(n * s - m)^2`: with `n` cells and magnetisation
/// `m`, this is `n^2` times the sum of squared deviations of the spins from
/// their mean `m / n`.
pub open spec fn deviation_sum(s: Seq<i8>, n: int, m: int) -> int
    decreases s.len(),
{
    if s.len() == 0 {
        0
    } else {
        let d = n * s.last() - m;
        deviation_sum(s.drop_last(), n, m) + d * d
    }
}

/// Every cell holds `+1` or `-1`.
pub open spec fn all_unit(s: Seq<i8>) -> bool {
    forall|k: int| 0 <= k < s.len() ==> (#[trigger] s[k] == 1 || s[k] == -1)
}

impl LatticeView {
    /// Number of cells.
    pub open spec fn size(self) -> int {
        self.cols * self.rows
    }

    /// The spin at signed coordinates `(i, j)`, read with periodic wraparound.
    pub open spec fn spin_at(self, i: int, j: int) -> int {
        self.spins[cell_index(self.cols, self.rows, i, j)] as int
    }

    /// Sum of the four nearest neighbours of `(i, j)`.
    pub open spec fn neighbour_sum(self, i: int, j: int) -> int {
        self.spin_at(i + 1, j) + self.spin_at(i - 1, j) + self.spin_at(i, j - 1)
            + self.spin_at(i, j + 1)
    }

    /// Energy change of flipping the spin at `(i, j)` as the Metropolis rule
    /// weighs it (coupling 1, no external field): twice the spin times the
    /// sum of its four neighbours.
    pub open spec fn flip_delta(self, i: int, j: int) -> int {
        2 * self.spin_at(i, j) * self.neighbour_sum(i, j)
    }

    /// Change of the lattice energy when the spin at `(i, j)` flips. Along
    /// a dimension one cell wide a cell is its own neighbour, and that
    /// self-interaction does not change; elsewhere this equals `flip_delta`.
    pub open spec fn energy_change(self, i: int, j: int) -> int {
        let across = if self.cols >= 2 {
            self.spin_at(i + 1, j) + self.spin_at(i - 1, j)
        } else {
            0
        };
        let along = if self.rows >= 2 {
            self.spin_at(i, j - 1) + self.spin_at(i, j + 1)
        } else {
            0
        };
        2 * self.spin_at(i, j) * (across + along)
    }

    /// The state after flipping the spin at `(i, j)`, with the cached energy
    /// moved by the change of the lattice energy and the magnetisation by
    /// the change of that spin.
    pub open spec fn flipped(self, i: int, j: int) -> LatticeView {
        LatticeView {
            cols: self.cols,
            rows: self.rows,
            spins: self.spins.update(
                cell_index(self.cols, self.rows, i, j),
                (-self.spin_at(i, j)) as i8,
            ),
            energy: self.energy + self.energy_change(i, j),
            magnetisation: self.magnetisation - 2 * self.spin_at(i, j),
            acceptance: self.acceptance,
        }
    }

    /// One Metropolis update from `self` to `post`, proposing the cell
    /// `(col, row)` with the uniform draw `draw`: the flip is made exactly
    /// when the acceptance rule admits it, and otherwise nothing changes.
    pub open spec fn stepped(self, post: LatticeView, col: int, row: int, draw: int) -> bool {
        if crate::acceptance::accepted(self.acceptance, self.flip_delta(col, row), draw) {
            post == self.flipped(col, row)
        } else {
            post == self
        }
    }

    /// Structural well-formedness: positive dimensions that fit the index
    /// types, and one spin of value `+1` or `-1` per cell.
    pub open spec fn well_shaped(self) -> bool {
        &&& 1 <= self.cols <= MAX_EXTENT
        &&& 1 <= self.rows <= MAX_EXTENT
        &&& self.size() <= MAX_CELLS
        &&& self.spins.len() == self.size()
        &&& all_unit(self.spins)
    }

    /// The cached aggregates agree with the spins: the magnetisation is the
    /// sum of all spins and the energy is the lattice energy.
    pub open spec fn consistent(self) -> bool {
        &&& self.magnetisation == spin_sum(self.spins)
        &&& self.energy == crate::energy::lattice_energy(self.spins, self.cols, self.rows)
    }

    /// Well-formedness of a simulation state: well shaped and consistent.
    pub open spec fn wf(self) -> bool {
        self.well_shaped() && self.consistent()
    }
}

/// Wrapping an already wrapped index changes nothing.
pub proof fn lemma_wrapped_idempotent(b: int, i: int)
    requires
        b >= 1,
    ensures
        wrapped(wrapped(i, b), b) == wrapped(i, b),
{
    lemma_fundamental_div_mod_converse(wrapped(i, b), b, 0, wrapped(i, b));
}

/// A cell inside the lattice has its position inside the sequence.
pub proof fn lemma_cell_in_range(cols: int, rows: int, i: int, j: int)
    requires
        0 <= i < cols,
        0 <= j < rows,
    ensures
        0 <= i * rows + j < cols * rows,
{
    assert(0 <= i * rows + j < cols * rows) by (nonlinear_arith)
        requires
            0 <= i < cols,
            0 <= j < rows,
    ;
}

/// Changing one spin moves the sum by the difference.
pub proof fn lemma_spin_sum_update(s: Seq<i8>, p: int, x: i8)
    requires
        0 <= p < s.len(),
    ensures
        spin_sum(s.update(p, x)) == spin_sum(s) - s[p] + x,
    decreases s.len(),
{
    let t = s.update(p, x);
    if p == s.len() - 1 {
        assert(t.drop_last() =~= s.drop_last());
    } else {
        assert(t.drop_last() =~= s.drop_last().update(p, x));
        lemma_spin_sum_update(s.drop_last(), p, x);
    }
}

/// The sum of unit spins lies between minus and plus their number.
pub proof fn lemma_spin_sum_bounds(s: Seq<i8>)
    requires
        all_unit(s),
    ensures
        -s.len() <= spin_sum(s) <= s.len(),
    decreases s.len(),
{
    if s.len() > 0 {
        let t = s.drop_last();
        assert(all_unit(t)) by {
            assert forall|k: int| 0 <= k < t.len() implies (#[trigger] t[k] == 1 || t[k] == -1) by {
                assert(t[k] == s[k]);
            }
        }
        assert(s[s.len() - 1] == 1 || s[s.len() - 1] == -1);
        lemma_spin_sum_bounds(t);
    }
}

} // verus!
