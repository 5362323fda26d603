//! The lattice simulator: a periodic grid of spins with cached energy and
//! magnetisation, advanced one proposed flip at a time.

use crate::acceptance::{accepted, Acceptance};
use crate::energy::{lattice_energy, lemma_aligned_energy, lemma_energy_bounds, lemma_flip_energy};
use crate::lattice::{
    all_unit, cell_index, deviation_sum, lemma_cell_in_range, lemma_spin_sum_bounds,
    lemma_spin_sum_update, lemma_wrapped_idempotent, reflect_index, spin_sum, wrapped, LatticeView,
    MAX_CELLS,
};
use crate::random::{draw_below, draw_u32};
use rand::rngs::StdRng;
use vstd::prelude::*;

verus! {

/// A two-dimensional Ising lattice under Metropolis dynamics.
///
/// All spins start at `+1`. Energy and magnetisation are kept as running
/// totals, updated with every accepted flip.
pub struct Ising {
    acceptance: Acceptance,
    cols: u16,
    rows: u16,
    data: Vec<i8>,
    energy: i32,
    magnetisation: i32,
}

impl View for Ising {
    type V = LatticeView;

    closed spec fn view(&self) -> LatticeView {
        LatticeView {
            cols: self.cols as int,
            rows: self.rows as int,
            spins: self.data@,
            energy: self.energy as int,
            magnetisation: self.magnetisation as int,
            acceptance: self.acceptance,
        }
    }
}

impl Ising {
    /// Well-formedness of the simulator: well shaped, with cached
    /// aggregates that agree with the spins.
    pub open spec fn wf(&self) -> bool {
        self@.wf()
    }

    /// Structural well-formedness: dimensions and one `+1` or `-1` per cell.
    pub open spec fn well_shaped(&self) -> bool {
        self@.well_shaped()
    }

    /// A `cols` by `rows` lattice with every spin `+1`, so an initial
    /// magnetisation of `N` and energy `-2N`, where `N = cols * rows`.
    pub fn new(acceptance: Acceptance, cols: u16, rows: u16) -> (r: Ising)
        requires
            cols >= 1,
            rows >= 1,
            cols as int * rows as int <= MAX_CELLS,
        ensures
            r.wf(),
            r@.cols == cols,
            r@.rows == rows,
            r@.acceptance == acceptance,
            r@.spins.len() == cols * rows,
            forall|k: int| 0 <= k < r@.spins.len() ==> #[trigger] r@.spins[k] == 1,
            r@.magnetisation == cols * rows,
            r@.energy == -2 * cols * rows,
    {
        let size: usize = cols as usize * rows as usize;
        let mut data: Vec<i8> = Vec::new();
        let mut k: usize = 0;
        while k < size
            invariant
                size == cols * rows,
                size <= MAX_CELLS,
                k <= size,
                data@.len() == k,
                forall|t: int| 0 <= t < k ==> #[trigger] data@[t] == 1,
                spin_sum(data@) == k,
            decreases size - k,
        {
            proof {
                assert(data@.push(1).drop_last() =~= data@);
            }
            data.push(1);
            k = k + 1;
        }
        let n: i32 = size as i32;
        assert(-2 * cols * rows == -2 * n) by (nonlinear_arith)
            requires
                n == cols * rows,
        ;
        let r = Ising { acceptance, cols, rows, data, energy: -2 * n, magnetisation: n };
        assert(all_unit(r.data@));
        proof {
            lemma_aligned_energy(r.data@, cols as int, rows as int, size as nat);
        }
        r
    }

    /// Position in `data` of the cell at signed coordinates `(i, j)`.
    fn index_of(&self, i: i32, j: i32) -> (r: usize)
        requires
            self.well_shaped(),
        ensures
            r as int == cell_index(self@.cols, self@.rows, i as int, j as int),
            r < self@.spins.len(),
    {
        let col = reflect_index(i, self.cols as i32);
        let row = reflect_index(j, self.rows as i32);
        proof {
            lemma_cell_in_range(self.cols as int, self.rows as int, col as int, row as int);
        }
        col as usize * self.rows as usize + row as usize
    }

    /// The spin at signed coordinates `(i, j)`, with periodic wraparound in
    /// both directions.
    pub fn spin(&self, i: i32, j: i32) -> (r: i8)
        requires
            self.well_shaped(),
        ensures
            r as int == self@.spin_at(i as int, j as int),
            r == 1 || r == -1,
    {
        let k = self.index_of(i, j);
        self.data[k]
    }

    /// The energy change that the Metropolis rule weighs for flipping the
    /// spin at `(i, j)`.
    fn flip_energy(&self, i: i32, j: i32) -> (r: i32)
        requires
            self.well_shaped(),
            i32::MIN < i < i32::MAX,
            i32::MIN < j < i32::MAX,
        ensures
            r as int == self@.flip_delta(i as int, j as int),
            -8 <= r <= 8,
    {
        let s = self.spin(i, j) as i32;
        let field = self.spin(i + 1, j) as i32 + self.spin(i - 1, j) as i32
            + self.spin(i, j - 1) as i32 + self.spin(i, j + 1) as i32;
        proof {
            let (x, y) = (s as int, field as int);
            assert(x == self@.spin_at(i as int, j as int));
            assert(y == self@.neighbour_sum(i as int, j as int));
            assert(x == 1 ==> 2 * x * y == 2 * y) by (nonlinear_arith);
            assert(x == -1 ==> 2 * x * y == 0 - 2 * y) by (nonlinear_arith);
        }
        if s == 1 {
            2 * field
        } else {
            0 - 2 * field
        }
    }

    /// The change of the lattice energy that flipping the spin at
    /// `(col, row)` causes.
    fn energy_change_at(&self, col: u16, row: u16) -> (r: i32)
        requires
            self.well_shaped(),
        ensures
            r as int == self@.energy_change(col as int, row as int),
            -8 <= r <= 8,
    {
        let i = col as i32;
        let j = row as i32;
        let s = self.spin(i, j) as i32;
        let across: i32 = if self.cols >= 2 {
            self.spin(i + 1, j) as i32 + self.spin(i - 1, j) as i32
        } else {
            0
        };
        let along: i32 = if self.rows >= 2 {
            self.spin(i, j - 1) as i32 + self.spin(i, j + 1) as i32
        } else {
            0
        };
        let field = across + along;
        proof {
            let (x, y) = (s as int, field as int);
            assert(x == self@.spin_at(i as int, j as int));
            assert(x == 1 ==> 2 * x * y == 2 * y) by (nonlinear_arith);
            assert(x == -1 ==> 2 * x * y == 0 - 2 * y) by (nonlinear_arith);
        }
        if s == 1 {
            2 * field
        } else {
            0 - 2 * field
        }
    }

    /// Flips the spin at `(col, row)`, moving the cached energy by `change`,
    /// the change of the lattice energy, and the magnetisation by the change
    /// of that spin.
    fn flip_at(&mut self, col: u16, row: u16, change: i32)
        requires
            old(self).wf(),
            (col as int) < old(self)@.cols,
            (row as int) < old(self)@.rows,
            change == old(self)@.energy_change(col as int, row as int),
            -8 <= change <= 8,
        ensures
            final(self).wf(),
            final(self)@ == old(self)@.flipped(col as int, row as int),
    {
        let ghost pre_view = self@;
        let k = self.index_of(col as i32, row as i32);
        let s = self.data[k];
        let ns: i8 = -s;
        let ghost pre = self.data@;
        proof {
            assert(pre[k as int] == 1 || pre[k as int] == -1);
            lemma_spin_sum_update(pre, k as int, ns);
            lemma_spin_sum_bounds(pre.update(k as int, ns));
            lemma_flip_energy(pre_view, col as int, row as int);
            lemma_energy_bounds(pre_view);
        }
        self.data.set(k, ns);
        self.energy = self.energy + change;
        self.magnetisation = self.magnetisation - 2 * (s as i32);
        proof {
            assert forall|t: int| 0 <= t < self.data@.len() implies (#[trigger] self.data@[t] == 1
                || self.data@[t] == -1) by {
                if t != k {
                    assert(self.data@[t] == pre[t]);
                }
            }
            assert(self@.spins == pre_view.flipped(col as int, row as int).spins);
        }
    }

    /// Writes `value` into the cell at signed coordinates `(i, j)`, read
    /// with periodic wraparound. Only the cell changes: the cached energy
    /// and magnetisation are left as they were, so after a write that
    /// changes a spin they no longer describe the lattice.
    pub fn set_spin(&mut self, i: i32, j: i32, value: i8)
        requires
            old(self).well_shaped(),
            value == 1 || value == -1,
        ensures
            final(self).well_shaped(),
            final(self)@ == (LatticeView {
                spins: old(self)@.spins.update(
                    cell_index(old(self)@.cols, old(self)@.rows, i as int, j as int),
                    value,
                ),
                ..old(self)@
            }),
    {
        let k = self.index_of(i, j);
        let ghost pre = self.data@;
        self.data.set(k, value);
        proof {
            assert forall|t: int| 0 <= t < self.data@.len() implies (#[trigger] self.data@[t] == 1
                || self.data@[t] == -1) by {
                if t != k {
                    assert(self.data@[t] == pre[t]);
                }
            }
        }
    }

    /// Sets the spin at signed coordinates `(i, j)`, read with periodic
    /// wraparound, to `value`, moving the cached energy and magnetisation
    /// with it so that they keep describing the lattice.
    pub fn put_spin(&mut self, i: i32, j: i32, value: i8)
        requires
            old(self).wf(),
            value == 1 || value == -1,
        ensures
            final(self).wf(),
            old(self)@.spin_at(i as int, j as int) == value ==> final(self)@ == old(self)@,
            old(self)@.spin_at(i as int, j as int) != value ==> final(self)@ == old(self)@.flipped(
                wrapped(i as int, old(self)@.cols),
                wrapped(j as int, old(self)@.rows),
            ),
    {
        let col = reflect_index(i, self.cols as i32);
        let row = reflect_index(j, self.rows as i32);
        let ghost v = self@;
        proof {
            lemma_wrapped_idempotent(v.cols, i as int);
            lemma_wrapped_idempotent(v.rows, j as int);
            assert(cell_index(v.cols, v.rows, col as int, row as int) == cell_index(
                v.cols,
                v.rows,
                i as int,
                j as int,
            ));
        }
        if self.spin(col as i32, row as i32) != value {
            let change = self.energy_change_at(col, row);
            self.flip_at(col, row, change);
        }
    }

    /// One Metropolis update with given random inputs: proposes the cell
    /// `(col, row)` and decides with the uniform draw `draw`. Returns whether
    /// the flip was made.
    pub fn step_with(&mut self, col: u16, row: u16, draw: u32) -> (flipped: bool)
        requires
            old(self).wf(),
            (col as int) < old(self)@.cols,
            (row as int) < old(self)@.rows,
        ensures
            final(self).wf(),
            old(self)@.stepped(final(self)@, col as int, row as int, draw as int),
            flipped == accepted(
                old(self)@.acceptance,
                old(self)@.flip_delta(col as int, row as int),
                draw as int,
            ),
    {
        let delta = self.flip_energy(col as i32, row as i32);
        if self.acceptance.accepts(delta, draw) {
            let change = self.energy_change_at(col, row);
            self.flip_at(col, row, change);
            true
        } else {
            false
        }
    }

    /// One Metropolis update: draws a cell uniformly and a uniform 32-bit
    /// number from `rng`, then proceeds as `step_with`.
    pub fn step(&mut self, rng: &mut StdRng)
        requires
            old(self).wf(),
        ensures
            final(self).wf(),
            exists|col: int, row: int, draw: int|
                0 <= col < old(self)@.cols && 0 <= row < old(self)@.rows && 0 <= draw
                    <= u32::MAX && #[trigger] old(self)@.stepped(final(self)@, col, row, draw),
    {
        let col = draw_below(rng, self.cols);
        let row = draw_below(rng, self.rows);
        let draw = draw_u32(rng);
        self.step_with(col, row, draw);
    }

    /// Full pass over the lattice: the sum over all cells of
    /// `(N * s - M)^2`, where `N` is the number of cells and `M` the
    /// magnetisation. The susceptibility is `beta` times this total divided
    /// by `N^3`.
    pub fn squared_deviation_total(&self) -> (r: u128)
        requires
            self.wf(),
        ensures
            r == deviation_sum(self@.spins, self@.size(), self@.magnetisation),
    {
        let len = self.data.len();
        let n: i64 = len as i64;
        let m: i64 = self.magnetisation as i64;
        proof {
            lemma_spin_sum_bounds(self.data@);
            let (c, w) = (self@.cols, self@.rows);
            assert(c * w >= 1) by (nonlinear_arith)
                requires
                    c >= 1,
                    w >= 1,
            ;
        }
        let mut acc: u128 = 0;
        let mut k: usize = 0;
        while k < len
            invariant
                self.wf(),
                len == self@.spins.len(),
                n == len,
                m == self@.magnetisation,
                1 <= n <= MAX_CELLS,
                -n <= m <= n,
                k <= len,
                acc == deviation_sum(self@.spins.take(k as int), n as int, m as int),
                acc <= k * (4 * n * n),
            decreases len - k,
        {
            let s = self.data[k];
            assert(s == 1 || s == -1);
            let d: i64 = if s == 1 {
                n - m
            } else {
                0 - n - m
            };
            assert(-2 * n <= d <= 2 * n);
            assert(0 <= d * d <= 4 * n * n <= 4 * MAX_CELLS * MAX_CELLS) by (nonlinear_arith)
                requires
                    -2 * n <= d <= 2 * n,
                    1 <= n <= MAX_CELLS,
            ;
            assert(acc + d * d <= (k + 1) * (4 * n * n)) by (nonlinear_arith)
                requires
                    acc <= k * (4 * n * n),
                    d * d <= 4 * n * n,
            ;
            assert((k + 1) * (4 * n * n) <= MAX_CELLS * (4 * MAX_CELLS * MAX_CELLS))
                by (nonlinear_arith)
                requires
                    k + 1 <= n,
                    1 <= n <= MAX_CELLS,
            ;
            let sq: u128 = (d * d) as u128;
            proof {
                let t = self@.spins.take(k as int + 1);
                assert(t.drop_last() =~= self@.spins.take(k as int));
                assert(t.last() == s);
                assert(d == n * (s as int) - m) by {
                    if s == 1 {
                        assert(n * 1 == n);
                    } else {
                        assert(n * -1 == -n);
                    }
                }
                assert(deviation_sum(t, n as int, m as int) == deviation_sum(
                    t.drop_last(),
                    n as int,
                    m as int,
                ) + d * d);
            }
            acc = acc + sq;
            k = k + 1;
        }
        assert(self@.spins.take(len as int) =~= self@.spins);
        acc
    }

    /// Full pass over the lattice: the sum of the absolute values of all
    /// spins. Every spin is `+1` or `-1`, so this is always the number of
    /// cells, and the mean absolute spin is always `1`.
    pub fn absolute_spin_total(&self) -> (r: u64)
        requires
            self.well_shaped(),
        ensures
            r == self@.size(),
    {
        let len = self.data.len();
        let mut acc: u64 = 0;
        let mut k: usize = 0;
        while k < len
            invariant
                self.well_shaped(),
                len == self@.spins.len(),
                len <= MAX_CELLS,
                k <= len,
                acc == k,
            decreases len - k,
        {
            let s = self.data[k];
            assert(s == 1 || s == -1);
            let a: u64 = if s < 0 {
                (0 - s) as u64
            } else {
                s as u64
            };
            acc = acc + a;
            k = k + 1;
        }
        acc
    }

    /// Number of cells.
    pub fn size(&self) -> (r: usize)
        requires
            self.well_shaped(),
        ensures
            r == self@.size(),
    {
        self.data.len()
    }

    /// The cached total energy, which equals the lattice energy while the
    /// simulator is well formed.
    pub fn energy(&self) -> (r: i32)
        ensures
            r == self@.energy,
            self.wf() ==> r == lattice_energy(self@.spins, self@.cols, self@.rows),
    {
        self.energy
    }

    /// The cached magnetisation, which equals the sum of all spins while the
    /// simulator is well formed.
    pub fn magnetisation(&self) -> (r: i32)
        ensures
            r == self@.magnetisation,
            self.wf() ==> r == spin_sum(self@.spins),
    {
        self.magnetisation
    }
}

} // verus!
