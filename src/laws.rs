//! Properties of the lattice model and of its Metropolis dynamics.

use crate::acceptance::{accepted, threshold};
use crate::energy::lemma_flip_energy;
use crate::lattice::{
    cell_index, lemma_cell_in_range, lemma_spin_sum_update, wrapped, LatticeView,
};
use vstd::arithmetic::div_mod::{lemma_mod_add_multiples_vanish, lemma_mod_sub_multiples_vanish};
use vstd::prelude::*;

verus! {

/// Periodicity: shifting a coordinate by the lattice's extent along that
/// dimension, in either direction, reads the same spin.
pub proof fn lemma_periodic(v: LatticeView, i: int, j: int)
    requires
        v.well_shaped(),
    ensures
        v.spin_at(i + v.cols, j) == v.spin_at(i, j),
        v.spin_at(i - v.cols, j) == v.spin_at(i, j),
        v.spin_at(i, j + v.rows) == v.spin_at(i, j),
        v.spin_at(i, j - v.rows) == v.spin_at(i, j),
{
    lemma_mod_add_multiples_vanish(i, v.cols);
    lemma_mod_sub_multiples_vanish(i, v.cols);
    lemma_mod_add_multiples_vanish(j, v.rows);
    lemma_mod_sub_multiples_vanish(j, v.rows);
    assert(wrapped(i + v.cols, v.cols) == wrapped(i, v.cols));
    assert(wrapped(i - v.cols, v.cols) == wrapped(i, v.cols));
    assert(wrapped(j + v.rows, v.rows) == wrapped(j, v.rows));
    assert(wrapped(j - v.rows, v.rows) == wrapped(j, v.rows));
}

/// Every update keeps a well-formed state well formed: each cell still
/// holds `+1` or `-1`, the cached magnetisation is still the sum of all
/// spins and the cached energy still the lattice energy.
pub proof fn lemma_step_keeps_wf(pre: LatticeView, post: LatticeView, col: int, row: int, draw: int)
    requires
        pre.wf(),
        0 <= col < pre.cols,
        0 <= row < pre.rows,
        pre.stepped(post, col, row, draw),
    ensures
        post.wf(),
{
    if post != pre {
        let (c, w) = (pre.cols, pre.rows);
        lemma_wrapped_in_range(c, col);
        lemma_wrapped_in_range(w, row);
        lemma_cell_in_range(c, w, col, row);
        let k = cell_index(c, w, col, row);
        let x = pre.spins[k];
        assert(x == 1 || x == -1);
        let ns = (-pre.spin_at(col, row)) as i8;
        lemma_spin_sum_update(pre.spins, k, ns);
        lemma_flip_energy(pre, col, row);
        assert forall|t: int| 0 <= t < post.spins.len() implies (#[trigger] post.spins[t] == 1
            || post.spins[t] == -1) by {
            if t != k {
                assert(post.spins[t] == pre.spins[t]);
            }
        }
    }
}

/// A proposed flip that does not raise the energy is always made.
pub proof fn lemma_downhill_flip_made(
    pre: LatticeView,
    post: LatticeView,
    col: int,
    row: int,
    draw: int,
)
    requires
        pre.stepped(post, col, row, draw),
        pre.flip_delta(col, row) <= 0,
    ensures
        post == pre.flipped(col, row),
{
}

/// Infinite temperature: with both thresholds at `2^32` or above, every
/// proposed flip is made, whatever its energy change and whatever the draw.
pub proof fn lemma_hot_flip_made(pre: LatticeView, post: LatticeView, col: int, row: int, draw: int)
    requires
        pre.acceptance.gain4 > u32::MAX,
        pre.acceptance.gain8 > u32::MAX,
        0 <= draw <= u32::MAX,
        pre.stepped(post, col, row, draw),
    ensures
        post == pre.flipped(col, row),
{
    assert(accepted(pre.acceptance, pre.flip_delta(col, row), draw));
}

/// Zero temperature: with both thresholds at `0`, a fully aligned lattice
/// stays as it is under every update, since each of its flips costs `+8`.
pub proof fn lemma_cold_aligned_unchanged(
    pre: LatticeView,
    post: LatticeView,
    col: int,
    row: int,
    draw: int,
)
    requires
        pre.wf(),
        pre.acceptance.gain4 == 0,
        pre.acceptance.gain8 == 0,
        forall|k: int| 0 <= k < pre.spins.len() ==> #[trigger] pre.spins[k] == pre.spins[0],
        0 <= draw,
        pre.stepped(post, col, row, draw),
    ensures
        post == pre,
{
    let (c, w) = (pre.cols, pre.rows);
    assert(c * w >= 1) by (nonlinear_arith)
        requires
            c >= 1,
            w >= 1,
    ;
    let s = pre.spins[0] as int;
    assert forall|i: int, j: int| #[trigger] pre.spin_at(i, j) == s by {
        lemma_cell_in_range(c, w, wrapped(i, c), wrapped(j, w));
        assert(0 <= cell_index(c, w, i, j) < pre.spins.len());
    }
    assert(pre.spins[0] == 1 || pre.spins[0] == -1);
    assert(pre.spin_at(col, row) == s);
    assert(pre.neighbour_sum(col, row) == 4 * s);
    if s == 1 {
        assert(pre.flip_delta(col, row) == 2 * 1 * 4);
    } else {
        assert(pre.flip_delta(col, row) == 2 * -1 * -4);
    }
    assert(threshold(pre.acceptance, 8) == 0);
}

proof fn lemma_wrapped_in_range(b: int, i: int)
    requires
        b >= 1,
        0 <= i < b,
    ensures
        wrapped(i, b) == i,
{
    vstd::arithmetic::div_mod::lemma_small_mod(i as nat, b as nat);
}

} // verus!
