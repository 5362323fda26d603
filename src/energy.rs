//! The nearest-neighbour energy of a lattice, and how one flip changes it.

use crate::lattice::{cell_index, wrapped, LatticeView};
use vstd::arithmetic::div_mod::{lemma_fundamental_div_mod, lemma_fundamental_div_mod_converse};
use vstd::prelude::*;

verus! {

/// Position of the neighbour one column further on (periodically) of the
/// cell at position `p`.
pub open spec fn right_of(cols: int, rows: int, p: int) -> int {
    cell_index(cols, rows, p / rows + 1, p % rows)
}

/// Position of the neighbour one row further on (periodically) of the cell
/// at position `p`.
pub open spec fn below_of(cols: int, rows: int, p: int) -> int {
    cell_index(cols, rows, p / rows, p % rows + 1)
}

/// Interaction of the cell at position `p` with its two forward neighbours;
/// every nearest-neighbour pair is counted once over all cells.
pub open spec fn bond_energy(s: Seq<i8>, cols: int, rows: int, p: int) -> int {
    s[p] as int * (s[right_of(cols, rows, p)] as int + s[below_of(cols, rows, p)] as int)
}

/// Sum of `bond_energy` over the first `k` positions.
pub open spec fn bond_total(s: Seq<i8>, cols: int, rows: int, k: nat) -> int
    decreases k,
{
    if k == 0 {
        0
    } else {
        bond_total(s, cols, rows, (k - 1) as nat) + bond_energy(s, cols, rows, k - 1)
    }
}

/// Total nearest-neighbour energy with coupling 1 and no external field:
/// minus the sum, over all nearest-neighbour pairs, of the product of their
/// spins.
pub open spec fn lattice_energy(s: Seq<i8>, cols: int, rows: int) -> int {
    -bond_total(s, cols, rows, (cols * rows) as nat)
}

proof fn lemma_wrap_step(c: int, a: int)
    requires
        1 <= c,
        0 <= a < c,
    ensures
        wrapped(a, c) == a,
        wrapped(a + 1, c) == if a + 1 < c {
            a + 1
        } else {
            0
        },
        wrapped(a - 1, c) == if a >= 1 {
            a - 1
        } else {
            c - 1
        },
{
    lemma_fundamental_div_mod_converse(a, c, 0, a);
    if a + 1 < c {
        lemma_fundamental_div_mod_converse(a + 1, c, 0, a + 1);
    } else {
        lemma_fundamental_div_mod_converse(a + 1, c, 1, 0);
    }
    if a >= 1 {
        lemma_fundamental_div_mod_converse(a - 1, c, 0, a - 1);
    } else {
        lemma_fundamental_div_mod_converse(a - 1, c, -1, c - 1);
    }
}

proof fn lemma_index_parts(rows: int, a: int, b: int)
    requires
        rows >= 1,
        0 <= b < rows,
    ensures
        (a * rows + b) / rows == a,
        (a * rows + b) % rows == b,
{
    lemma_fundamental_div_mod_converse(a * rows + b, rows, a, b);
}

proof fn lemma_index_injective(rows: int, a1: int, b1: int, a2: int, b2: int)
    requires
        rows >= 1,
        0 <= b1 < rows,
        0 <= b2 < rows,
        a1 * rows + b1 == a2 * rows + b2,
    ensures
        a1 == a2,
        b1 == b2,
{
    lemma_index_parts(rows, a1, b1);
    lemma_index_parts(rows, a2, b2);
}

/// The forward neighbours of a cell inside the lattice are inside it.
pub proof fn lemma_neighbours_in_range(c: int, w: int, q: int)
    requires
        1 <= c,
        1 <= w,
        0 <= q < c * w,
    ensures
        0 <= right_of(c, w, q) < c * w,
        0 <= below_of(c, w, q) < c * w,
{
    crate::lattice::lemma_cell_in_range(c, w, wrapped(q / w + 1, c), wrapped(q % w, w));
    crate::lattice::lemma_cell_in_range(c, w, wrapped(q / w, c), wrapped(q % w + 1, w));
}

/// A fully aligned lattice has energy `-2N`: each cell's two forward bonds
/// contribute `-1` each.
pub proof fn lemma_aligned_energy(s: Seq<i8>, c: int, w: int, k: nat)
    requires
        1 <= c,
        1 <= w,
        s.len() == c * w,
        k <= c * w,
        forall|q: int| 0 <= q < s.len() ==> #[trigger] s[q] == 1,
    ensures
        bond_total(s, c, w, k) == 2 * k,
    decreases k,
{
    if k > 0 {
        lemma_aligned_energy(s, c, w, (k - 1) as nat);
        lemma_neighbours_in_range(c, w, k - 1);
        assert(s[right_of(c, w, k - 1)] == 1);
        assert(s[below_of(c, w, k - 1)] == 1);
    }
}

/// Change of `bond_energy` at position `q` from `s` to `t`.
pub open spec fn bond_change(s: Seq<i8>, t: Seq<i8>, cols: int, rows: int, q: int) -> int {
    bond_energy(t, cols, rows, q) - bond_energy(s, cols, rows, q)
}

/// When `bond_energy` can differ between `s` and `t` only at the positions
/// `p`, `l` and `u` (which may coincide), the totals differ by the changes
/// at those positions, each counted once.
proof fn lemma_bond_total_change(
    s: Seq<i8>,
    t: Seq<i8>,
    cols: int,
    rows: int,
    p: int,
    l: int,
    u: int,
    k: nat,
)
    requires
        0 <= p,
        0 <= l,
        0 <= u,
        forall|q: int|
            0 <= q < k && q != p && q != l && q != u ==> bond_energy(t, cols, rows, q)
                == bond_energy(s, cols, rows, q),
    ensures
        bond_total(t, cols, rows, k) - bond_total(s, cols, rows, k) == (if p < k {
            bond_change(s, t, cols, rows, p)
        } else {
            0
        }) + (if l < k && l != p {
            bond_change(s, t, cols, rows, l)
        } else {
            0
        }) + (if u < k && u != p && u != l {
            bond_change(s, t, cols, rows, u)
        } else {
            0
        }),
    decreases k,
{
    if k > 0 {
        let q = k - 1;
        lemma_bond_total_change(s, t, cols, rows, p, l, u, q as nat);
        if q != p && q != l && q != u {
            assert(bond_energy(t, cols, rows, q) == bond_energy(s, cols, rows, q));
        }
    }
}

proof fn lemma_index_distinct(rows: int, a1: int, b1: int, a2: int, b2: int)
    requires
        rows >= 1,
        0 <= b1 < rows,
        0 <= b2 < rows,
    ensures
        (a1 * rows + b1 == a2 * rows + b2) <==> (a1 == a2 && b1 == b2),
{
    if a1 * rows + b1 == a2 * rows + b2 {
        lemma_index_injective(rows, a1, b1, a2, b2);
    }
}

/// A well-shaped lattice has energy between `-2N` and `2N`.
pub proof fn lemma_energy_bounds(v: LatticeView)
    requires
        v.well_shaped(),
    ensures
        -2 * v.size() <= lattice_energy(v.spins, v.cols, v.rows) <= 2 * v.size(),
{
    lemma_bond_total_bounds(v, v.size() as nat);
}

proof fn lemma_bond_total_bounds(v: LatticeView, k: nat)
    requires
        v.well_shaped(),
        k <= v.size(),
    ensures
        -2 * k <= bond_total(v.spins, v.cols, v.rows, k) <= 2 * k,
    decreases k,
{
    if k > 0 {
        let (s, c, w) = (v.spins, v.cols, v.rows);
        let q = k - 1;
        lemma_bond_total_bounds(v, q as nat);
        lemma_neighbours_in_range(c, w, q);
        let (x, y, z) = (s[q] as int, s[right_of(c, w, q)] as int, s[below_of(c, w, q)] as int);
        assert(x == 1 || x == -1);
        assert(y == 1 || y == -1);
        assert(z == 1 || z == -1);
        assert(-2 <= x * (y + z) <= 2) by (nonlinear_arith)
            requires
                x == 1 || x == -1,
                -2 <= y + z <= 2,
        ;
    }
}

/// Flipping the spin at `(a, b)` changes the lattice energy by exactly
/// `energy_change(a, b)`.
#[verifier::rlimit(40)]
pub proof fn lemma_flip_energy(v: LatticeView, a: int, b: int)
    requires
        v.well_shaped(),
        0 <= a < v.cols,
        0 <= b < v.rows,
    ensures
        lattice_energy(v.flipped(a, b).spins, v.cols, v.rows) == lattice_energy(
            v.spins,
            v.cols,
            v.rows,
        ) + v.energy_change(a, b),
{
    let (c, w) = (v.cols, v.rows);
    let s = v.spins;
    let t = v.flipped(a, b).spins;
    let n = c * w;
    lemma_wrap_step(c, a);
    lemma_wrap_step(w, b);
    let ra = wrapped(a + 1, c);
    let la = wrapped(a - 1, c);
    let db = wrapped(b + 1, w);
    let ub = wrapped(b - 1, w);
    lemma_wrap_step(c, la);
    lemma_wrap_step(w, ub);
    assert(ra == a <==> c == 1);
    assert(la == a <==> c == 1);
    assert(db == b <==> w == 1);
    assert(ub == b <==> w == 1);
    let p = a * w + b;
    let l = la * w + b;
    let u = a * w + ub;
    assert(cell_index(c, w, a, b) == p);
    lemma_index_parts(w, a, b);
    lemma_index_parts(w, la, b);
    lemma_index_parts(w, a, ub);
    assert(right_of(c, w, p) == ra * w + b);
    assert(below_of(c, w, p) == a * w + db);
    assert(right_of(c, w, l) == p);
    assert(below_of(c, w, l) == la * w + db);
    assert(right_of(c, w, u) == ra * w + ub);
    assert(below_of(c, w, u) == p);
    lemma_index_distinct(w, a, b, la, b);
    lemma_index_distinct(w, a, b, a, ub);
    lemma_index_distinct(w, la, b, a, ub);
    lemma_index_distinct(w, ra, b, a, b);
    lemma_index_distinct(w, a, db, a, b);
    lemma_index_distinct(w, la, db, a, b);
    lemma_index_distinct(w, ra, ub, a, b);
    lemma_index_distinct(w, la, db, la, b);
    lemma_index_distinct(w, ra, ub, a, ub);
    crate::lattice::lemma_cell_in_range(c, w, a, b);
    crate::lattice::lemma_cell_in_range(c, w, la, b);
    crate::lattice::lemma_cell_in_range(c, w, a, ub);
    crate::lattice::lemma_cell_in_range(c, w, ra, b);
    crate::lattice::lemma_cell_in_range(c, w, a, db);
    crate::lattice::lemma_cell_in_range(c, w, la, db);
    crate::lattice::lemma_cell_in_range(c, w, ra, ub);
    assert forall|q: int|
        0 <= q < n && q != p && q != l && q != u implies bond_energy(t, c, w, q) == bond_energy(
        s,
        c,
        w,
        q,
    ) by {
        let qa = q / w;
        let qb = q % w;
        lemma_fundamental_div_mod(q, w);
        assert(w * qa == qa * w) by (nonlinear_arith);
        assert(q == qa * w + qb);
        assert(qa < c) by {
            if qa >= c {
                assert(qa * w >= c * w) by (nonlinear_arith)
                    requires
                        qa >= c,
                        w >= 1,
                ;
            }
        }
        assert(0 <= qa) by {
            if qa < 0 {
                assert(qa * w <= -w) by (nonlinear_arith)
                    requires
                        qa < 0,
                        w >= 1,
                ;
            }
        }
        lemma_wrap_step(c, qa);
        lemma_wrap_step(w, qb);
        let rq = wrapped(qa + 1, c) * w + qb;
        let dq = qa * w + wrapped(qb + 1, w);
        assert(right_of(c, w, q) == rq);
        assert(below_of(c, w, q) == dq);
        if rq == p {
            lemma_index_injective(w, wrapped(qa + 1, c), qb, a, b);
            assert(q == l);
        }
        if dq == p {
            lemma_index_injective(w, qa, wrapped(qb + 1, w), a, b);
            assert(q == u);
        }
        crate::lattice::lemma_cell_in_range(c, w, wrapped(qa + 1, c), qb);
        crate::lattice::lemma_cell_in_range(c, w, qa, wrapped(qb + 1, w));
        assert(t[q] == s[q]);
        assert(t[rq] == s[rq]);
        assert(t[dq] == s[dq]);
    }
    lemma_bond_total_change(s, t, c, w, p, l, u, n as nat);
    let sp = s[p] as int;
    assert(t[p] as int == -sp);
    assert(sp == 1 || sp == -1);
    let (sr, sd, sl, su) = (
        s[ra * w + b] as int,
        s[a * w + db] as int,
        s[l] as int,
        s[u] as int,
    );
    assert(v.spin_at(a, b) == sp);
    assert(v.spin_at(a + 1, b) == sr);
    assert(v.spin_at(a - 1, b) == sl);
    assert(v.spin_at(a, b - 1) == su);
    assert(v.spin_at(a, b + 1) == sd);
    let dp = bond_change(s, t, c, w, p);
    let dl = bond_change(s, t, c, w, l);
    let du = bond_change(s, t, c, w, u);
    if c >= 2 && w >= 2 {
        assert(t[ra * w + b] == s[ra * w + b]);
        assert(t[a * w + db] == s[a * w + db]);
        assert(dp == -2 * sp * (sr + sd)) by {
            assert((-sp) * (sr + sd) - sp * (sr + sd) == -2 * sp * (sr + sd)) by (nonlinear_arith);
        }
        assert(t[l] == s[l]);
        assert(t[la * w + db] == s[la * w + db]);
        assert(dl == -2 * sl * sp) by {
            let x = s[la * w + db] as int;
            assert(sl * ((-sp) + x) - sl * (sp + x) == -2 * sl * sp) by (nonlinear_arith);
        }
        assert(t[u] == s[u]);
        assert(t[ra * w + ub] == s[ra * w + ub]);
        assert(du == -2 * su * sp) by {
            let x = s[ra * w + ub] as int;
            assert(su * (x + (-sp)) - su * (x + sp) == -2 * su * sp) by (nonlinear_arith);
        }
        assert(-(-2 * sp * (sr + sd) + -2 * sl * sp + -2 * su * sp) == 2 * sp * ((sr + sl) + (su
            + sd))) by (nonlinear_arith);
    } else if c == 1 && w >= 2 {
        assert(t[a * w + db] == s[a * w + db]);
        assert(dp == -2 * sp * sd) by {
            assert((-sp) * ((-sp) + sd) - sp * (sp + sd) == -2 * sp * sd) by (nonlinear_arith);
        }
        assert(t[u] == s[u]);
        assert(du == -2 * su * sp) by {
            assert(su * (su + (-sp)) - su * (su + sp) == -2 * su * sp) by (nonlinear_arith);
        }
        assert(-(-2 * sp * sd + -2 * su * sp) == 2 * sp * (0 + (su + sd))) by (nonlinear_arith);
    } else if c >= 2 && w == 1 {
        assert(t[ra * w + b] == s[ra * w + b]);
        assert(dp == -2 * sp * sr) by {
            assert((-sp) * (sr + (-sp)) - sp * (sr + sp) == -2 * sp * sr) by (nonlinear_arith);
        }
        assert(t[l] == s[l]);
        assert(dl == -2 * sl * sp) by {
            assert(sl * ((-sp) + sl) - sl * (sp + sl) == -2 * sl * sp) by (nonlinear_arith);
        }
        assert(-(-2 * sp * sr + -2 * sl * sp) == 2 * sp * ((sr + sl) + 0)) by (nonlinear_arith);
    } else {
        assert(dp == 0) by {
            assert((-sp) * ((-sp) + (-sp)) - sp * (sp + sp) == 0) by (nonlinear_arith);
        }
        assert(2 * sp * (0 + 0) == 0) by (nonlinear_arith);
    }
}

} // verus!
