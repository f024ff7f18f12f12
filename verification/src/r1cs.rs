//! Rank-one constraint systems over the base ring, as a source relation
//! for reductions.
//!
//! An index is three sparse matrices `(a, b, c)` in triplet form; a full
//! assignment `z` is the instance part followed by the witness part, and
//! satisfaction is the row-wise product check `(a z) . (b z) == c z`.

use vstd::prelude::*;

use crate::sponge::Sponge;
use crate::zq::{Q_MAX, Zq};

verus! {

/// A sparse matrix in triplet form: `(row, column, value)` entries over
/// the base ring, duplicates summing.
pub struct SparseMatrix {
    pub nrows: usize,
    pub ncols: usize,
    pub entries: Vec<(usize, usize, Zq)>,
}

impl SparseMatrix {
    /// Valid triplets: indices in range, values in the ring of `q`.
    pub open spec fn wf(self, q: int) -> bool {
        forall|t: int|
            0 <= t < self.entries@.len() ==> (#[trigger] self.entries@[t]).0 < self.nrows
                && self.entries@[t].1 < self.ncols && self.entries@[t].2.wf()
                && self.entries@[t].2.modulus() == q
    }

    /// The dense values after folding the first `n` triplets into the zero
    /// vector: entry `r` accumulates `value * z[column]` for each triplet
    /// in row `r`.
    pub open spec fn spec_fold(self, z: Seq<Zq>, q: int, n: nat) -> Seq<int>
        decreases n,
    {
        if n == 0 {
            Seq::new(self.nrows as nat, |i: int| 0int)
        } else {
            let prev = self.spec_fold(z, q, (n - 1) as nat);
            let t = self.entries@[n - 1];
            prev.update(
                t.0 as int,
                (prev[t.0 as int] + (t.2.val() * z[t.1 as int].val()) % q) % q,
            )
        }
    }

    /// Folding preserves the row count.
    pub proof fn lemma_fold_len(self, z: Seq<Zq>, q: int, n: nat)
        requires
            self.wf(q),
            n <= self.entries@.len(),
        ensures
            self.spec_fold(z, q, n).len() == self.nrows,
        decreases n,
    {
        if n > 0 {
            self.lemma_fold_len(z, q, (n - 1) as nat);
            assert((#[trigger] self.entries@[n - 1]).0 < self.nrows);
            let prev = self.spec_fold(z, q, (n - 1) as nat);
            let e = self.entries@[n - 1];
            assert(self.spec_fold(z, q, n) == prev.update(
                e.0 as int,
                (prev[e.0 as int] + (e.2.val() * z[e.1 as int].val()) % q) % q,
            ));
            assert(prev.update(
                e.0 as int,
                (prev[e.0 as int] + (e.2.val() * z[e.1 as int].val()) % q) % q,
            ).len() == prev.len());
        } else {
            assert(self.spec_fold(z, q, 0) =~= Seq::new(self.nrows as nat, |i: int| 0int));
            assert(Seq::new(self.nrows as nat, |i: int| 0int).len() == self.nrows as nat);
        }
    }

    /// With exactly one triplet per row, in row order, the fold assigns
    /// each processed row its triplet's contribution and leaves later
    /// rows zero.
    pub proof fn lemma_fold_rows_in_order(self, z: Seq<Zq>, q: int, n: nat)
        requires
            self.wf(q),
            q >= 1,
            self.entries@.len() == self.nrows,
            n <= self.entries@.len(),
            forall|u: int| 0 <= u < self.entries@.len() ==> (#[trigger] self.entries@[u]).0 == u,
        ensures
            forall|t: int|
                0 <= t < n ==> self.spec_fold(z, q, n)[t] == (0 + triplet_val(
                    #[trigger] self.entries@[t],
                    z,
                    q,
                )) % q,
            forall|t: int| n <= t < self.nrows ==> #[trigger] self.spec_fold(z, q, n)[t] == 0,
        decreases n,
    {
        self.lemma_fold_len(z, q, n);
        if n == 0 {
            assert(self.spec_fold(z, q, 0) =~= Seq::new(self.nrows as nat, |i: int| 0int));
        } else {
            self.lemma_fold_rows_in_order(z, q, (n - 1) as nat);
            self.lemma_fold_len(z, q, (n - 1) as nat);
            let prev = self.spec_fold(z, q, (n - 1) as nat);
            let e = self.entries@[n - 1];
            assert(self.spec_fold(z, q, n) == prev.update(
                e.0 as int,
                (prev[e.0 as int] + (e.2.val() * z[e.1 as int].val()) % q) % q,
            ));
            assert(e.0 == n - 1);
            assert(prev[n - 1] == 0);
        }
    }

    /// Multiply by a dense vector: the triplets folded in order.
    pub fn mul_vec(&self, q: u64, z: &Vec<Zq>) -> (r: Vec<Zq>)
        requires
            2 <= q <= Q_MAX,
            self.wf(q as int),
            z@.len() == self.ncols,
            crate::linalg::zq_vec_wf(z@, q as int),
        ensures
            r@.len() == self.nrows,
            crate::linalg::zq_vec_wf(r@, q as int),
            forall|i: int|
                0 <= i < self.nrows ==> (#[trigger] r@[i]).val() == self.spec_fold(
                    z@,
                    q as int,
                    self.entries@.len(),
                )[i],
    {
        let mut r: Vec<Zq> = Vec::new();
        for i in 0..self.nrows
            invariant
                2 <= q <= Q_MAX,
                r@.len() == i,
                forall|t: int| 0 <= t < i ==> (#[trigger] r@[t]).wf() && r@[t].modulus() == q
                    && r@[t].val() == 0,
        {
            r.push(Zq::zero(q));
        }
        proof {
            assert forall|i: int| 0 <= i < self.nrows implies (#[trigger] r@[i]).val()
                == self.spec_fold(z@, q as int, 0)[i] by {}
        }
        let ne = self.entries.len();
        for t in 0..ne
            invariant
                2 <= q <= Q_MAX,
                ne == self.entries@.len(),
                self.wf(q as int),
                z@.len() == self.ncols,
                crate::linalg::zq_vec_wf(z@, q as int),
                r@.len() == self.nrows,
                crate::linalg::zq_vec_wf(r@, q as int),
                forall|i: int|
                    0 <= i < self.nrows ==> (#[trigger] r@[i]).val() == self.spec_fold(
                        z@,
                        q as int,
                        t as nat,
                    )[i],
        {
            let (row, col, val) = self.entries[t];
            let ghost r0 = r@;
            let term = val.mul(&z[col]);
            let updated = r[row].add(&term);
            r[row] = updated;
            proof {
                let prev = self.spec_fold(z@, q as int, t as nat);
                let next = self.spec_fold(z@, q as int, (t + 1) as nat);
                self.lemma_fold_len(z@, q as int, t as nat);
                self.lemma_fold_len(z@, q as int, (t + 1) as nat);
                assert(self.entries@[t as int] == (row, col, val));
                assert(next == prev.update(
                    row as int,
                    (prev[row as int] + (val.val() * z@[col as int].val()) % (q as int)) % (
                    q as int),
                ));
                assert(r@ == r0.update(row as int, updated));
                assert forall|i: int| 0 <= i < self.nrows implies (#[trigger] r@[i]).val()
                    == next[i] by {
                    if i == row as int {
                        assert(r@[i] == updated);
                        assert(r0[i].val() == prev[i]);
                        assert(term.val() == (val.val() * z@[col as int].val()) % (q as int));
                        assert(updated.val() == (r0[i].val() + term.val()) % (q as int));
                    } else {
                        assert(r@[i] == r0[i]);
                        assert(next[i] == prev[i]);
                    }
                }
            }
        }
        r
    }
}

/// An R1CS index: the three coefficient matrices.
pub struct Index {
    pub a: SparseMatrix,
    pub b: SparseMatrix,
    pub c: SparseMatrix,
}

/// The public assignment prefix.
pub struct Instance(pub Vec<Zq>);

/// The private assignment suffix.
pub struct Witness(pub Vec<Zq>);

/// The shape of a generated system.
pub struct Size {
    pub num_constraints: usize,
    pub num_instance_variables: usize,
    pub num_witness_variables: usize,
}

/// The folded contribution of one triplet to its row: `value * z[column]`
/// modulo `q`.
pub open spec fn triplet_val(e: (usize, usize, Zq), z: Seq<Zq>, q: int) -> int {
    (e.2.val() * z[e.1 as int].val()) % q
}

/// Row `t` of the folded product check: `(A z)_t * (B z)_t == (C z)_t`
/// modulo `q`.
pub open spec fn row_satisfied(i: Index, z: Seq<Zq>, q: int, t: int) -> bool {
    (i.a.spec_fold(z, q, i.a.entries@.len())[t] * i.b.spec_fold(z, q, i.b.entries@.len())[t]) % q
        == i.c.spec_fold(z, q, i.c.entries@.len())[t]
}

/// The satisfaction predicate over the folded matrices: the three shapes
/// agree, the assignment fills the column space, and every row passes the
/// product check.
pub open spec fn spec_satisfied(i: Index, x: Seq<Zq>, w: Seq<Zq>, q: int) -> bool {
    &&& i.a.nrows == i.b.nrows && i.b.nrows == i.c.nrows
    &&& i.a.ncols == i.b.ncols && i.b.ncols == i.c.ncols
    &&& i.a.ncols == x.len() + w.len()
    &&& forall|t: int|
        0 <= t < i.a.nrows ==> (i.a.spec_fold(x + w, q, i.a.entries@.len())[t] * i.b.spec_fold(
            x + w,
            q,
            i.b.entries@.len(),
        )[t]) % q == #[trigger] i.c.spec_fold(x + w, q, i.c.entries@.len())[t]
}

/// The constraint-system relation.
pub struct R1CS {
    pub q: u64,
}

impl R1CS {
    /// The three matrices agree in shape, and the assignment splits the
    /// column space.
    pub fn is_well_defined(&self, i: &Index, x: &Instance, w: Option<&Witness>) -> (ok: bool)
        ensures
            ok <==> {
                &&& i.a.nrows == i.b.nrows && i.b.nrows == i.c.nrows
                &&& i.a.ncols == i.b.ncols && i.b.ncols == i.c.ncols
                &&& match w {
                    Some(w) => i.a.ncols == x.0@.len() + w.0@.len(),
                    None => i.a.ncols <= x.0@.len(),
                }
            },
    {
        let matrices_same_dim = i.a.nrows == i.b.nrows && i.b.nrows == i.c.nrows && i.a.ncols
            == i.b.ncols && i.b.ncols == i.c.ncols;
        match w {
            Some(w) => {
                matrices_same_dim && x.0.len() <= usize::MAX - w.0.len() && i.a.ncols == x.0.len()
                    + w.0.len()
            },
            None => matrices_same_dim && i.a.ncols <= x.0.len(),
        }
    }

    /// The full assignment satisfies every row: `(a z) . (b z) == c z`.
    pub fn is_satisfied(&self, i: &Index, x: &Instance, w: &Witness) -> (ok: bool)
        requires
            2 <= self.q <= Q_MAX,
            i.a.wf(self.q as int),
            i.b.wf(self.q as int),
            i.c.wf(self.q as int),
            crate::linalg::zq_vec_wf(x.0@, self.q as int),
            crate::linalg::zq_vec_wf(w.0@, self.q as int),
        ensures
            ok <==> spec_satisfied(*i, x.0@, w.0@, self.q as int),
    {
        if !self.is_well_defined(i, x, Some(w)) {
            return false;
        }
        let q = self.q;
        let mut z: Vec<Zq> = Vec::new();
        let nx = x.0.len();
        for t in 0..nx
            invariant
                nx == x.0@.len(),
                crate::linalg::zq_vec_wf(x.0@, q as int),
                z@.len() == t,
                z@ == x.0@.take(t as int),
        {
            z.push(x.0[t]);
            proof {
                assert(z@ =~= x.0@.take(t as int + 1));
            }
        }
        let nw = w.0.len();
        for t in 0..nw
            invariant
                nx == x.0@.len(),
                nw == w.0@.len(),
                crate::linalg::zq_vec_wf(x.0@, q as int),
                crate::linalg::zq_vec_wf(w.0@, q as int),
                z@.len() == nx + t,
                z@ == x.0@.take(nx as int) + w.0@.take(t as int),
        {
            z.push(w.0[t]);
            proof {
                assert(z@ =~= x.0@.take(nx as int) + w.0@.take(t as int + 1));
            }
        }
        proof {
            assert(z@ =~= x.0@ + w.0@);
            assert(crate::linalg::zq_vec_wf(z@, q as int));
        }
        let az = i.a.mul_vec(q, &z);
        let bz = i.b.mul_vec(q, &z);
        let cz = i.c.mul_vec(q, &z);
        let rows = i.a.nrows;
        for t in 0..rows
            invariant
                2 <= q <= Q_MAX,
                q == self.q,
                rows == i.a.nrows == i.b.nrows,
                i.b.nrows == i.c.nrows,
                z@ == x.0@ + w.0@,
                az@.len() == i.a.nrows,
                bz@.len() == i.b.nrows,
                cz@.len() == i.c.nrows,
                crate::linalg::zq_vec_wf(az@, q as int),
                crate::linalg::zq_vec_wf(bz@, q as int),
                crate::linalg::zq_vec_wf(cz@, q as int),
                forall|u: int|
                    0 <= u < az@.len() ==> (#[trigger] az@[u]).val() == i.a.spec_fold(
                        z@,
                        q as int,
                        i.a.entries@.len(),
                    )[u],
                forall|u: int|
                    0 <= u < bz@.len() ==> (#[trigger] bz@[u]).val() == i.b.spec_fold(
                        z@,
                        q as int,
                        i.b.entries@.len(),
                    )[u],
                forall|u: int|
                    0 <= u < cz@.len() ==> (#[trigger] cz@[u]).val() == i.c.spec_fold(
                        z@,
                        q as int,
                        i.c.entries@.len(),
                    )[u],
                forall|u: int|
                    0 <= u < t ==> (i.a.spec_fold(z@, q as int, i.a.entries@.len())[u]
                        * i.b.spec_fold(z@, q as int, i.b.entries@.len())[u]) % (q as int)
                        == #[trigger] i.c.spec_fold(z@, q as int, i.c.entries@.len())[u],
        {
            let prod = az[t].mul(&bz[t]);
            if prod.val_u64() != cz[t].val_u64() {
                proof {
                    assert((i.a.spec_fold(z@, q as int, i.a.entries@.len())[t as int]
                        * i.b.spec_fold(z@, q as int, i.b.entries@.len())[t as int]) % (
                    q as int) != #[trigger] i.c.spec_fold(
                        z@,
                        q as int,
                        i.c.entries@.len(),
                    )[t as int]);
                }
                return false;
            }
        }
        true
    }

    /// A pseudorandomly assigned system of chained product constraints,
    /// each satisfied by construction: row `i` forces
    /// `z[i % v] * z[(i+1) % v] == coeff * z[(i+2) % v]` with `coeff`
    /// chosen to make the row hold (or pinned to the constant slot when
    /// the target is not a unit).
    pub fn generate_satisfied_instance(&self, size: &Size, g: &mut crate::sponge::Sponge) -> (res:
        (Index, Instance, Witness))
        requires
            2 <= self.q <= Q_MAX,
            1 <= size.num_instance_variables + size.num_witness_variables,
            size.num_constraints < 0x1000_0000,
            size.num_instance_variables + size.num_witness_variables < 0x1000_0000,
        ensures
            res.1.0@.len() == size.num_instance_variables,
            res.2.0@.len() == size.num_witness_variables,
            crate::linalg::zq_vec_wf(res.1.0@, self.q as int),
            crate::linalg::zq_vec_wf(res.2.0@, self.q as int),
            res.0.a.wf(self.q as int),
            res.0.b.wf(self.q as int),
            res.0.c.wf(self.q as int),
            res.0.a.nrows == size.num_constraints,
            res.0.a.ncols == size.num_instance_variables + size.num_witness_variables,
            spec_satisfied(res.0, res.1.0@, res.2.0@, self.q as int),
            (res.1.0@ + res.2.0@)[0].val() == 1,
    {
        self.generate_instance(size, g, false)
    }

    /// The same construction with the last row replaced by the
    /// unsatisfiable `0 * 1 == 1`, so the generated triple violates
    /// exactly that one constraint.
    pub fn generate_unsatisfied_instance(
        &self,
        size: &Size,
        g: &mut crate::sponge::Sponge,
    ) -> (res: (Index, Instance, Witness))
        requires
            2 <= self.q <= Q_MAX,
            1 <= size.num_constraints,
            1 <= size.num_instance_variables + size.num_witness_variables,
            size.num_constraints < 0x1000_0000,
            size.num_instance_variables + size.num_witness_variables < 0x1000_0000,
        ensures
            res.1.0@.len() == size.num_instance_variables,
            res.2.0@.len() == size.num_witness_variables,
            crate::linalg::zq_vec_wf(res.1.0@, self.q as int),
            crate::linalg::zq_vec_wf(res.2.0@, self.q as int),
            res.0.a.wf(self.q as int),
            res.0.b.wf(self.q as int),
            res.0.c.wf(self.q as int),
            res.0.a.nrows == size.num_constraints,
            res.0.a.ncols == size.num_instance_variables + size.num_witness_variables,
            !spec_satisfied(res.0, res.1.0@, res.2.0@, self.q as int),
            forall|t: int|
                0 <= t < size.num_constraints - 1 ==> #[trigger] row_satisfied(
                    res.0,
                    res.1.0@ + res.2.0@,
                    self.q as int,
                    t,
                ),
            !row_satisfied(
                res.0,
                res.1.0@ + res.2.0@,
                self.q as int,
                size.num_constraints - 1,
            ),
    {
        self.generate_instance(size, g, true)
    }

    fn generate_instance(&self, size: &Size, g: &mut crate::sponge::Sponge, spoil: bool) -> (res:
        (Index, Instance, Witness))
        requires
            2 <= self.q <= Q_MAX,
            spoil ==> 1 <= size.num_constraints,
            1 <= size.num_instance_variables + size.num_witness_variables,
            size.num_constraints < 0x1000_0000,
            size.num_instance_variables + size.num_witness_variables < 0x1000_0000,
        ensures
            res.1.0@.len() == size.num_instance_variables,
            res.2.0@.len() == size.num_witness_variables,
            crate::linalg::zq_vec_wf(res.1.0@, self.q as int),
            crate::linalg::zq_vec_wf(res.2.0@, self.q as int),
            res.0.a.wf(self.q as int),
            res.0.b.wf(self.q as int),
            res.0.c.wf(self.q as int),
            res.0.a.nrows == size.num_constraints,
            res.0.a.ncols == size.num_instance_variables + size.num_witness_variables,
            !spoil ==> spec_satisfied(res.0, res.1.0@, res.2.0@, self.q as int),
            spoil ==> !spec_satisfied(res.0, res.1.0@, res.2.0@, self.q as int),
            spoil ==> forall|t: int|
                0 <= t < size.num_constraints - 1 ==> #[trigger] row_satisfied(
                    res.0,
                    res.1.0@ + res.2.0@,
                    self.q as int,
                    t,
                ),
            spoil ==> !row_satisfied(
                res.0,
                res.1.0@ + res.2.0@,
                self.q as int,
                size.num_constraints - 1,
            ),
            (res.1.0@ + res.2.0@)[0].val() == 1,
    {
        let q = self.q;
        let ghost qi = q as int;
        let num_vars = size.num_instance_variables + size.num_witness_variables;
        let mut z: Vec<Zq> = Vec::new();
        z.push(Zq::one(q));
        for t in 1..num_vars
            invariant
                2 <= q <= Q_MAX,
                z@.len() == t,
                crate::linalg::zq_vec_wf(z@, q as int),
                z@[0].val() == 1,
        {
            let e = crate::sample::sample_uniform_elem(q, 1, g);
            z.push(e.constant_coeff());
        }
        let mut a_triplets: Vec<(usize, usize, Zq)> = Vec::new();
        let mut b_triplets: Vec<(usize, usize, Zq)> = Vec::new();
        let mut c_triplets: Vec<(usize, usize, Zq)> = Vec::new();
        let rows = size.num_constraints;
        let body_rows = if spoil && rows > 0 {
            rows - 1
        } else {
            rows
        };
        for t in 0..body_rows
            invariant
                2 <= q <= Q_MAX,
                qi == q as int,
                body_rows <= rows < 0x1000_0000,
                z@.len() == num_vars,
                1 <= num_vars < 0x1000_0000,
                crate::linalg::zq_vec_wf(z@, q as int),
                z@[0].val() == 1,
                a_triplets@.len() == t,
                b_triplets@.len() == t,
                c_triplets@.len() == t,
                forall|u: int|
                    0 <= u < t ==> (#[trigger] a_triplets@[u]).0 == u && a_triplets@[u].1
                        < num_vars && a_triplets@[u].2.wf() && a_triplets@[u].2.modulus() == q,
                forall|u: int|
                    0 <= u < t ==> (#[trigger] b_triplets@[u]).0 == u && b_triplets@[u].1
                        < num_vars && b_triplets@[u].2.wf() && b_triplets@[u].2.modulus() == q,
                forall|u: int|
                    0 <= u < t ==> (#[trigger] c_triplets@[u]).0 == u && c_triplets@[u].1
                        < num_vars && c_triplets@[u].2.wf() && c_triplets@[u].2.modulus() == q,
                forall|u: int|
                    0 <= u < t ==> (triplet_val(a_triplets@[u], z@, qi) * triplet_val(
                        b_triplets@[u],
                        z@,
                        qi,
                    )) % qi == #[trigger] triplet_val(c_triplets@[u], z@, qi),
        {
            let a_idx = t % num_vars;
            let b_idx = (t + 1) % num_vars;
            let c_idx = (t + 2) % num_vars;
            let one = Zq::one(q);
            a_triplets.push((t, a_idx, one));
            b_triplets.push((t, b_idx, one));
            let ab = z[a_idx].mul(&z[b_idx]);
            let inv_opt = z[c_idx].inverse();
            let c_entry: (usize, usize, Zq) = match inv_opt {
                Some(c_inv) => (t, c_idx, ab.mul(&c_inv)),
                None => (t, 0, ab),
            };
            c_triplets.push(c_entry);
            proof {
                let za = z@[a_idx as int].val();
                let zb = z@[b_idx as int].val();
                let zc = z@[c_idx as int].val();
                // The unit-valued a and b triplets contribute the
                // assignment values themselves.
                assert(triplet_val((t, a_idx, one), z@, qi) == (1 * za) % qi);
                assert((1 * za) % qi == za) by {
                    vstd::arithmetic::div_mod::lemma_small_mod(za as nat, qi as nat);
                }
                assert(triplet_val((t, b_idx, one), z@, qi) == (1 * zb) % qi);
                assert((1 * zb) % qi == zb) by {
                    vstd::arithmetic::div_mod::lemma_small_mod(zb as nat, qi as nat);
                }
                assert(ab.val() == (za * zb) % qi);
                // The c triplet contributes exactly the a*b product value.
                assert(triplet_val(c_entry, z@, qi) == ab.val()) by {
                    match inv_opt {
                        Some(c_inv) => {
                            let iv = c_inv.val();
                            assert(c_entry.2.val() == (ab.val() * iv) % qi);
                            assert(triplet_val(c_entry, z@, qi) == (((ab.val() * iv) % qi)
                                * zc) % qi);
                            vstd::arithmetic::div_mod::lemma_mul_mod_noop_left(
                                ab.val() * iv,
                                zc,
                                qi,
                            );
                            assert((ab.val() * iv) * zc == ab.val() * (zc * iv))
                                by (nonlinear_arith);
                            vstd::arithmetic::div_mod::lemma_mul_mod_noop_right(
                                ab.val(),
                                zc * iv,
                                qi,
                            );
                            assert(z@[c_idx as int].is_inverse(iv));
                            assert((zc * iv) % qi == 1);
                            assert((ab.val() * ((zc * iv) % qi)) % qi == (ab.val() * 1) % qi);
                            assert((ab.val() * 1) % qi == ab.val()) by {
                                vstd::arithmetic::div_mod::lemma_small_mod(
                                    ab.val() as nat,
                                    qi as nat,
                                );
                            }
                        },
                        None => {
                            assert(triplet_val(c_entry, z@, qi) == (ab.val()
                                * z@[0].val()) % qi);
                            assert(z@[0].val() == 1);
                            assert((ab.val() * 1) % qi == ab.val()) by {
                                vstd::arithmetic::div_mod::lemma_small_mod(
                                    ab.val() as nat,
                                    qi as nat,
                                );
                            }
                        },
                    }
                }
                assert((triplet_val((t, a_idx, one), z@, qi) * triplet_val(
                    (t, b_idx, one),
                    z@,
                    qi,
                )) % qi == triplet_val(c_entry, z@, qi));
            }
        }
        if spoil && rows > 0 {
            // The unsatisfiable row: 0 * 1 == 1.
            let zero = Zq::zero(q);
            let one = Zq::one(q);
            a_triplets.push((rows - 1, 0, zero));
            b_triplets.push((rows - 1, 0, one));
            c_triplets.push((rows - 1, 0, one));
            proof {
                let z0v = z@[0].val();
                assert(triplet_val(((rows - 1) as usize, 0usize, zero), z@, qi) == (0 * z0v)
                    % qi);
                assert((0 * z0v) % qi == 0) by {
                    assert(0 * z0v == 0) by (nonlinear_arith);
                    vstd::arithmetic::div_mod::lemma_small_mod(0, qi as nat);
                }
                assert(triplet_val(((rows - 1) as usize, 0usize, one), z@, qi) == (1 * z0v)
                    % qi);
                assert((1 * z0v) % qi == 1) by {
                    vstd::arithmetic::div_mod::lemma_small_mod(1, qi as nat);
                }
            }
        }
        let a = SparseMatrix { nrows: rows, ncols: num_vars, entries: a_triplets };
        let b = SparseMatrix { nrows: rows, ncols: num_vars, entries: b_triplets };
        let c = SparseMatrix { nrows: rows, ncols: num_vars, entries: c_triplets };
        let mut xv: Vec<Zq> = Vec::new();
        let mut wv: Vec<Zq> = Vec::new();
        let nx = size.num_instance_variables;
        for t in 0..nx
            invariant
                nx <= z@.len(),
                crate::linalg::zq_vec_wf(z@, q as int),
                xv@.len() == t,
                xv@ == z@.take(t as int),
                crate::linalg::zq_vec_wf(xv@, q as int),
        {
            xv.push(z[t]);
            proof {
                assert(xv@ =~= z@.take(t as int + 1));
            }
        }
        let nv = num_vars;
        let mut t = nx;
        while t < nv
            invariant
                nx <= t <= nv,
                nv == z@.len(),
                crate::linalg::zq_vec_wf(z@, q as int),
                wv@.len() == t - nx,
                wv@ == z@.subrange(nx as int, t as int),
                crate::linalg::zq_vec_wf(wv@, q as int),
            decreases nv - t,
        {
            wv.push(z[t]);
            proof {
                assert(wv@ =~= z@.subrange(nx as int, t as int + 1));
            }
            t = t + 1;
        }
        proof {
            assert(xv@ + wv@ =~= z@);
            let idx = Index { a, b, c };
            // Well-formedness of the three matrices from the triplet facts.
            assert forall|u: int| 0 <= u < a.entries@.len() implies (
            #[trigger] a.entries@[u]).0 < a.nrows && a.entries@[u].1 < a.ncols
                && a.entries@[u].2.wf() && a.entries@[u].2.modulus() == qi by {}
            assert forall|u: int| 0 <= u < b.entries@.len() implies (
            #[trigger] b.entries@[u]).0 < b.nrows && b.entries@[u].1 < b.ncols
                && b.entries@[u].2.wf() && b.entries@[u].2.modulus() == qi by {}
            assert forall|u: int| 0 <= u < c.entries@.len() implies (
            #[trigger] c.entries@[u]).0 < c.nrows && c.entries@[u].1 < c.ncols
                && c.entries@[u].2.wf() && c.entries@[u].2.modulus() == qi by {}
            a.lemma_fold_rows_in_order(z@, qi, a.entries@.len());
            b.lemma_fold_rows_in_order(z@, qi, b.entries@.len());
            c.lemma_fold_rows_in_order(z@, qi, c.entries@.len());
            let fa = a.spec_fold(z@, qi, a.entries@.len());
            let fb = b.spec_fold(z@, qi, b.entries@.len());
            let fc = c.spec_fold(z@, qi, c.entries@.len());
            // Each fold entry is the (already canonical) triplet value.
            assert forall|u: int| 0 <= u < rows implies fa[u] == triplet_val(
                #[trigger] a.entries@[u],
                z@,
                qi,
            ) && fb[u] == triplet_val(b.entries@[u], z@, qi) && fc[u] == triplet_val(
                c.entries@[u],
                z@,
                qi,
            ) by {
                lemma_triplet_val_canonical(a.entries@[u], z@, qi);
                lemma_triplet_val_canonical(b.entries@[u], z@, qi);
                lemma_triplet_val_canonical(c.entries@[u], z@, qi);
            }
            if !(spoil && rows > 0) {
                assert forall|u: int| 0 <= u < rows implies (fa[u] * fb[u]) % qi
                    == #[trigger] fc[u] by {
                    assert((triplet_val(a.entries@[u], z@, qi) * triplet_val(
                        b.entries@[u],
                        z@,
                        qi,
                    )) % qi == triplet_val(c.entries@[u], z@, qi));
                }
                assert(spec_satisfied(idx, xv@, wv@, qi)) by {
                    assert(xv@ + wv@ == z@);
                }
            } else {
                let last = rows - 1;
                assert(fa[last as int] == 0);
                assert(fb[last as int] == 1);
                assert(fc[last as int] == 1);
                assert((fa[last as int] * fb[last as int]) % qi == 0) by {
                    assert(fa[last as int] * fb[last as int] == 0) by (nonlinear_arith)
                        requires
                            fa[last as int] == 0,
                    ;
                    vstd::arithmetic::div_mod::lemma_small_mod(0, qi as nat);
                }
                assert((fa[last as int] * fb[last as int]) % qi != fc[last as int]);
                assert(xv@ + wv@ == z@);
                assert forall|u: int| 0 <= u < rows - 1 implies #[trigger] row_satisfied(
                    idx,
                    xv@ + wv@,
                    qi,
                    u,
                ) by {
                    assert((triplet_val(a.entries@[u], z@, qi) * triplet_val(
                        b.entries@[u],
                        z@,
                        qi,
                    )) % qi == triplet_val(c.entries@[u], z@, qi));
                }
                assert(!row_satisfied(idx, xv@ + wv@, qi, last as int));
                assert(!spec_satisfied(idx, xv@, wv@, qi));
            }
        }
        (Index { a, b, c }, Instance(xv), Witness(wv))
    }
}

/// A triplet's contribution is already a canonical residue, so the fold's
/// final reduction leaves it unchanged.
proof fn lemma_triplet_val_canonical(e: (usize, usize, Zq), z: Seq<Zq>, q: int)
    requires
        q >= 1,
    ensures
        (0 + triplet_val(e, z, q)) % q == triplet_val(e, z, q),
{
    vstd::arithmetic::div_mod::lemma_mod_bound(e.2.val() * z[e.1 as int].val(), q);
    vstd::arithmetic::div_mod::lemma_mod_twice(e.2.val() * z[e.1 as int].val(), q);
}

impl SparseMatrix {
    /// Decide well-formedness of the triplets against `q`.
    pub fn wf_check(&self, q: u64) -> (ok: bool)
        ensures
            ok <==> self.wf(q as int),
    {
        let ne = self.entries.len();
        for t in 0..ne
            invariant
                ne == self.entries@.len(),
                forall|u: int|
                    0 <= u < t ==> (#[trigger] self.entries@[u]).0 < self.nrows
                        && self.entries@[u].1 < self.ncols && self.entries@[u].2.wf()
                        && self.entries@[u].2.modulus() == q,
        {
            let (row, col, val) = self.entries[t];
            let v_ok = val.modulus_u64() == q && 2 <= q && q <= Q_MAX && val.val_u64() < q;
            if !(row < self.nrows && col < self.ncols && v_ok) {
                proof {
                    let bad = self.entries@[t as int];
                    assert(!(bad.0 < self.nrows && bad.1 < self.ncols && bad.2.wf()
                        && bad.2.modulus() == q));
                }
                return false;
            }
        }
        true
    }
}

/// Decide well-formedness of a scalar vector against `q`.
pub fn zq_vec_wf_check(q: u64, v: &Vec<Zq>) -> (ok: bool)
    ensures
        ok <==> crate::linalg::zq_vec_wf(v@, q as int),
{
    let n = v.len();
    for t in 0..n
        invariant
            n == v@.len(),
            forall|u: int|
                0 <= u < t ==> (#[trigger] v@[u]).wf() && v@[u].modulus() == q,
    {
        let e = v[t];
        if !(e.modulus_u64() == q && 2 <= q && q <= Q_MAX && e.val_u64() < q) {
            proof {
                let bad = v@[t as int];
                assert(!(bad.wf() && bad.modulus() == q));
            }
            return false;
        }
    }
    true
}

/// The relation-level satisfaction predicate the trait interface decides:
/// the modulus is admissible, the indexed instance and the assignment are
/// well-formed over it, and every row passes the product check.
pub open spec fn relation_satisfied(q: u64, i: Index, x: Instance, w: Witness) -> bool {
    &&& 2 <= q <= Q_MAX
    &&& i.a.wf(q as int)
    &&& i.b.wf(q as int)
    &&& i.c.wf(q as int)
    &&& crate::linalg::zq_vec_wf(x.0@, q as int)
    &&& crate::linalg::zq_vec_wf(w.0@, q as int)
    &&& spec_satisfied(i, x.0@, w.0@, q as int)
}

/// Structural equality of two sparse matrices: same shape, same triplet
/// sequence, entry values compared as residues with their moduli.
pub open spec fn sparse_view_eq(a: SparseMatrix, b: SparseMatrix) -> bool {
    &&& a.nrows == b.nrows
    &&& a.ncols == b.ncols
    &&& a.entries@.len() == b.entries@.len()
    &&& forall|t: int|
        0 <= t < a.entries@.len() ==> (#[trigger] a.entries@[t]).0 == b.entries@[t].0
            && a.entries@[t].1 == b.entries@[t].1 && a.entries@[t].2.modulus()
            == b.entries@[t].2.modulus() && a.entries@[t].2.val() == b.entries@[t].2.val()
}

/// Structural equality of two scalar vectors, compared as residues with
/// their moduli.
pub open spec fn zq_view_eq(a: Seq<Zq>, b: Seq<Zq>) -> bool {
    &&& a.len() == b.len()
    &&& forall|t: int|
        0 <= t < a.len() ==> (#[trigger] a[t]).modulus() == b[t].modulus() && a[t].val()
            == b[t].val()
}

impl crate::reduction::Relation for R1CS {
    type Index = Index;

    type Instance = Instance;

    type Witness = Witness;

    type Size = Size;

    open spec fn wf(&self) -> bool {
        2 <= self.q <= Q_MAX
    }

    open spec fn spec_satisfied(&self, i: Index, x: Instance, w: Witness) -> bool {
        relation_satisfied(self.q, i, x, w)
    }

    open spec fn spec_instance_eq(&self, i1: Index, x1: Instance, i2: Index, x2: Instance) -> bool {
        &&& sparse_view_eq(i1.a, i2.a)
        &&& sparse_view_eq(i1.b, i2.b)
        &&& sparse_view_eq(i1.c, i2.c)
        &&& zq_view_eq(x1.0@, x2.0@)
    }

    /// Shapes validated, then the row-wise product check; malformed input
    /// never satisfies.
    fn is_satisfied(&self, i: &Index, x: &Instance, w: &Witness) -> bool {
        if !(2 <= self.q && self.q <= Q_MAX) {
            return false;
        }
        if !(i.a.wf_check(self.q) && i.b.wf_check(self.q) && i.c.wf_check(self.q)) {
            return false;
        }
        if !(zq_vec_wf_check(self.q, &x.0) && zq_vec_wf_check(self.q, &w.0)) {
            return false;
        }
        self.is_satisfied(i, x, w)
    }

    /// Structural equality of the indexed instances: same triplets, same
    /// public assignment.
    fn instance_eq(&self, i1: &Index, x1: &Instance, i2: &Index, x2: &Instance) -> bool {
        sparse_eq(&i1.a, &i2.a) && sparse_eq(&i1.b, &i2.b) && sparse_eq(&i1.c, &i2.c)
            && zq_vec_eq(&x1.0, &x2.0)
    }

    fn generate_satisfied_instance(&self, size: &Size, g: &mut Sponge) -> (Index, Instance, Witness) {
        let sz = clamp_size(size);
        let q = if 2 <= self.q && self.q <= Q_MAX {
            self.q
        } else {
            2
        };
        let rel = R1CS { q };
        rel.generate_satisfied_instance(&sz, g)
    }

    fn generate_unsatisfied_instance(&self, size: &Size, g: &mut Sponge) -> (
        Index,
        Instance,
        Witness,
    ) {
        let sz = clamp_size(size);
        let q = if 2 <= self.q && self.q <= Q_MAX {
            self.q
        } else {
            2
        };
        let rel = R1CS { q };
        rel.generate_unsatisfied_instance(&sz, g)
    }
}

/// Clamp a requested shape into the generator's admitted ranges: a shape
/// with no variables, no constraints, or sizes beyond the admitted caps is
/// replaced by the nearest admitted one. The trait signature has no error
/// channel, so out-of-range requests are answered with the clamped shape
/// rather than a panic.
fn clamp_size(size: &Size) -> (r: Size)
    ensures
        1 <= r.num_instance_variables,
        1 <= r.num_constraints < 0x1000_0000,
        r.num_instance_variables + r.num_witness_variables < 0x1000_0000,
{
    let ni = if size.num_instance_variables == 0 || size.num_instance_variables >= 0x80_0000 {
        1
    } else {
        size.num_instance_variables
    };
    let nw = if size.num_witness_variables >= 0x80_0000 {
        0
    } else {
        size.num_witness_variables
    };
    let nc = if size.num_constraints == 0 || size.num_constraints >= 0x1000_0000 {
        1
    } else {
        size.num_constraints
    };
    Size { num_constraints: nc, num_instance_variables: ni, num_witness_variables: nw }
}

/// Structural equality of two sparse matrices.
fn sparse_eq(a: &SparseMatrix, b: &SparseMatrix) -> (ok: bool)
    ensures
        ok <==> sparse_view_eq(*a, *b),
{
    if a.nrows != b.nrows || a.ncols != b.ncols || a.entries.len() != b.entries.len() {
        return false;
    }
    let ne = a.entries.len();
    for t in 0..ne
        invariant
            ne == a.entries@.len(),
            ne == b.entries@.len(),
            a.nrows == b.nrows,
            a.ncols == b.ncols,
            forall|u: int|
                0 <= u < t ==> (#[trigger] a.entries@[u]).0 == b.entries@[u].0
                    && a.entries@[u].1 == b.entries@[u].1 && a.entries@[u].2.modulus()
                    == b.entries@[u].2.modulus() && a.entries@[u].2.val()
                    == b.entries@[u].2.val(),
    {
        let (r1, c1, v1) = a.entries[t];
        let (r2, c2, v2) = b.entries[t];
        if r1 != r2 || c1 != c2 || v1.modulus_u64() != v2.modulus_u64() || v1.val_u64()
            != v2.val_u64() {
            proof {
                assert(!((#[trigger] a.entries@[t as int]).0 == b.entries@[t as int].0
                    && a.entries@[t as int].1 == b.entries@[t as int].1
                    && a.entries@[t as int].2.modulus() == b.entries@[t as int].2.modulus()
                    && a.entries@[t as int].2.val() == b.entries@[t as int].2.val()));
            }
            return false;
        }
    }
    true
}

/// Structural equality of two scalar vectors.
fn zq_vec_eq(a: &Vec<Zq>, b: &Vec<Zq>) -> (ok: bool)
    ensures
        ok <==> zq_view_eq(a@, b@),
{
    if a.len() != b.len() {
        return false;
    }
    let n = a.len();
    for t in 0..n
        invariant
            n == a@.len(),
            n == b@.len(),
            forall|u: int|
                0 <= u < t ==> (#[trigger] a@[u]).modulus() == b@[u].modulus() && a@[u].val()
                    == b@[u].val(),
    {
        if a[t].modulus_u64() != b[t].modulus_u64() || a[t].val_u64() != b[t].val_u64() {
            proof {
                assert(!((#[trigger] a@[t as int]).modulus() == b@[t as int].modulus()
                    && a@[t as int].val() == b@[t as int].val()));
            }
            return false;
        }
    }
    true
}

} // verus!
