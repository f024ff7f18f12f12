//! Uniform sampling of ring elements, vectors and matrices from a duplex
//! sponge.
//!
//! All sampling is deterministic in the sponge state: the contracts pin the
//! sampled coefficients as functions of the state, so the same seed gives
//! byte-identical output. That is what lets a prover and a verifier (or two
//! runs of the parameter deriver) agree on sampled public matrices. For
//! fresh randomness, seed the sponge from the operating system.

use vstd::prelude::*;

use crate::random::random_bytes;
use crate::ring::{COEFF_SAMPLE_BYTES, D_MAX, RingElement, le_decode};
use crate::sponge::{Sponge, spec_after_squeeze, spec_squeeze_seq};
use crate::zq::Q_MAX;

verus! {

/// A sponge seeded with fresh operating-system randomness.
pub fn fresh_sponge() -> (g: Sponge) {
    let seed = random_bytes(32);
    let mut g = Sponge::new(0x5eed);
    g.absorb_bytes(&seed);
    g
}

/// The canonical coefficients of the element sampled from sponge state
/// `g`: coefficient `i` is read from bytes `16 i .. 16 (i + 1)` of the
/// squeezed stream, little endian, reduced modulo `q`.
pub open spec fn sampled_elem_coeffs(q: u64, d: usize, g: Sponge) -> Seq<int> {
    Seq::new(
        d as nat,
        |i: int|
            le_decode(
                spec_squeeze_seq(g, (d * COEFF_SAMPLE_BYTES) as nat).subrange(
                    COEFF_SAMPLE_BYTES * i,
                    COEFF_SAMPLE_BYTES * (i + 1),
                ),
            ) % (q as int),
    )
}

/// The sponge state after one element has been sampled.
pub open spec fn sponge_after_elem(d: usize, g: Sponge) -> Sponge {
    spec_after_squeeze(g, (d * COEFF_SAMPLE_BYTES) as nat)
}

/// One ring element sampled uniformly from the sponge.
pub fn sample_uniform_elem(q: u64, d: usize, g: &mut Sponge) -> (r: RingElement)
    requires
        2 <= q <= Q_MAX,
        1 <= d <= D_MAX,
    ensures
        r.wf(),
        r.modulus() == q,
        r.dim() == d,
        r.coeffs() == sampled_elem_coeffs(q, d, *old(g)),
        *final(g) == sponge_after_elem(d, *old(g)),
{
    proof {
        assert(d as int * COEFF_SAMPLE_BYTES <= 0x800_0000) by (nonlinear_arith)
            requires
                0 <= (d as int) <= 0x80_0000,
                COEFF_SAMPLE_BYTES == 16,
        ;
    }
    let bytes = g.squeeze_bytes(d * COEFF_SAMPLE_BYTES);
    let r = RingElement::from_random_bytes(q, d, &bytes);
    proof {
        assert(r.coeffs() =~= sampled_elem_coeffs(q, d, *old(g)));
    }
    r
}

/// The coefficient views of the vector sampled from sponge state `g`:
/// entry `i` comes from the state after `i` elements.
pub open spec fn sampled_vec_coeffs(q: u64, d: usize, n: nat, g: Sponge) -> Seq<Seq<int>>
    decreases n,
{
    if n == 0 {
        Seq::empty()
    } else {
        sampled_vec_coeffs(q, d, (n - 1) as nat, g).push(
            sampled_elem_coeffs(q, d, sponge_after_vec(d, (n - 1) as nat, g)),
        )
    }
}

/// The sponge state after `n` elements have been sampled.
pub open spec fn sponge_after_vec(d: usize, n: nat, g: Sponge) -> Sponge
    decreases n,
{
    if n == 0 {
        g
    } else {
        sponge_after_elem(d, sponge_after_vec(d, (n - 1) as nat, g))
    }
}

/// A vector of `n` ring elements sampled uniformly from the sponge.
pub fn sample_uniform_vec(q: u64, d: usize, n: usize, g: &mut Sponge) -> (r: Vec<RingElement>)
    requires
        2 <= q <= Q_MAX,
        1 <= d <= D_MAX,
    ensures
        r@.len() == n,
        crate::linalg::vec_wf(r@, q as int, d as int),
        crate::linalg::coeff_view(r@) == sampled_vec_coeffs(q, d, n as nat, *old(g)),
        *final(g) == sponge_after_vec(d, n as nat, *old(g)),
{
    let mut r: Vec<RingElement> = Vec::new();
    let ghost g0 = *g;
    for i in 0..n
        invariant
            2 <= q <= Q_MAX,
            1 <= d <= D_MAX,
            r@.len() == i,
            crate::linalg::vec_wf(r@, q as int, d as int),
            crate::linalg::coeff_view(r@) == sampled_vec_coeffs(q, d, i as nat, g0),
            *g == sponge_after_vec(d, i as nat, g0),
    {
        let e = sample_uniform_elem(q, d, g);
        r.push(e);
        proof {
            assert(crate::linalg::coeff_view(r@) =~= sampled_vec_coeffs(
                q,
                d,
                (i + 1) as nat,
                g0,
            ));
        }
    }
    r
}

/// The row views of the matrix sampled from sponge state `g`, row by row.
pub open spec fn sampled_mat_coeffs(q: u64, d: usize, rows: nat, cols: usize, g: Sponge) -> Seq<
    Seq<Seq<int>>,
>
    decreases rows,
{
    if rows == 0 {
        Seq::empty()
    } else {
        sampled_mat_coeffs(q, d, (rows - 1) as nat, cols, g).push(
            sampled_vec_coeffs(
                q,
                d,
                cols as nat,
                sponge_after_mat(d, (rows - 1) as nat, cols, g),
            ),
        )
    }
}

/// The sponge state after a `rows x cols` matrix has been sampled.
pub open spec fn sponge_after_mat(d: usize, rows: nat, cols: usize, g: Sponge) -> Sponge
    decreases rows,
{
    if rows == 0 {
        g
    } else {
        sponge_after_vec(d, cols as nat, sponge_after_mat(d, (rows - 1) as nat, cols, g))
    }
}

/// The coefficient views of a matrix's rows.
pub open spec fn mat_coeff_view(m: Seq<Vec<RingElement>>) -> Seq<Seq<Seq<int>>> {
    m.map_values(|row: Vec<RingElement>| crate::linalg::coeff_view(row@))
}

/// A matrix of `rows x cols` ring elements sampled uniformly from the
/// sponge, row by row.
pub fn sample_uniform_mat(q: u64, d: usize, rows: usize, cols: usize, g: &mut Sponge) -> (r: Vec<
    Vec<RingElement>,
>)
    requires
        2 <= q <= Q_MAX,
        1 <= d <= D_MAX,
    ensures
        crate::linalg::mat_wf(r@, rows as int, cols as int, q as int, d as int),
        mat_coeff_view(r@) == sampled_mat_coeffs(q, d, rows as nat, cols, *old(g)),
        *final(g) == sponge_after_mat(d, rows as nat, cols, *old(g)),
{
    let mut r: Vec<Vec<RingElement>> = Vec::new();
    let ghost g0 = *g;
    for i in 0..rows
        invariant
            2 <= q <= Q_MAX,
            1 <= d <= D_MAX,
            r@.len() == i,
            crate::linalg::mat_wf(r@, i as int, cols as int, q as int, d as int),
            mat_coeff_view(r@) == sampled_mat_coeffs(q, d, i as nat, cols, g0),
            *g == sponge_after_mat(d, i as nat, cols, g0),
    {
        let row = sample_uniform_vec(q, d, cols, g);
        r.push(row);
        proof {
            assert(mat_coeff_view(r@) =~= sampled_mat_coeffs(q, d, (i + 1) as nat, cols, g0));
        }
    }
    r
}

/// The row views of the lower triangle sampled from sponge state `g`, row
/// by row: row `k` has `k + 1` entries.
pub open spec fn sampled_tri_coeffs(q: u64, d: usize, rows: nat, g: Sponge) -> Seq<Seq<Seq<int>>>
    decreases rows,
{
    if rows == 0 {
        Seq::empty()
    } else {
        sampled_tri_coeffs(q, d, (rows - 1) as nat, g).push(
            sampled_vec_coeffs(q, d, rows, sponge_after_tri(d, (rows - 1) as nat, g)),
        )
    }
}

/// The sponge state after a lower triangle of `rows` rows has been sampled.
pub open spec fn sponge_after_tri(d: usize, rows: nat, g: Sponge) -> Sponge
    decreases rows,
{
    if rows == 0 {
        g
    } else {
        sponge_after_vec(d, rows, sponge_after_tri(d, (rows - 1) as nat, g))
    }
}

/// A symmetric `n x n` matrix sampled uniformly from the sponge: the lower
/// triangle is sampled row by row and mirrored, so the result reads the
/// same at `(i, j)` and `(j, i)`.
pub fn sample_uniform_mat_symmetric(q: u64, d: usize, n: usize, g: &mut Sponge) -> (r: Vec<
    Vec<RingElement>,
>)
    requires
        2 <= q <= Q_MAX,
        1 <= d <= D_MAX,
    ensures
        crate::linalg::mat_wf(r@, n as int, n as int, q as int, d as int),
        forall|i: int, j: int|
            0 <= j <= i < n ==> (#[trigger] r@[i]@[j]).coeffs() == sampled_tri_coeffs(
                q,
                d,
                n as nat,
                *old(g),
            )[i][j],
        forall|i: int, j: int|
            0 <= i < n && 0 <= j < n ==> (#[trigger] r@[i]@[j]).coeffs() == r@[j]@[i].coeffs(),
        *final(g) == sponge_after_tri(d, n as nat, *old(g)),
{
    let mut lower: Vec<Vec<RingElement>> = Vec::new();
    let ghost g0 = *g;
    for i in 0..n
        invariant
            2 <= q <= Q_MAX,
            1 <= d <= D_MAX,
            lower@.len() == i,
            forall|k: int|
                0 <= k < i ==> (#[trigger] lower@[k])@.len() == k + 1 && crate::linalg::vec_wf(
                    lower@[k]@,
                    q as int,
                    d as int,
                ),
            mat_coeff_view(lower@) == sampled_tri_coeffs(q, d, i as nat, g0),
            *g == sponge_after_tri(d, i as nat, g0),
    {
        let row = sample_uniform_vec(q, d, i + 1, g);
        lower.push(row);
        proof {
            assert(mat_coeff_view(lower@) =~= sampled_tri_coeffs(q, d, (i + 1) as nat, g0));
        }
    }
    let mut rows: Vec<Vec<RingElement>> = Vec::new();
    for i in 0..n
        invariant
            2 <= q <= Q_MAX,
            1 <= d <= D_MAX,
            n == lower@.len(),
            mat_coeff_view(lower@) == sampled_tri_coeffs(q, d, n as nat, g0),
            forall|k: int|
                0 <= k < n ==> (#[trigger] lower@[k])@.len() == k + 1 && crate::linalg::vec_wf(
                    lower@[k]@,
                    q as int,
                    d as int,
                ),
            rows@.len() == i,
            forall|k: int|
                0 <= k < i ==> (#[trigger] rows@[k])@.len() == n && crate::linalg::vec_wf(
                    rows@[k]@,
                    q as int,
                    d as int,
                ),
            forall|k: int, l: int|
                0 <= k < i && 0 <= l < n ==> (#[trigger] rows@[k]@[l]).coeffs() == (if l <= k {
                    lower@[k]@[l].coeffs()
                } else {
                    lower@[l]@[k].coeffs()
                }),
    {
        let mut row: Vec<RingElement> = Vec::new();
        for j in 0..n
            invariant
                2 <= q <= Q_MAX,
                1 <= d <= D_MAX,
                i < n,
                n == lower@.len(),
                mat_coeff_view(lower@) == sampled_tri_coeffs(q, d, n as nat, g0),
                forall|k: int|
                    0 <= k < n ==> (#[trigger] lower@[k])@.len() == k + 1
                        && crate::linalg::vec_wf(lower@[k]@, q as int, d as int),
                row@.len() == j,
                crate::linalg::vec_wf(row@, q as int, d as int),
                forall|l: int|
                    0 <= l < j ==> (#[trigger] row@[l]).coeffs() == (if l <= i as int {
                        lower@[i as int]@[l].coeffs()
                    } else {
                        lower@[l]@[i as int].coeffs()
                    }),
        {
            if j <= i {
                row.push(lower[i][j].clone());
            } else {
                row.push(lower[j][i].clone());
            }
        }
        rows.push(row);
    }
    proof {
        assert forall|i: int, j: int| 0 <= i < n && 0 <= j < n implies (
        #[trigger] rows@[i]@[j]).coeffs() == rows@[j]@[i].coeffs() by {}
        assert forall|i: int, j: int| 0 <= j <= i < n implies (
        #[trigger] rows@[i]@[j]).coeffs() == sampled_tri_coeffs(q, d, n as nat, g0)[i][j] by {
            assert(rows@[i]@[j].coeffs() == lower@[i]@[j].coeffs());
            assert(mat_coeff_view(lower@)[i] == crate::linalg::coeff_view(lower@[i]@));
            assert(crate::linalg::coeff_view(lower@[i]@)[j] == lower@[i]@[j].coeffs());
        }
    }
    rows
}

} // verus!
