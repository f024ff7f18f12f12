//! Vectors and matrices of ring elements, and the pairwise inner-product
//! matrices the protocol is built on.
//!
//! A vector is a `Vec<RingElement>` whose entries share one ring; a matrix
//! is a vector of rows. Specifications are stated over the canonical
//! coefficient sequences of the entries: `spec_dot` mirrors the executable
//! accumulation exactly (reduce after every step), so every contract below
//! pins the result completely.

use rayon::iter::{IndexedParallelIterator, IntoParallelIterator, ParallelIterator};
use vstd::prelude::*;

use crate::ring::{
    RingElement, poly_add, poly_mul, poly_reduce, poly_scale,
};
use crate::symmetric::{
    SymmetricMatrix, is_triangular, lower_triang_indices, lowertriang_from_vec, packed_index,
    rows_view, spec_unpack, tri,
};
use crate::zq::{Q_MAX, Zq};

verus! {

/// The all-zero canonical polynomial of dimension `d`.
pub open spec fn zero_poly(d: int) -> Seq<int> {
    Seq::new(d as nat, |i: int| 0int)
}

/// Canonical sum: reduce after adding.
pub open spec fn cadd(x: Seq<int>, y: Seq<int>, q: int) -> Seq<int> {
    poly_reduce(poly_add(x, y), q)
}

/// Canonical negacyclic product: reduce after multiplying.
pub open spec fn cmul(x: Seq<int>, y: Seq<int>, q: int) -> Seq<int> {
    poly_reduce(poly_mul(x, y), q)
}

/// Canonical scaling by a base-ring value.
pub open spec fn cscale(s: int, x: Seq<int>, q: int) -> Seq<int> {
    poly_reduce(poly_scale(s, x), q)
}

/// The canonical coefficient sequences of a vector of ring elements.
pub open spec fn coeff_view(v: Seq<RingElement>) -> Seq<Seq<int>> {
    v.map_values(|e: RingElement| e.coeffs())
}

/// Every entry is well-formed and lives in the ring `(q, d)`.
pub open spec fn vec_wf(v: Seq<RingElement>, q: int, d: int) -> bool {
    forall|i: int|
        0 <= i < v.len() ==> (#[trigger] v[i]).wf() && v[i].modulus() == q && v[i].dim() == d
}

/// Every row is a well-formed vector of length `cols` in the ring `(q, d)`.
pub open spec fn mat_wf(m: Seq<Vec<RingElement>>, rows: int, cols: int, q: int, d: int) -> bool {
    m.len() == rows && forall|i: int|
        0 <= i < m.len() ==> (#[trigger] m[i])@.len() == cols && vec_wf(m[i]@, q, d)
}

/// Canonical coefficients of `sum_{i < n} a[i] * b[i]`, accumulated exactly
/// as the executable dot product does: reduce after every step.
pub open spec fn spec_dot(a: Seq<Seq<int>>, b: Seq<Seq<int>>, q: int, d: int, n: nat) -> Seq<int>
    decreases n,
{
    if n == 0 {
        zero_poly(d)
    } else {
        cadd(spec_dot(a, b, q, d, (n - 1) as nat), cmul(a[n - 1], b[n - 1], q), q)
    }
}

/// Canonical coefficients of `sum_{i < n} f(i)`, accumulated left to right
/// with a reduction after every step, starting from the zero polynomial.
pub open spec fn csum(f: spec_fn(int) -> Seq<int>, q: int, d: int, n: nat) -> Seq<int>
    decreases n,
{
    if n == 0 {
        zero_poly(d)
    } else {
        cadd(csum(f, q, d, (n - 1) as nat), f(n - 1), q)
    }
}

/// The dot product of two vectors of ring elements.
pub fn dot(q: u64, d: usize, a: &Vec<RingElement>, b: &Vec<RingElement>) -> (r: RingElement)
    requires
        2 <= q <= Q_MAX,
        1 <= d <= crate::ring::D_MAX,
        a@.len() == b@.len(),
        vec_wf(a@, q as int, d as int),
        vec_wf(b@, q as int, d as int),
    ensures
        r.wf(),
        r.modulus() == q,
        r.dim() == d,
        r.coeffs() == spec_dot(coeff_view(a@), coeff_view(b@), q as int, d as int, a@.len()),
    decreases a@.len(),
{
    let n = a.len();
    let mut acc = RingElement::zero(q, d);
    proof {
        assert(acc.coeffs() =~= zero_poly(d as int));
    }
    for i in 0..n
        invariant
            2 <= q <= Q_MAX,
            1 <= d <= crate::ring::D_MAX,
            n == a@.len() == b@.len(),
            vec_wf(a@, q as int, d as int),
            vec_wf(b@, q as int, d as int),
            acc.wf(),
            acc.modulus() == q,
            acc.dim() == d,
            acc.coeffs() == spec_dot(
                coeff_view(a@),
                coeff_view(b@),
                q as int,
                d as int,
                i as nat,
            ),
    {
        let p = a[i].mul(&b[i]);
        acc = acc.add(&p);
        proof {
            assert(coeff_view(a@)[i as int] == a@[i as int].coeffs());
            assert(coeff_view(b@)[i as int] == b@[i as int].coeffs());
        }
    }
    acc
}

/// Pointwise sum of two vectors.
pub fn vec_add(q: u64, d: usize, a: &Vec<RingElement>, b: &Vec<RingElement>) -> (r: Vec<
    RingElement,
>)
    requires
        2 <= q <= Q_MAX,
        1 <= d <= crate::ring::D_MAX,
        a@.len() == b@.len(),
        vec_wf(a@, q as int, d as int),
        vec_wf(b@, q as int, d as int),
    ensures
        r@.len() == a@.len(),
        vec_wf(r@, q as int, d as int),
        forall|i: int|
            0 <= i < a@.len() ==> (#[trigger] r@[i]).coeffs() == cadd(
                a@[i].coeffs(),
                b@[i].coeffs(),
                q as int,
            ),
    {
    let n = a.len();
    let mut r: Vec<RingElement> = Vec::new();
    for i in 0..n
        invariant
            2 <= q <= Q_MAX,
            1 <= d <= crate::ring::D_MAX,
            n == a@.len() == b@.len(),
            vec_wf(a@, q as int, d as int),
            vec_wf(b@, q as int, d as int),
            r@.len() == i,
            vec_wf(r@, q as int, d as int),
            forall|k: int|
                0 <= k < i ==> (#[trigger] r@[k]).coeffs() == cadd(
                    a@[k].coeffs(),
                    b@[k].coeffs(),
                    q as int,
                ),
    {
        r.push(a[i].add(&b[i]));
    }
    r
}

/// Pointwise product of a vector with one ring element.
pub fn vec_scale_elem(q: u64, d: usize, c: &RingElement, v: &Vec<RingElement>) -> (r: Vec<
    RingElement,
>)
    requires
        2 <= q <= Q_MAX,
        1 <= d <= crate::ring::D_MAX,
        c.wf(),
        c.modulus() == q,
        c.dim() == d,
        vec_wf(v@, q as int, d as int),
    ensures
        r@.len() == v@.len(),
        vec_wf(r@, q as int, d as int),
        forall|i: int|
            0 <= i < v@.len() ==> (#[trigger] r@[i]).coeffs() == cmul(
                c.coeffs(),
                v@[i].coeffs(),
                q as int,
            ),
{
    let n = v.len();
    let mut r: Vec<RingElement> = Vec::new();
    for i in 0..n
        invariant
            2 <= q <= Q_MAX,
            1 <= d <= crate::ring::D_MAX,
            c.wf(),
            c.modulus() == q,
            c.dim() == d,
            n == v@.len(),
            vec_wf(v@, q as int, d as int),
            r@.len() == i,
            vec_wf(r@, q as int, d as int),
            forall|k: int|
                0 <= k < i ==> (#[trigger] r@[k]).coeffs() == cmul(
                    c.coeffs(),
                    v@[k].coeffs(),
                    q as int,
                ),
    {
        r.push(c.mul(&v[i]));
    }
    r
}

/// Pointwise scaling of a vector by a base-ring value.
pub fn vec_scale_scalar(q: u64, d: usize, s: &Zq, v: &Vec<RingElement>) -> (r: Vec<RingElement>)
    requires
        2 <= q <= Q_MAX,
        1 <= d <= crate::ring::D_MAX,
        s.wf(),
        s.modulus() == q,
        vec_wf(v@, q as int, d as int),
    ensures
        r@.len() == v@.len(),
        vec_wf(r@, q as int, d as int),
        forall|i: int|
            0 <= i < v@.len() ==> (#[trigger] r@[i]).coeffs() == cscale(
                s.val(),
                v@[i].coeffs(),
                q as int,
            ),
{
    let n = v.len();
    let mut r: Vec<RingElement> = Vec::new();
    for i in 0..n
        invariant
            2 <= q <= Q_MAX,
            1 <= d <= crate::ring::D_MAX,
            s.wf(),
            s.modulus() == q,
            n == v@.len(),
            vec_wf(v@, q as int, d as int),
            r@.len() == i,
            vec_wf(r@, q as int, d as int),
            forall|k: int|
                0 <= k < i ==> (#[trigger] r@[k]).coeffs() == cscale(
                    s.val(),
                    v@[k].coeffs(),
                    q as int,
                ),
    {
        r.push(v[i].scalar_mul(s));
    }
    r
}

/// Matrix-vector product: row `i` of the result is `dot(m[i], v)`.
pub fn mat_vec_mul(q: u64, d: usize, m: &Vec<Vec<RingElement>>, v: &Vec<RingElement>) -> (r: Vec<
    RingElement,
>)
    requires
        2 <= q <= Q_MAX,
        1 <= d <= crate::ring::D_MAX,
        mat_wf(m@, m@.len() as int, v@.len() as int, q as int, d as int),
        vec_wf(v@, q as int, d as int),
    ensures
        r@.len() == m@.len(),
        vec_wf(r@, q as int, d as int),
        forall|i: int|
            0 <= i < m@.len() ==> (#[trigger] r@[i]).coeffs() == spec_dot(
                coeff_view(m@[i]@),
                coeff_view(v@),
                q as int,
                d as int,
                v@.len(),
            ),
{
    let rows = m.len();
    let mut r: Vec<RingElement> = Vec::new();
    for i in 0..rows
        invariant
            2 <= q <= Q_MAX,
            1 <= d <= crate::ring::D_MAX,
            rows == m@.len(),
            mat_wf(m@, m@.len() as int, v@.len() as int, q as int, d as int),
            vec_wf(v@, q as int, d as int),
            r@.len() == i,
            vec_wf(r@, q as int, d as int),
            forall|k: int|
                0 <= k < i ==> (#[trigger] r@[k]).coeffs() == spec_dot(
                    coeff_view(m@[k]@),
                    coeff_view(v@),
                    q as int,
                    d as int,
                    v@.len(),
                ),
    {
        r.push(dot(q, d, &m[i], v));
    }
    r
}

/// Sum of the squared L2 norms of the first `n` entries.
pub open spec fn spec_norm_sq_vec(v: Seq<RingElement>, n: nat) -> int
    decreases n,
{
    if n == 0 {
        0
    } else {
        spec_norm_sq_vec(v, (n - 1) as nat) + v[n - 1].l2_norm_sq()
    }
}

/// The squared L2 norm of a vector: the sum of its entries' squared norms.
pub fn norm_sq_vec(v: &Vec<RingElement>) -> (r: u128)
    requires
        v@.len() <= 0x1000_0000,
        forall|i: int| 0 <= i < v@.len() ==> (#[trigger] v@[i]).wf(),
    ensures
        r == spec_norm_sq_vec(v@, v@.len()),
{
    let n = v.len();
    let mut acc: u128 = 0;
    for i in 0..n
        invariant
            n == v@.len() <= 0x1000_0000,
            forall|k: int| 0 <= k < v@.len() ==> (#[trigger] v@[k]).wf(),
            acc == spec_norm_sq_vec(v@, i as nat),
            acc <= (i as u128) * 0x1000_0000_0000_0000_0000_0000,
    {
        let t = v[i].norm_sq();
        proof {
            crate::linalg::lemma_norm_sq_bound(v@[i as int]);
            assert(acc + t <= (i as u128 + 1) * 0x1000_0000_0000_0000_0000_0000)
                by (nonlinear_arith)
                requires
                    acc <= (i as u128) * 0x1000_0000_0000_0000_0000_0000,
                    t <= 0x1000_0000_0000_0000_0000_0000u128,
            ;
            assert((i as u128 + 1) * 0x1000_0000_0000_0000_0000_0000 < u128::MAX)
                by (nonlinear_arith)
                requires
                    i as u128 + 1 <= 0x1000_0001u128,
            ;
        }
        acc = acc + t;
    }
    acc
}

/// An element's squared norm is at most `d * q^2`, which the dimension and
/// modulus caps bound by `2^90`.
pub proof fn lemma_norm_sq_bound(e: RingElement)
    requires
        e.wf(),
    ensures
        0 <= e.l2_norm_sq() <= 0x1000_0000_0000_0000_0000_0000,
{
    lemma_norm_sq_sum_bound(e.coeffs(), e.modulus(), e.coeffs().len());
    assert(e.coeffs().len() * 0x4000_0000_0000_0000 <= 0x1000_0000_0000_0000_0000_0000)
        by (nonlinear_arith)
        requires
            0 <= e.coeffs().len() <= 0x1000_0000,
    ;
}

proof fn lemma_norm_sq_sum_bound(a: Seq<int>, q: int, n: nat)
    requires
        2 <= q <= Q_MAX,
        n <= a.len(),
        forall|i: int| 0 <= i < a.len() ==> 0 <= #[trigger] a[i] < q,
    ensures
        0 <= crate::ring::norm_sq_sum(a, q, n) <= n * 0x4000_0000_0000_0000,
    decreases n,
{
    if n == 0 {
    } else {
        lemma_norm_sq_sum_bound(a, q, (n - 1) as nat);
        let c = crate::ring::centered_rep(a[n - 1], q);
        assert(0 <= c * c <= 0x4000_0000_0000_0000) by (nonlinear_arith)
            requires
                -0x8000_0000 <= c <= 0x8000_0000,
        ;
        assert((n - 1) * 0x4000_0000_0000_0000 + 0x4000_0000_0000_0000 == n
            * 0x4000_0000_0000_0000) by (nonlinear_arith);
    }
}

/// The packed lower-triangular matrix of pairwise dot products
/// `dot(s[i], t[j])` for `j <= i`, in packed order.
pub open spec fn spec_inner_products(
    s: Seq<Vec<RingElement>>,
    t: Seq<Vec<RingElement>>,
    q: int,
    d: int,
    m: nat,
    i: int,
    j: int,
) -> Seq<int> {
    spec_dot(coeff_view(s[i]@), coeff_view(t[j]@), q, d, m)
}

/// All pairwise dot products of the lower triangle, one flat vector in
/// packed order. This is the serial reference computation.
pub fn inner_products_flat_serial(
    q: u64,
    d: usize,
    s: &Vec<Vec<RingElement>>,
    t: &Vec<Vec<RingElement>>,
    m: usize,
) -> (r: Vec<RingElement>)
    requires
        2 <= q <= Q_MAX,
        1 <= d <= crate::ring::D_MAX,
        s@.len() == t@.len(),
        mat_wf(s@, s@.len() as int, m as int, q as int, d as int),
        mat_wf(t@, t@.len() as int, m as int, q as int, d as int),
    ensures
        r@.len() == tri(s@.len() as int),
        vec_wf(r@, q as int, d as int),
        forall|i: int, j: int|
            0 <= j <= i < s@.len() ==> (#[trigger] r@[packed_index(i, j)]).coeffs()
                == spec_inner_products(s@, t@, q as int, d as int, m as nat, i, j),
{
    let n = s.len();
    let mut r: Vec<RingElement> = Vec::new();
    for i in 0..n
        invariant
            2 <= q <= Q_MAX,
            1 <= d <= crate::ring::D_MAX,
            n == s@.len() == t@.len(),
            mat_wf(s@, s@.len() as int, m as int, q as int, d as int),
            mat_wf(t@, t@.len() as int, m as int, q as int, d as int),
            r@.len() == tri(i as int),
            vec_wf(r@, q as int, d as int),
            forall|a: int, b: int|
                0 <= b <= a < i ==> (#[trigger] r@[packed_index(a, b)]).coeffs()
                    == spec_inner_products(s@, t@, q as int, d as int, m as nat, a, b),
    {
        let end = i + 1;
        for j in 0..end
            invariant
                2 <= q <= Q_MAX,
                1 <= d <= crate::ring::D_MAX,
                end == i + 1,
                i < n,
                n == s@.len() == t@.len(),
                mat_wf(s@, s@.len() as int, m as int, q as int, d as int),
                mat_wf(t@, t@.len() as int, m as int, q as int, d as int),
                r@.len() == tri(i as int) + j,
                vec_wf(r@, q as int, d as int),
                forall|a: int, b: int|
                    0 <= b <= a < i ==> (#[trigger] r@[packed_index(a, b)]).coeffs()
                        == spec_inner_products(s@, t@, q as int, d as int, m as nat, a, b),
                forall|b: int|
                    0 <= b < j ==> (#[trigger] r@[packed_index(i as int, b)]).coeffs()
                        == spec_inner_products(s@, t@, q as int, d as int, m as nat, i as int, b),
        {
            r.push(dot(q, d, &s[i], &t[j]));
            proof {
                crate::symmetric::lemma_tri_monotonic(0, i as int);
                assert forall|a: int, b: int| 0 <= b <= a < i implies (#[trigger] r@[packed_index(
                    a,
                    b,
                )]).coeffs() == spec_inner_products(s@, t@, q as int, d as int, m as nat, a, b) by {
                    crate::symmetric::lemma_tri_monotonic(a + 1, i as int);
                    crate::symmetric::lemma_tri_monotonic(0, a);
                }
            }
        }
    }
    r
}

/// The pairwise inner products `dot(s[i], t[j])`, `j <= i`, as a packed
/// symmetric matrix: the serial computation.
pub fn inner_products_serial(q: u64, d: usize, s: &Vec<Vec<RingElement>>, m: usize) -> (r:
    SymmetricMatrix<RingElement>)
    requires
        2 <= q <= Q_MAX,
        1 <= d <= crate::ring::D_MAX,
        mat_wf(s@, s@.len() as int, m as int, q as int, d as int),
    ensures
        r.wf(),
        r.spec_size() == s@.len(),
        forall|i: int, j: int|
            0 <= j <= i < s@.len() ==> (#[trigger] r.entry(i, j)).coeffs() == spec_inner_products(
                s@,
                s@,
                q as int,
                d as int,
                m as nat,
                i,
                j,
            ) && r.entry(i, j).wf() && r.entry(i, j).modulus() == q && r.entry(i, j).dim() == d,
{
    let flat = inner_products_flat_serial(q, d, s, s, m);
    pack_inner_products(q, d, s, s, m, flat)
}

/// All pairwise dot products of the lower triangle, computed by a worker
/// pool; the `(i, j)` entries are independent, so they parallelize freely.
/// The pairs are supplied by the caller in packed order, so this body is
/// nothing but the parallel map.
///
/// Relies on rayon: `into_par_iter().map(..).collect()` on a vector applies
/// the closure to every element and collects the results in the input's
/// order, so the output equals the serial map. The closure only calls the
/// verified `dot`.
#[verifier::external_body]
fn inner_products_flat_parallel(
    q: u64,
    d: usize,
    s: &Vec<Vec<RingElement>>,
    t: &Vec<Vec<RingElement>>,
    m: usize,
    pairs: Vec<(usize, usize)>,
) -> (r: Vec<RingElement>)
    requires
        2 <= q <= Q_MAX,
        1 <= d <= crate::ring::D_MAX,
        s@.len() == t@.len(),
        mat_wf(s@, s@.len() as int, m as int, q as int, d as int),
        mat_wf(t@, t@.len() as int, m as int, q as int, d as int),
        pairs@.len() == tri(s@.len() as int),
        forall|i: int, j: int|
            0 <= j <= i < s@.len() ==> pairs@[#[trigger] packed_index(i, j)] == (
                i as usize,
                j as usize,
            ),
    ensures
        r@.len() == tri(s@.len() as int),
        vec_wf(r@, q as int, d as int),
        forall|i: int, j: int|
            0 <= j <= i < s@.len() ==> (#[trigger] r@[packed_index(i, j)]).coeffs()
                == spec_inner_products(s@, t@, q as int, d as int, m as nat, i, j),
{
    pairs.into_par_iter().map(|(i, j)| dot(q, d, &s[i], &t[j])).collect()
}

/// Pairwise inner products `dot(s[i], t[j])`, `j <= i`, computed in
/// parallel and returned as a packed symmetric matrix.
pub fn inner_products2(
    q: u64,
    d: usize,
    s: &Vec<Vec<RingElement>>,
    t: &Vec<Vec<RingElement>>,
    m: usize,
) -> (r: SymmetricMatrix<RingElement>)
    requires
        2 <= q <= Q_MAX,
        1 <= d <= crate::ring::D_MAX,
        s@.len() == t@.len(),
        mat_wf(s@, s@.len() as int, m as int, q as int, d as int),
        mat_wf(t@, t@.len() as int, m as int, q as int, d as int),
    ensures
        r.wf(),
        r.spec_size() == s@.len(),
        forall|i: int, j: int|
            0 <= j <= i < s@.len() ==> (#[trigger] r.entry(i, j)).coeffs() == spec_inner_products(
                s@,
                t@,
                q as int,
                d as int,
                m as nat,
                i,
                j,
            ) && r.entry(i, j).wf() && r.entry(i, j).modulus() == q && r.entry(i, j).dim() == d,
{
    let pairs = lower_triang_indices(s.len());
    let flat = inner_products_flat_parallel(q, d, s, t, m, pairs);
    pack_inner_products(q, d, s, t, m, flat)
}

/// The pairwise inner-product matrix of a family of witness vectors with
/// itself, computed in parallel.
pub fn inner_products(q: u64, d: usize, s: &Vec<Vec<RingElement>>, m: usize) -> (r:
    SymmetricMatrix<RingElement>)
    requires
        2 <= q <= Q_MAX,
        1 <= d <= crate::ring::D_MAX,
        mat_wf(s@, s@.len() as int, m as int, q as int, d as int),
    ensures
        r.wf(),
        r.spec_size() == s@.len(),
        forall|i: int, j: int|
            0 <= j <= i < s@.len() ==> (#[trigger] r.entry(i, j)).coeffs() == spec_inner_products(
                s@,
                s@,
                q as int,
                d as int,
                m as nat,
                i,
                j,
            ) && r.entry(i, j).wf() && r.entry(i, j).modulus() == q && r.entry(i, j).dim() == d,
{
    inner_products2(q, d, s, s, m)
}

/// Every entry is a well-formed scalar modulo `q`.
pub open spec fn zq_vec_wf(v: Seq<Zq>, q: int) -> bool {
    forall|i: int| 0 <= i < v.len() ==> (#[trigger] v[i]).wf() && v[i].modulus() == q
}

/// The value of `sum_{i < n} a[i] * b[i]` modulo `q`, accumulated exactly
/// as the executable scalar dot product does.
pub open spec fn spec_dot_vals(a: Seq<Zq>, b: Seq<Zq>, q: int, n: nat) -> int
    decreases n,
{
    if n == 0 {
        0
    } else {
        (spec_dot_vals(a, b, q, (n - 1) as nat) + (a[n - 1].val() * b[n - 1].val()) % q) % q
    }
}

/// The dot product of two scalar vectors.
pub fn zq_dot(q: u64, a: &Vec<Zq>, b: &Vec<Zq>) -> (r: Zq)
    requires
        2 <= q <= Q_MAX,
        a@.len() == b@.len(),
        zq_vec_wf(a@, q as int),
        zq_vec_wf(b@, q as int),
    ensures
        r.wf(),
        r.modulus() == q,
        r.val() == spec_dot_vals(a@, b@, q as int, a@.len()),
{
    let n = a.len();
    let mut acc = Zq::zero(q);
    for i in 0..n
        invariant
            2 <= q <= Q_MAX,
            n == a@.len() == b@.len(),
            zq_vec_wf(a@, q as int),
            zq_vec_wf(b@, q as int),
            acc.wf(),
            acc.modulus() == q,
            acc.val() == spec_dot_vals(a@, b@, q as int, i as nat),
    {
        let p = a[i].mul(&b[i]);
        acc = acc.add(&p);
    }
    acc
}

/// The Gram matrix `m^T * m` of a matrix given by rows, as a full square
/// matrix of scalars: entry `(i, j)` is the dot product of columns `i` and
/// `j`.
pub fn zq_gram_matrix(q: u64, cols: &Vec<Vec<Zq>>) -> (r: Vec<Vec<Zq>>)
    requires
        2 <= q <= Q_MAX,
        forall|i: int| 0 <= i < cols@.len() ==> zq_vec_wf((#[trigger] cols@[i])@, q as int),
        forall|i: int|
            0 <= i < cols@.len() ==> (#[trigger] cols@[i])@.len() == cols@[0]@.len(),
    ensures
        r@.len() == cols@.len(),
        forall|i: int| 0 <= i < cols@.len() ==> (#[trigger] r@[i])@.len() == cols@.len(),
        forall|i: int, j: int|
            0 <= i < cols@.len() && 0 <= j < cols@.len() ==> (#[trigger] r@[i]@[j]).val()
                == spec_dot_vals(cols@[i]@, cols@[j]@, q as int, cols@[0]@.len() as nat)
                && r@[i]@[j].wf() && r@[i]@[j].modulus() == q,
{
    let n = cols.len();
    let mut r: Vec<Vec<Zq>> = Vec::new();
    for i in 0..n
        invariant
            2 <= q <= Q_MAX,
            n == cols@.len(),
            forall|k: int| 0 <= k < cols@.len() ==> zq_vec_wf((#[trigger] cols@[k])@, q as int),
            forall|k: int|
                0 <= k < cols@.len() ==> (#[trigger] cols@[k])@.len() == cols@[0]@.len(),
            r@.len() == i,
            forall|k: int| 0 <= k < i ==> (#[trigger] r@[k])@.len() == n,
            forall|k: int, l: int|
                0 <= k < i && 0 <= l < n ==> (#[trigger] r@[k]@[l]).val() == spec_dot_vals(
                    cols@[k]@,
                    cols@[l]@,
                    q as int,
                    cols@[0]@.len() as nat,
                ) && r@[k]@[l].wf() && r@[k]@[l].modulus() == q,
    {
        let mut row: Vec<Zq> = Vec::new();
        for j in 0..n
            invariant
                2 <= q <= Q_MAX,
                i < n,
                n == cols@.len(),
                forall|k: int|
                    0 <= k < cols@.len() ==> zq_vec_wf((#[trigger] cols@[k])@, q as int),
                forall|k: int|
                    0 <= k < cols@.len() ==> (#[trigger] cols@[k])@.len() == cols@[0]@.len(),
                row@.len() == j,
                forall|l: int|
                    0 <= l < j ==> (#[trigger] row@[l]).val() == spec_dot_vals(
                        cols@[i as int]@,
                        cols@[l]@,
                        q as int,
                        cols@[0]@.len() as nat,
                    ) && row@[l].wf() && row@[l].modulus() == q,
        {
            row.push(zq_dot(q, &cols[i], &cols[j]));
        }
        r.push(row);
    }
    r
}

/// The packed lower triangle of the Gram matrix of a family of scalar
/// columns: entry `(i, j)` is the dot product of columns `i` and `j`.
pub fn inner_products_mat(q: u64, cols: &Vec<Vec<Zq>>) -> (r: SymmetricMatrix<Zq>)
    requires
        2 <= q <= Q_MAX,
        forall|i: int| 0 <= i < cols@.len() ==> zq_vec_wf((#[trigger] cols@[i])@, q as int),
        forall|i: int|
            0 <= i < cols@.len() ==> (#[trigger] cols@[i])@.len() == cols@[0]@.len(),
    ensures
        r.wf(),
        r.spec_size() == cols@.len(),
        forall|i: int, j: int|
            0 <= j <= i < cols@.len() ==> (#[trigger] r.entry(i, j)).val() == spec_dot_vals(
                cols@[i]@,
                cols@[j]@,
                q as int,
                cols@[0]@.len() as nat,
            ),
{
    let n = cols.len();
    let mut rows: Vec<Vec<Zq>> = Vec::new();
    for i in 0..n
        invariant
            2 <= q <= Q_MAX,
            n == cols@.len(),
            forall|k: int| 0 <= k < cols@.len() ==> zq_vec_wf((#[trigger] cols@[k])@, q as int),
            forall|k: int|
                0 <= k < cols@.len() ==> (#[trigger] cols@[k])@.len() == cols@[0]@.len(),
            rows@.len() == i,
            forall|k: int| 0 <= k < i ==> (#[trigger] rows@[k])@.len() == k + 1,
            forall|k: int, l: int|
                0 <= l <= k < i ==> (#[trigger] rows@[k]@[l]).val() == spec_dot_vals(
                    cols@[k]@,
                    cols@[l]@,
                    q as int,
                    cols@[0]@.len() as nat,
                ),
    {
        let mut row: Vec<Zq> = Vec::new();
        let end = i + 1;
        for j in 0..end
            invariant
                2 <= q <= Q_MAX,
                end == i + 1,
                i < n,
                n == cols@.len(),
                forall|k: int|
                    0 <= k < cols@.len() ==> zq_vec_wf((#[trigger] cols@[k])@, q as int),
                forall|k: int|
                    0 <= k < cols@.len() ==> (#[trigger] cols@[k])@.len() == cols@[0]@.len(),
                row@.len() == j,
                forall|l: int|
                    0 <= l < j ==> (#[trigger] row@[l]).val() == spec_dot_vals(
                        cols@[i as int]@,
                        cols@[l]@,
                        q as int,
                        cols@[0]@.len() as nat,
                    ),
        {
            row.push(zq_dot(q, &cols[i], &cols[j]));
        }
        rows.push(row);
    }
    proof {
        assert(is_triangular(rows_view(rows@)));
    }
    let mat = SymmetricMatrix::from_triangular_rows(rows);
    mat
}

/// Fold a flat packed vector of pairwise inner products into the packed
/// symmetric matrix.
fn pack_inner_products(
    q: u64,
    d: usize,
    s: &Vec<Vec<RingElement>>,
    t: &Vec<Vec<RingElement>>,
    m: usize,
    flat: Vec<RingElement>,
) -> (r: SymmetricMatrix<RingElement>)
    requires
        s@.len() == t@.len(),
        flat@.len() == tri(s@.len() as int),
        vec_wf(flat@, q as int, d as int),
        forall|i: int, j: int|
            0 <= j <= i < s@.len() ==> (#[trigger] flat@[packed_index(i, j)]).coeffs()
                == spec_inner_products(s@, t@, q as int, d as int, m as nat, i, j),
    ensures
        r.wf(),
        r.spec_size() == s@.len(),
        forall|i: int, j: int|
            0 <= j <= i < s@.len() ==> (#[trigger] r.entry(i, j)).coeffs() == spec_inner_products(
                s@,
                t@,
                q as int,
                d as int,
                m as nat,
                i,
                j,
            ) && r.entry(i, j).wf() && r.entry(i, j).modulus() == q && r.entry(i, j).dim() == d,
{
    let n = s.len();
    let ghost fv = flat@;
    let rows = lowertriang_from_vec(flat, n);
    proof {
        assert(is_triangular(rows_view(rows@)));
    }
    let mat = SymmetricMatrix::from_triangular_rows(rows);
    proof {
        assert forall|i: int, j: int| 0 <= j <= i < n implies (#[trigger] mat.entry(i, j)).coeffs()
            == spec_inner_products(s@, t@, q as int, d as int, m as nat, i, j) && mat.entry(
            i,
            j,
        ).wf() && mat.entry(i, j).modulus() == q && mat.entry(i, j).dim() == d by {
            crate::symmetric::lemma_tri_monotonic(0, i);
            crate::symmetric::lemma_tri_monotonic(i + 1, n as int);
            assert((#[trigger] fv[packed_index(i, j)]).coeffs() == spec_inner_products(
                s@,
                t@,
                q as int,
                d as int,
                m as nat,
                i,
                j,
            ));
            assert(mat.entry(i, j) == spec_unpack(fv, n as int)[i][j]);
            assert(spec_unpack(fv, n as int)[i][j] == fv[packed_index(i, j)]);
            assert((#[trigger] fv[packed_index(i, j)]).wf() && fv[packed_index(i, j)].modulus()
                == q && fv[packed_index(i, j)].dim() == d);
        }
    }
    mat
}

} // verus!
