//! The principal relation: quadratic dot-product constraints over a family
//! of norm-bounded witness vectors.
//!
//! A constraint holds an optional symmetric `r x r` coefficient matrix `A`
//! (stored packed), a family of `r` coefficient vectors `phi[i]` of length
//! `n`, and a target. It is evaluated against a witness `s` of `r` vectors
//! as the full bilinear form `sum_{i,j} A[i][j] <s_i, s_j>` plus
//! `sum_i <phi[i], s_i>`; a `QuadDotProdFunction` compares the ring value
//! with its ring target, a `ConstantQuadDotProdFunction` compares the
//! constant coefficient with its base-ring target. Constructors are the
//! only way to obtain a constraint; they validate the shape and reject bad
//! input instead of aborting.

use vstd::prelude::*;

use crate::linalg::{
    cadd, cmul, coeff_view, csum, spec_dot, vec_wf, zero_poly,
};
use crate::ring::{D_MAX, RingElement};
use crate::sample::{fresh_sponge, sample_uniform_elem, sample_uniform_mat, sample_uniform_vec};
use crate::sponge::Sponge;
use crate::symmetric::SymmetricMatrix;
use crate::zq::{Q_MAX, Zq};

verus! {

/// Why a constraint was rejected by a constructor.
#[derive(Clone, Copy, Debug, PartialEq, Eq, Structural)]
pub enum RelationError {
    /// The coefficient matrix is not square, not symmetric, or not over
    /// the target's ring.
    BadCoefficientMatrix,
    /// The linear coefficient vectors do not all have the same length over
    /// the target's ring, or their count does not match the matrix.
    BadLinearPart,
}

/// A witness: `r` vectors of `n` ring elements each.
pub struct Witness {
    pub s: Vec<Vec<RingElement>>,
}

/// The witness shape the relation expects.
pub open spec fn witness_wf(w: Witness, r: int, n: int, q: int, d: int) -> bool {
    crate::linalg::mat_wf(w.s@, r, n, q, d)
}

impl Witness {
    pub fn new(s: Vec<Vec<RingElement>>) -> (w: Witness)
        ensures
            w.s == s,
    {
        Witness { s }
    }
}

/// The inner product `<s_i, s_j>` read in storage order: the packed cell
/// holds `dot(s[max], s[min])`.
pub open spec fn pair_dot(s: Seq<Vec<RingElement>>, q: int, d: int, n: nat, i: int, j: int) -> Seq<
    int,
> {
    if j <= i {
        spec_dot(coeff_view(s[i]@), coeff_view(s[j]@), q, d, n)
    } else {
        spec_dot(coeff_view(s[j]@), coeff_view(s[i]@), q, d, n)
    }
}

/// A constraint with a ring-valued target.
pub struct QuadDotProdFunction {
    a: Option<SymmetricMatrix<RingElement>>,
    phi: Vec<Vec<RingElement>>,
    b: RingElement,
}

/// A constraint with a base-ring target, compared on the constant
/// coefficient only.
pub struct ConstantQuadDotProdFunction {
    a: Option<SymmetricMatrix<RingElement>>,
    phi: Vec<Vec<RingElement>>,
    b: Zq,
}

/// The canonical coefficients of the evaluation of a constraint with parts
/// `(a, phi)` against witness vectors `s`: all `r * r` bilinear terms in
/// row-major order, then the `r` linear terms, accumulated left to right.
pub open spec fn spec_eval_parts(
    a: Option<SymmetricMatrix<RingElement>>,
    phi: Seq<Vec<RingElement>>,
    s: Seq<Vec<RingElement>>,
    r: int,
    n: int,
    q: int,
    d: int,
) -> Seq<int> {
    let lin = |i: int| spec_dot(coeff_view(phi[i]@), coeff_view(s[i]@), q, d, n as nat);
    match a {
        Some(m) => csum(
            |t: int|
                if t < r * r {
                    cmul(m.entry(t / r, t % r).coeffs(), pair_dot(s, q, d, n as nat, t / r, t % r), q)
                } else {
                    lin(t - r * r)
                },
            q,
            d,
            (r * r + r) as nat,
        ),
        None => csum(lin, q, d, r as nat),
    }
}

/// The coefficient-matrix side of a constructor's validation: square of
/// the `phi` family's size, entries in the ring, symmetric.
pub open spec fn coeff_matrix_shape_ok(
    a_rows: Seq<Vec<RingElement>>,
    phi: Seq<Vec<RingElement>>,
    q: int,
    d: int,
) -> bool {
    &&& a_rows.len() == phi.len()
    &&& crate::linalg::mat_wf(a_rows, a_rows.len() as int, a_rows.len() as int, q, d)
    &&& forall|i: int, j: int|
        0 <= i < a_rows.len() && 0 <= j < a_rows.len() ==> (#[trigger] a_rows[i]@[j]).coeffs()
            == a_rows[j]@[i].coeffs()
}

/// The linear side of a constructor's validation: every coefficient
/// vector of length `n`, entries in the ring.
pub open spec fn linear_part_shape_ok(phi: Seq<Vec<RingElement>>, n: int, q: int, d: int) -> bool {
    forall|i: int|
        0 <= i < phi.len() ==> (#[trigger] phi[i])@.len() == n && vec_wf(phi[i]@, q, d)
}

/// Shared well-formedness of a constraint's parts for shape
/// `(r, n, q, d)`.
pub open spec fn parts_wf(
    a: Option<SymmetricMatrix<RingElement>>,
    phi: Seq<Vec<RingElement>>,
    r: int,
    n: int,
    q: int,
    d: int,
) -> bool {
    &&& match a {
        Some(m) => m.wf() && m.spec_size() == r && forall|i: int, j: int|
            0 <= i < r && 0 <= j < r ==> (#[trigger] m.entry(i, j)).wf() && m.entry(i, j).modulus()
                == q && m.entry(i, j).dim() == d,
        None => true,
    }
    &&& phi.len() == r
    &&& forall|i: int| 0 <= i < r ==> (#[trigger] phi[i])@.len() == n && vec_wf(phi[i]@, q, d)
}

/// Decide `parts_wf` for shape `(r, n)` over the ring `(q, d)`.
fn parts_check(
    a: &Option<SymmetricMatrix<RingElement>>,
    phi: &Vec<Vec<RingElement>>,
    r: usize,
    n: usize,
    q: u64,
    d: usize,
) -> (ok: bool)
    requires
        2 <= q <= Q_MAX,
        1 <= d <= D_MAX,
    ensures
        ok <==> parts_wf(*a, phi@, r as int, n as int, q as int, d as int),
{
    match a {
        Some(m) => {
            if !m.shape_check() {
                return false;
            }
            if m.size() != r {
                return false;
            }
            for i in 0..r
                invariant
                    2 <= q <= Q_MAX,
                    1 <= d <= D_MAX,
                    *a == Some(*m),
                    m.wf(),
                    m.spec_size() == r,
                    forall|a1: int, b1: int|
                        0 <= a1 < i && 0 <= b1 < r ==> (#[trigger] m.entry(a1, b1)).wf()
                            && m.entry(a1, b1).modulus() == q && m.entry(a1, b1).dim() == d,
            {
                for j in 0..r
                    invariant
                        2 <= q <= Q_MAX,
                        1 <= d <= D_MAX,
                        i < r,
                        *a == Some(*m),
                        m.wf(),
                        m.spec_size() == r,
                        forall|a1: int, b1: int|
                            0 <= a1 < i && 0 <= b1 < r ==> (#[trigger] m.entry(a1, b1)).wf()
                                && m.entry(a1, b1).modulus() == q && m.entry(a1, b1).dim()
                                == d,
                        forall|b1: int|
                            0 <= b1 < j ==> (#[trigger] m.entry(i as int, b1)).wf()
                                && m.entry(i as int, b1).modulus() == q && m.entry(
                                i as int,
                                b1,
                            ).dim() == d,
                {
                    let e = m.at(i, j);
                    if e.modulus_u64() != q || e.dim_usize() != d || !e.wf_check() {
                        proof {
                            assert(!((#[trigger] m.entry(i as int, j as int)).wf() && m.entry(
                                i as int,
                                j as int,
                            ).modulus() == q && m.entry(i as int, j as int).dim() == d));
                        }
                        return false;
                    }
                }
            }
        },
        None => {},
    }
    if phi.len() != r {
        return false;
    }
    validate_phi(phi, n, q, d)
}

/// The evaluation loop shared by both constraint kinds.
fn eval_parts(
    a: &Option<SymmetricMatrix<RingElement>>,
    phi: &Vec<Vec<RingElement>>,
    s: &Vec<Vec<RingElement>>,
    gram: &SymmetricMatrix<RingElement>,
    r: usize,
    n: usize,
    q: u64,
    d: usize,
) -> (res: RingElement)
    requires
        2 <= q <= Q_MAX,
        1 <= d <= D_MAX,
        r < 0x8000,
        parts_wf(*a, phi@, r as int, n as int, q as int, d as int),
        crate::linalg::mat_wf(s@, r as int, n as int, q as int, d as int),
        gram.wf(),
        gram.spec_size() == r,
        forall|i: int, j: int|
            0 <= j <= i < r ==> (#[trigger] gram.entry(i, j)).coeffs()
                == crate::linalg::spec_inner_products(
                s@,
                s@,
                q as int,
                d as int,
                n as nat,
                i,
                j,
            ) && gram.entry(i, j).wf() && gram.entry(i, j).modulus() == q && gram.entry(
                i,
                j,
            ).dim() == d,
    ensures
        res.wf(),
        res.modulus() == q,
        res.dim() == d,
        res.coeffs() == spec_eval_parts(*a, phi@, s@, r as int, n as int, q as int, d as int),
{
    let ghost lin = |i: int|
        spec_dot(coeff_view(phi@[i]@), coeff_view(s@[i]@), q as int, d as int, n as nat);
    let mut res = RingElement::zero(q, d);
    proof {
        assert(res.coeffs() =~= zero_poly(d as int));
    }
    match a {
        Some(m) => {
            let ghost term = |t: int|
                if t < r as int * r as int {
                    cmul(
                        m.entry(t / r as int, t % r as int).coeffs(),
                        pair_dot(s@, q as int, d as int, n as nat, t / r as int, t % r as int),
                        q as int,
                    )
                } else {
                    lin(t - r as int * r as int)
                };
            proof {
                assert((r as int) * (r as int) < 0x4000_0000) by (nonlinear_arith)
                    requires
                        0 <= (r as int) < 0x8000,
                ;
            }
            let rr = r * r;
            for t in 0..rr
                invariant
                    2 <= q <= Q_MAX,
                    1 <= d <= D_MAX,
                    r < 0x8000,
                    rr == r * r,
                    parts_wf(Some(*m), phi@, r as int, n as int, q as int, d as int),
                    crate::linalg::mat_wf(s@, r as int, n as int, q as int, d as int),
                    gram.wf(),
                    gram.spec_size() == r,
                    forall|i: int, j: int|
                        0 <= j <= i < r ==> (#[trigger] gram.entry(i, j)).coeffs()
                            == crate::linalg::spec_inner_products(
                            s@,
                            s@,
                            q as int,
                            d as int,
                            n as nat,
                            i,
                            j,
                        ) && gram.entry(i, j).wf() && gram.entry(i, j).modulus() == q
                            && gram.entry(i, j).dim() == d,
                    res.wf(),
                    res.modulus() == q,
                    res.dim() == d,
                    res.coeffs() == csum(term, q as int, d as int, t as nat),
                    term == (|t: int|
                        if t < r as int * r as int {
                            cmul(
                                m.entry(t / r as int, t % r as int).coeffs(),
                                pair_dot(
                                    s@,
                                    q as int,
                                    d as int,
                                    n as nat,
                                    t / r as int,
                                    t % r as int,
                                ),
                                q as int,
                            )
                        } else {
                            lin(t - r as int * r as int)
                        }),
            {
                let i = t / r;
                let j = t % r;
                proof {
                    assert(r > 0);
                    vstd::arithmetic::div_mod::lemma_fundamental_div_mod(t as int, r as int);
                    vstd::arithmetic::div_mod::lemma_mod_bound(t as int, r as int);
                    assert((t as int / r as int) < (r as int)) by (nonlinear_arith)
                        requires
                            0 <= (t as int) < (r as int) * (r as int),
                            0 < (r as int),
                            t as int == (r as int) * (t as int / r as int) + (t as int % r as int),
                            0 <= (t as int % r as int) < (r as int),
                    ;
                    assert(i as int == t as int / r as int);
                    assert(j as int == t as int % r as int);
                }
                let c = m.at(i, j);
                let gij = gram.at(i, j);
                proof {
                    if j <= i {
                        assert(gram.entry(i as int, j as int).coeffs()
                            == crate::linalg::spec_inner_products(
                            s@,
                            s@,
                            q as int,
                            d as int,
                            n as nat,
                            i as int,
                            j as int,
                        ));
                    } else {
                        assert(gram.entry(j as int, i as int).coeffs()
                            == crate::linalg::spec_inner_products(
                            s@,
                            s@,
                            q as int,
                            d as int,
                            n as nat,
                            j as int,
                            i as int,
                        ));
                        assert(gram.entry(i as int, j as int) == gram.entry(j as int, i as int));
                    }
                    if j <= i {
                        assert(gram.entry(i as int, j as int).wf());
                    } else {
                        assert(gram.entry(j as int, i as int).wf());
                    }
                }
                let p = c.mul(gij);
                res = res.add(&p);
                proof {
                    assert(gram.entry(i as int, j as int).coeffs() == pair_dot(
                        s@,
                        q as int,
                        d as int,
                        n as nat,
                        i as int,
                        j as int,
                    ));
                    assert(term(t as int) == cmul(
                        m.entry(i as int, j as int).coeffs(),
                        pair_dot(s@, q as int, d as int, n as nat, i as int, j as int),
                        q as int,
                    ));
                    assert(res.coeffs() =~= csum(term, q as int, d as int, (t + 1) as nat));
                }
            }
            for i in 0..r
                invariant
                    2 <= q <= Q_MAX,
                    1 <= d <= D_MAX,
                    r < 0x8000,
                    rr == r * r,
                    parts_wf(Some(*m), phi@, r as int, n as int, q as int, d as int),
                    crate::linalg::mat_wf(s@, r as int, n as int, q as int, d as int),
                    res.wf(),
                    res.modulus() == q,
                    res.dim() == d,
                    res.coeffs() == csum(term, q as int, d as int, (rr + i) as nat),
                    term == (|t: int|
                        if t < r as int * r as int {
                            cmul(
                                m.entry(t / r as int, t % r as int).coeffs(),
                                pair_dot(
                                    s@,
                                    q as int,
                                    d as int,
                                    n as nat,
                                    t / r as int,
                                    t % r as int,
                                ),
                                q as int,
                            )
                        } else {
                            lin(t - r as int * r as int)
                        }),
                    lin == (|i: int|
                        spec_dot(
                            coeff_view(phi@[i]@),
                            coeff_view(s@[i]@),
                            q as int,
                            d as int,
                            n as nat,
                        )),
            {
                let p = crate::linalg::dot(q, d, &phi[i], &s[i]);
                res = res.add(&p);
                proof {
                    assert(term((rr + i) as int) == lin(i as int));
                    assert(res.coeffs() =~= csum(term, q as int, d as int, (rr + i + 1) as nat));
                }
            }
            proof {
                assert(spec_eval_parts(
                    Some(*m),
                    phi@,
                    s@,
                    r as int,
                    n as int,
                    q as int,
                    d as int,
                ) == csum(term, q as int, d as int, (rr + r) as nat));
            }
        },
        None => {
            for i in 0..r
                invariant
                    2 <= q <= Q_MAX,
                    1 <= d <= D_MAX,
                    parts_wf(None, phi@, r as int, n as int, q as int, d as int),
                    crate::linalg::mat_wf(s@, r as int, n as int, q as int, d as int),
                    res.wf(),
                    res.modulus() == q,
                    res.dim() == d,
                    res.coeffs() == csum(lin, q as int, d as int, i as nat),
                    lin == (|i: int|
                        spec_dot(
                            coeff_view(phi@[i]@),
                            coeff_view(s@[i]@),
                            q as int,
                            d as int,
                            n as nat,
                        )),
            {
                let p = crate::linalg::dot(q, d, &phi[i], &s[i]);
                res = res.add(&p);
                proof {
                    assert(res.coeffs() =~= csum(lin, q as int, d as int, (i + 1) as nat));
                }
            }
        },
    }
    res
}

/// Validate and pack constraint parts: `a_rows` must be square of size
/// `phi.len()` and symmetric, `phi` rectangular, everything over the ring
/// of `q`/`d`.
fn validate_parts(
    a_rows: &Vec<Vec<RingElement>>,
    phi: &Vec<Vec<RingElement>>,
    q: u64,
    d: usize,
) -> (r: Result<SymmetricMatrix<RingElement>, RelationError>)
    requires
        2 <= q <= Q_MAX,
        1 <= d <= D_MAX,
    ensures
        match r {
            Ok(m) => {
                &&& a_rows@.len() == phi@.len()
                &&& crate::linalg::mat_wf(
                    a_rows@,
                    a_rows@.len() as int,
                    a_rows@.len() as int,
                    q as int,
                    d as int,
                )
                &&& forall|i: int, j: int|
                    0 <= i < a_rows@.len() && 0 <= j < a_rows@.len()
                        ==> (#[trigger] a_rows@[i]@[j]).coeffs() == a_rows@[j]@[i].coeffs()
                &&& m.wf()
                &&& m.spec_size() == a_rows@.len()
                &&& forall|i: int, j: int|
                    0 <= i < a_rows@.len() && 0 <= j < a_rows@.len()
                        ==> (#[trigger] m.entry(i, j)).coeffs() == a_rows@[i]@[j].coeffs()
                            && m.entry(i, j).wf() && m.entry(i, j).modulus() == q && m.entry(
                            i,
                            j,
                        ).dim() == d
            },
            Err(RelationError::BadCoefficientMatrix) => !(a_rows@.len() == phi@.len()
                && crate::linalg::mat_wf(
                a_rows@,
                a_rows@.len() as int,
                a_rows@.len() as int,
                q as int,
                d as int,
            ) && forall|i: int, j: int|
                0 <= i < a_rows@.len() && 0 <= j < a_rows@.len()
                    ==> (#[trigger] a_rows@[i]@[j]).coeffs() == a_rows@[j]@[i].coeffs()),
            Err(RelationError::BadLinearPart) => false,
        },
{
    let r = a_rows.len();
    if r != phi.len() {
        return Err(RelationError::BadCoefficientMatrix);
    }
    for i in 0..r
        invariant
            r == a_rows@.len(),
            2 <= q <= Q_MAX,
            1 <= d <= D_MAX,
            forall|k: int|
                0 <= k < i ==> (#[trigger] a_rows@[k])@.len() == r && vec_wf(
                    a_rows@[k]@,
                    q as int,
                    d as int,
                ),
    {
        if a_rows[i].len() != r {
            return Err(RelationError::BadCoefficientMatrix);
        }
        for j in 0..r
            invariant
                i < r,
                r == a_rows@.len(),
                a_rows@[i as int]@.len() == r,
                2 <= q <= Q_MAX,
                1 <= d <= D_MAX,
                forall|k: int|
                    0 <= k < i ==> (#[trigger] a_rows@[k])@.len() == r && vec_wf(
                        a_rows@[k]@,
                        q as int,
                        d as int,
                    ),
                forall|l: int|
                    0 <= l < j ==> (#[trigger] a_rows@[i as int]@[l]).wf()
                        && a_rows@[i as int]@[l].modulus() == q && a_rows@[i as int]@[l].dim()
                        == d,
        {
            let e = &a_rows[i][j];
            if e.modulus_u64() != q || e.dim_usize() != d {
                return Err(RelationError::BadCoefficientMatrix);
            }
            let wf_ok = e.wf_check();
            if !wf_ok {
                return Err(RelationError::BadCoefficientMatrix);
            }
        }
    }
    for i in 0..r
        invariant
            r == a_rows@.len(),
            crate::linalg::mat_wf(a_rows@, r as int, r as int, q as int, d as int),
            forall|k: int, l: int|
                0 <= k < i && 0 <= l < r ==> (#[trigger] a_rows@[k]@[l]).coeffs()
                    == a_rows@[l]@[k].coeffs(),
    {
        for j in 0..r
            invariant
                i < r,
                r == a_rows@.len(),
                crate::linalg::mat_wf(a_rows@, r as int, r as int, q as int, d as int),
                forall|k: int, l: int|
                    0 <= k < i && 0 <= l < r ==> (#[trigger] a_rows@[k]@[l]).coeffs()
                        == a_rows@[l]@[k].coeffs(),
                forall|l: int|
                    0 <= l < j ==> (#[trigger] a_rows@[i as int]@[l]).coeffs()
                        == a_rows@[l]@[i as int].coeffs(),
        {
            if !a_rows[i][j].equals(&a_rows[j][i]) {
                return Err(RelationError::BadCoefficientMatrix);
            }
        }
    }
    // Pack the lower triangle.
    let mut rows: Vec<Vec<RingElement>> = Vec::new();
    for i in 0..r
        invariant
            r == a_rows@.len(),
            crate::linalg::mat_wf(a_rows@, r as int, r as int, q as int, d as int),
            forall|k: int, l: int|
                0 <= k < r && 0 <= l < r ==> (#[trigger] a_rows@[k]@[l]).coeffs()
                    == a_rows@[l]@[k].coeffs(),
            rows@.len() == i,
            forall|k: int|
                0 <= k < i ==> (#[trigger] rows@[k])@.len() == k + 1,
            forall|k: int, l: int|
                0 <= l <= k < i ==> (#[trigger] rows@[k]@[l]).coeffs() == a_rows@[k]@[l].coeffs()
                    && rows@[k]@[l].wf() && rows@[k]@[l].modulus() == q && rows@[k]@[l].dim() == d,
    {
        let mut row: Vec<RingElement> = Vec::new();
        let end = i + 1;
        for j in 0..end
            invariant
                end == i + 1,
                i < r,
                r == a_rows@.len(),
                crate::linalg::mat_wf(a_rows@, r as int, r as int, q as int, d as int),
                row@.len() == j,
                forall|l: int|
                    0 <= l < j ==> (#[trigger] row@[l]).coeffs() == a_rows@[i as int]@[l].coeffs()
                        && row@[l].wf() && row@[l].modulus() == q && row@[l].dim() == d,
        {
            row.push(a_rows[i][j].clone());
        }
        rows.push(row);
    }
    proof {
        assert(crate::symmetric::is_triangular(crate::symmetric::rows_view(rows@)));
    }
    let m = SymmetricMatrix::from_triangular_rows(rows);
    proof {
        assert forall|i: int, j: int| 0 <= i < r && 0 <= j < r implies (#[trigger] m.entry(
            i,
            j,
        )).coeffs() == a_rows@[i]@[j].coeffs() && m.entry(i, j).wf() && m.entry(i, j).modulus()
            == q && m.entry(i, j).dim() == d by {}
    }
    Ok(m)
}

/// Validate the linear part: every `phi[i]` has length `n` over the ring.
fn validate_phi(phi: &Vec<Vec<RingElement>>, n: usize, q: u64, d: usize) -> (ok: bool)
    requires
        2 <= q <= Q_MAX,
        1 <= d <= D_MAX,
    ensures
        ok <==> forall|i: int|
            0 <= i < phi@.len() ==> (#[trigger] phi@[i])@.len() == n && vec_wf(
                phi@[i]@,
                q as int,
                d as int,
            ),
{
    let r = phi.len();
    for i in 0..r
        invariant
            r == phi@.len(),
            2 <= q <= Q_MAX,
            1 <= d <= D_MAX,
            forall|k: int|
                0 <= k < i ==> (#[trigger] phi@[k])@.len() == n && vec_wf(
                    phi@[k]@,
                    q as int,
                    d as int,
                ),
    {
        if phi[i].len() != n {
            proof {
                assert((#[trigger] phi@[i as int])@.len() != n);
            }
            return false;
        }
        let row = &phi[i];
        let m = row.len();
        for j in 0..m
            invariant
                i < r,
                r == phi@.len(),
                row@ == phi@[i as int]@,
                m == n == row@.len(),
                2 <= q <= Q_MAX,
                1 <= d <= D_MAX,
                forall|l: int|
                    0 <= l < j ==> (#[trigger] phi@[i as int]@[l]).wf()
                        && phi@[i as int]@[l].modulus() == q && phi@[i as int]@[l].dim() == d,
        {
            let e = &row[j];
            if e.modulus_u64() != q || e.dim_usize() != d || !e.wf_check() {
                proof {
                    let bad = phi@[i as int]@[j as int];
                    assert(!(bad.wf() && bad.modulus() == q && bad.dim() == d));
                    assert(phi@[i as int]@[j as int] == bad);
                    assert(!vec_wf(phi@[i as int]@, q as int, d as int));
                    assert(!((#[trigger] phi@[i as int])@.len() == n && vec_wf(
                        phi@[i as int]@,
                        q as int,
                        d as int,
                    )));
                }
                return false;
            }
        }
    }
    true
}

impl QuadDotProdFunction {
    pub closed spec fn spec_a(self) -> Option<SymmetricMatrix<RingElement>> {
        self.a
    }

    pub closed spec fn spec_phi(self) -> Seq<Vec<RingElement>> {
        self.phi@
    }

    pub closed spec fn spec_b(self) -> RingElement {
        self.b
    }

    /// Well-formed for relation shape `(r, n)` over ring `(q, d)`.
    pub open spec fn wf(self, r: int, n: int, q: int, d: int) -> bool {
        &&& parts_wf(self.spec_a(), self.spec_phi(), r, n, q, d)
        &&& self.spec_b().wf()
        &&& self.spec_b().modulus() == q
        &&& self.spec_b().dim() == d
    }

    /// The canonical coefficients of the evaluation against witness
    /// vectors `s`.
    pub open spec fn spec_eval(self, s: Seq<Vec<RingElement>>, r: int, n: int, q: int, d: int) -> Seq<
        int,
    > {
        spec_eval_parts(self.spec_a(), self.spec_phi(), s, r, n, q, d)
    }

    /// A witness satisfies the constraint when the evaluation equals the
    /// ring target.
    pub open spec fn spec_satisfied(self, s: Seq<Vec<RingElement>>, r: int, n: int, q: int, d: int) -> bool {
        self.spec_eval(s, r, n, q, d) == self.spec_b().coeffs()
    }

    /// Build a quadratic constraint; the matrix must be square of the
    /// `phi` family's size and symmetric, and all parts over one ring.
    pub fn new(a_rows: Vec<Vec<RingElement>>, phi: Vec<Vec<RingElement>>, b: RingElement) -> (r:
        Result<QuadDotProdFunction, RelationError>)
        requires
            b.wf(),
        ensures
            match r {
                Ok(c) => {
                    &&& c.wf(phi@.len() as int, (if phi@.len() > 0 {
                        phi@[0]@.len() as int
                    } else {
                        0
                    }), b.modulus(), b.dim())
                    &&& c.spec_phi() == phi@
                    &&& c.spec_b() == b
                    &&& c.spec_a() is Some
                    &&& forall|i: int, j: int|
                        0 <= i < phi@.len() && 0 <= j < phi@.len()
                            ==> (#[trigger] c.spec_a()->Some_0.entry(i, j)).coeffs()
                                == a_rows@[i]@[j].coeffs()
                },
                Err(RelationError::BadCoefficientMatrix) => !coeff_matrix_shape_ok(
                    a_rows@,
                    phi@,
                    b.modulus(),
                    b.dim(),
                ),
                Err(RelationError::BadLinearPart) => coeff_matrix_shape_ok(
                    a_rows@,
                    phi@,
                    b.modulus(),
                    b.dim(),
                ) && !linear_part_shape_ok(phi@, (if phi@.len() > 0 {
                    phi@[0]@.len() as int
                } else {
                    0
                }), b.modulus(), b.dim()),
            },
    {
        let q = b.modulus_u64();
        let d = b.dim_usize();
        let n: usize = if phi.len() > 0 {
            phi[0].len()
        } else {
            0
        };
        let m = match validate_parts(&a_rows, &phi, q, d) {
            Ok(m) => m,
            Err(e) => {
                return Err(e);
            },
        };
        if !validate_phi(&phi, n, q, d) {
            return Err(RelationError::BadLinearPart);
        }
        Ok(QuadDotProdFunction { a: Some(m), phi, b })
    }

    /// Build a linear constraint (no quadratic part).
    pub fn new_linear(phi: Vec<Vec<RingElement>>, b: RingElement) -> (r: Result<
        QuadDotProdFunction,
        RelationError,
    >)
        requires
            b.wf(),
        ensures
            match r {
                Ok(c) => {
                    &&& c.wf(phi@.len() as int, (if phi@.len() > 0 {
                        phi@[0]@.len() as int
                    } else {
                        0
                    }), b.modulus(), b.dim())
                    &&& c.spec_phi() == phi@
                    &&& c.spec_b() == b
                    &&& c.spec_a() is None
                },
                Err(RelationError::BadCoefficientMatrix) => false,
                Err(RelationError::BadLinearPart) => !linear_part_shape_ok(phi@, (if phi@.len()
                    > 0 {
                    phi@[0]@.len() as int
                } else {
                    0
                }), b.modulus(), b.dim()),
            },
    {
        let q = b.modulus_u64();
        let d = b.dim_usize();
        let n: usize = if phi.len() > 0 {
            phi[0].len()
        } else {
            0
        };
        if !validate_phi(&phi, n, q, d) {
            return Err(RelationError::BadLinearPart);
        }
        Ok(QuadDotProdFunction { a: None, phi, b })
    }

    /// Assemble a constraint from parts whose shape is already
    /// established: a packed coefficient matrix of size `r`, `r` linear
    /// coefficient vectors of length `n`, and a ring target.
    pub fn from_parts_packed(
        a: SymmetricMatrix<RingElement>,
        phi: Vec<Vec<RingElement>>,
        b: RingElement,
        r: usize,
        n: usize,
        q: u64,
        d: usize,
    ) -> (c: QuadDotProdFunction)
        requires
            parts_wf(Some(a), phi@, r as int, n as int, q as int, d as int),
            b.wf(),
            b.modulus() == q,
            b.dim() == d,
        ensures
            c.wf(r as int, n as int, q as int, d as int),
            c.spec_a() == Some(a),
            c.spec_phi() == phi@,
            c.spec_b() == b,
    {
        QuadDotProdFunction { a: Some(a), phi, b }
    }

    /// A linear constraint sampled from the sponge whose target is its own
    /// evaluation against the given witness vectors: satisfied by
    /// construction.
    pub fn new_satisfied(
        s: &Vec<Vec<RingElement>>,
        r: usize,
        n: usize,
        q: u64,
        d: usize,
        g: &mut Sponge,
    ) -> (c: QuadDotProdFunction)
        requires
            2 <= q <= Q_MAX,
            1 <= d <= D_MAX,
            r < 0x8000,
            crate::linalg::mat_wf(s@, r as int, n as int, q as int, d as int),
        ensures
            c.wf(r as int, n as int, q as int, d as int),
            c.spec_satisfied(s@, r as int, n as int, q as int, d as int),
    {
        let phi = sample_uniform_mat(q, d, r, n, g);
        let a: Option<SymmetricMatrix<RingElement>> = None;
        let gram = crate::linalg::inner_products(q, d, s, n);
        let b = eval_parts(&a, &phi, s, &gram, r, n, q, d);
        QuadDotProdFunction { a, phi, b }
    }

    /// A linear constraint sampled from the sponge whose target misses its
    /// evaluation against the given witness vectors by one in the constant
    /// coefficient: violated by construction.
    pub fn new_unsatisfied(
        s: &Vec<Vec<RingElement>>,
        r: usize,
        n: usize,
        q: u64,
        d: usize,
        g: &mut Sponge,
    ) -> (c: QuadDotProdFunction)
        requires
            2 <= q <= Q_MAX,
            1 <= d <= D_MAX,
            r < 0x8000,
            crate::linalg::mat_wf(s@, r as int, n as int, q as int, d as int),
        ensures
            c.wf(r as int, n as int, q as int, d as int),
            !c.spec_satisfied(s@, r as int, n as int, q as int, d as int),
    {
        let phi = sample_uniform_mat(q, d, r, n, g);
        let a: Option<SymmetricMatrix<RingElement>> = None;
        let gram = crate::linalg::inner_products(q, d, s, n);
        let v = eval_parts(&a, &phi, s, &gram, r, n, q, d);
        let b = v.add(&RingElement::one(q, d));
        proof {
            let v0 = v.coeffs()[0];
            assert(b.coeffs()[0] == (v0 + 1) % (q as int));
            if v0 + 1 < q {
                vstd::arithmetic::div_mod::lemma_small_mod((v0 + 1) as nat, q as nat);
            } else {
                assert(v0 == q - 1);
                vstd::arithmetic::div_mod::lemma_mod_self_0(q as int);
            }
            assert(b.coeffs()[0] != v0);
        }
        QuadDotProdFunction { a, phi, b }
    }

    /// An all-zero constraint of shape `(r, n)`.
    pub fn new_empty(r: usize, n: usize, q: u64, d: usize) -> (c: QuadDotProdFunction)
        requires
            2 <= q <= Q_MAX,
            1 <= d <= D_MAX,
        ensures
            c.wf(r as int, n as int, q as int, d as int),
            c.spec_a() is Some,
    {
        let mut rows: Vec<Vec<RingElement>> = Vec::new();
        for i in 0..r
            invariant
                2 <= q <= Q_MAX,
                1 <= d <= D_MAX,
                rows@.len() == i,
                forall|k: int|
                    0 <= k < i ==> (#[trigger] rows@[k])@.len() == k + 1 && vec_wf(
                        rows@[k]@,
                        q as int,
                        d as int,
                    ),
        {
            let mut row: Vec<RingElement> = Vec::new();
            let end = i + 1;
            for j in 0..end
                invariant
                    2 <= q <= Q_MAX,
                    1 <= d <= D_MAX,
                    end == i + 1,
                    row@.len() == j,
                    vec_wf(row@, q as int, d as int),
            {
                row.push(RingElement::zero(q, d));
            }
            rows.push(row);
        }
        proof {
            assert(crate::symmetric::is_triangular(crate::symmetric::rows_view(rows@)));
        }
        let m = SymmetricMatrix::from_triangular_rows(rows);
        let mut phi: Vec<Vec<RingElement>> = Vec::new();
        for i in 0..r
            invariant
                2 <= q <= Q_MAX,
                1 <= d <= D_MAX,
                phi@.len() == i,
                forall|k: int|
                    0 <= k < i ==> (#[trigger] phi@[k])@.len() == n && vec_wf(
                        phi@[k]@,
                        q as int,
                        d as int,
                    ),
        {
            let mut row: Vec<RingElement> = Vec::new();
            for j in 0..n
                invariant
                    2 <= q <= Q_MAX,
                    1 <= d <= D_MAX,
                    row@.len() == j,
                    vec_wf(row@, q as int, d as int),
            {
                row.push(RingElement::zero(q, d));
            }
            phi.push(row);
        }
        QuadDotProdFunction { a: Some(m), phi, b: RingElement::zero(q, d) }
    }

    /// A uniformly random constraint of shape `(r, n)`, for exercising the
    /// machinery; nothing is promised of its values.
    pub fn new_dummy(r: usize, n: usize, q: u64, d: usize, g: &mut Sponge) -> (c:
        QuadDotProdFunction)
        requires
            2 <= q <= Q_MAX,
            1 <= d <= D_MAX,
        ensures
            c.wf(r as int, n as int, q as int, d as int),
    {
        let mut rows: Vec<Vec<RingElement>> = Vec::new();
        for i in 0..r
            invariant
                2 <= q <= Q_MAX,
                1 <= d <= D_MAX,
                rows@.len() == i,
                forall|k: int|
                    0 <= k < i ==> (#[trigger] rows@[k])@.len() == k + 1 && vec_wf(
                        rows@[k]@,
                        q as int,
                        d as int,
                    ),
        {
            let row = sample_uniform_vec(q, d, i + 1, g);
            rows.push(row);
        }
        proof {
            assert(crate::symmetric::is_triangular(crate::symmetric::rows_view(rows@)));
        }
        let m = SymmetricMatrix::from_triangular_rows(rows);
        let mut phi: Vec<Vec<RingElement>> = Vec::new();
        for i in 0..r
            invariant
                2 <= q <= Q_MAX,
                1 <= d <= D_MAX,
                phi@.len() == i,
                forall|k: int|
                    0 <= k < i ==> (#[trigger] phi@[k])@.len() == n && vec_wf(
                        phi@[k]@,
                        q as int,
                        d as int,
                    ),
        {
            phi.push(sample_uniform_vec(q, d, n, g));
        }
        let b = sample_uniform_elem(q, d, g);
        QuadDotProdFunction { a: Some(m), phi, b }
    }

    /// Decide well-formedness for shape `(r, n)` over the ring `(q, d)`:
    /// the certified validation a caller runs before prove or verify.
    pub fn wf_check(&self, r: usize, n: usize, q: u64, d: usize) -> (ok: bool)
        requires
            2 <= q <= Q_MAX,
            1 <= d <= D_MAX,
        ensures
            ok <==> self.wf(r as int, n as int, q as int, d as int),
    {
        if !parts_check(&self.a, &self.phi, r, n, q, d) {
            return false;
        }
        self.b.modulus_u64() == q && self.b.dim_usize() == d && self.b.wf_check()
    }

    /// Evaluate against a witness, using a precomputed inner-product
    /// matrix of its vectors.
    pub fn eval_with_gram(
        &self,
        s: &Vec<Vec<RingElement>>,
        gram: &SymmetricMatrix<RingElement>,
        r: usize,
        n: usize,
        q: u64,
        d: usize,
    ) -> (res: RingElement)
        requires
            2 <= q <= Q_MAX,
            1 <= d <= D_MAX,
            r < 0x8000,
            self.wf(r as int, n as int, q as int, d as int),
            crate::linalg::mat_wf(s@, r as int, n as int, q as int, d as int),
            gram.wf(),
            gram.spec_size() == r,
            forall|i: int, j: int|
                0 <= j <= i < r ==> (#[trigger] gram.entry(i, j)).coeffs()
                    == crate::linalg::spec_inner_products(
                    s@,
                    s@,
                    q as int,
                    d as int,
                    n as nat,
                    i,
                    j,
                ) && gram.entry(i, j).wf() && gram.entry(i, j).modulus() == q && gram.entry(
                    i,
                    j,
                ).dim() == d,
        ensures
            res.wf(),
            res.modulus() == q,
            res.dim() == d,
            res.coeffs() == self.spec_eval(s@, r as int, n as int, q as int, d as int),
    {
        eval_parts(&self.a, &self.phi, s, gram, r, n, q, d)
    }

    /// Does the witness satisfy the constraint?
    pub fn is_valid_witness(&self, witness: &Witness, r: usize, n: usize, q: u64, d: usize) -> (ok:
        bool)
        requires
            2 <= q <= Q_MAX,
            1 <= d <= D_MAX,
            r < 0x8000,
            self.wf(r as int, n as int, q as int, d as int),
            witness_wf(*witness, r as int, n as int, q as int, d as int),
        ensures
            ok <==> self.spec_satisfied(witness.s@, r as int, n as int, q as int, d as int),
    {
        let gram = crate::linalg::inner_products(q, d, &witness.s, n);
        let res = self.eval_with_gram(&witness.s, &gram, r, n, q, d);
        res.equals(&self.b)
    }

    /// The linear coefficient vectors.
    pub fn phi(&self) -> (r: &Vec<Vec<RingElement>>)
        ensures
            r@ == self.spec_phi(),
    {
        &self.phi
    }

    /// The quadratic coefficient matrix, if any.
    pub fn a(&self) -> (r: &Option<SymmetricMatrix<RingElement>>)
        ensures
            *r == self.spec_a(),
    {
        &self.a
    }

    /// The ring target.
    pub fn b(&self) -> (r: &RingElement)
        ensures
            *r == self.spec_b(),
    {
        &self.b
    }
}

impl ConstantQuadDotProdFunction {
    pub closed spec fn spec_a(self) -> Option<SymmetricMatrix<RingElement>> {
        self.a
    }

    pub closed spec fn spec_phi(self) -> Seq<Vec<RingElement>> {
        self.phi@
    }

    pub closed spec fn spec_b(self) -> Zq {
        self.b
    }

    /// Well-formed for relation shape `(r, n)` over ring `(q, d)`.
    pub open spec fn wf(self, r: int, n: int, q: int, d: int) -> bool {
        &&& parts_wf(self.spec_a(), self.spec_phi(), r, n, q, d)
        &&& self.spec_b().wf()
        &&& self.spec_b().modulus() == q
    }

    /// The canonical coefficients of the evaluation against witness
    /// vectors `s`.
    pub open spec fn spec_eval(self, s: Seq<Vec<RingElement>>, r: int, n: int, q: int, d: int) -> Seq<
        int,
    > {
        spec_eval_parts(self.spec_a(), self.spec_phi(), s, r, n, q, d)
    }

    /// A witness satisfies the constraint when the constant coefficient of
    /// the evaluation equals the base-ring target.
    pub open spec fn spec_satisfied(self, s: Seq<Vec<RingElement>>, r: int, n: int, q: int, d: int) -> bool {
        self.spec_eval(s, r, n, q, d)[0] == self.spec_b().val()
    }

    /// Build a constant constraint; the same shape rules as for the
    /// ring-valued kind.
    pub fn new(a_rows: Vec<Vec<RingElement>>, phi: Vec<Vec<RingElement>>, b: Zq, d: usize) -> (r:
        Result<ConstantQuadDotProdFunction, RelationError>)
        requires
            b.wf(),
            1 <= d <= D_MAX,
        ensures
            match r {
                Ok(c) => {
                    &&& c.wf(phi@.len() as int, (if phi@.len() > 0 {
                        phi@[0]@.len() as int
                    } else {
                        0
                    }), b.modulus(), d as int)
                    &&& c.spec_phi() == phi@
                    &&& c.spec_b() == b
                    &&& c.spec_a() is Some
                },
                Err(RelationError::BadCoefficientMatrix) => !coeff_matrix_shape_ok(
                    a_rows@,
                    phi@,
                    b.modulus(),
                    d as int,
                ),
                Err(RelationError::BadLinearPart) => coeff_matrix_shape_ok(
                    a_rows@,
                    phi@,
                    b.modulus(),
                    d as int,
                ) && !linear_part_shape_ok(phi@, (if phi@.len() > 0 {
                    phi@[0]@.len() as int
                } else {
                    0
                }), b.modulus(), d as int),
            },
    {
        let q = b.modulus_u64();
        let n: usize = if phi.len() > 0 {
            phi[0].len()
        } else {
            0
        };
        let m = match validate_parts(&a_rows, &phi, q, d) {
            Ok(m) => m,
            Err(e) => {
                return Err(e);
            },
        };
        if !validate_phi(&phi, n, q, d) {
            return Err(RelationError::BadLinearPart);
        }
        Ok(ConstantQuadDotProdFunction { a: Some(m), phi, b })
    }

    /// Build a linear constant constraint (no quadratic part).
    pub fn new_linear(phi: Vec<Vec<RingElement>>, b: Zq, d: usize) -> (r: Result<
        ConstantQuadDotProdFunction,
        RelationError,
    >)
        requires
            b.wf(),
            1 <= d <= D_MAX,
        ensures
            match r {
                Ok(c) => {
                    &&& c.wf(phi@.len() as int, (if phi@.len() > 0 {
                        phi@[0]@.len() as int
                    } else {
                        0
                    }), b.modulus(), d as int)
                    &&& c.spec_phi() == phi@
                    &&& c.spec_b() == b
                    &&& c.spec_a() is None
                },
                Err(RelationError::BadCoefficientMatrix) => false,
                Err(RelationError::BadLinearPart) => !linear_part_shape_ok(phi@, (if phi@.len()
                    > 0 {
                    phi@[0]@.len() as int
                } else {
                    0
                }), b.modulus(), d as int),
            },
    {
        let q = b.modulus_u64();
        let n: usize = if phi.len() > 0 {
            phi[0].len()
        } else {
            0
        };
        if !validate_phi(&phi, n, q, d) {
            return Err(RelationError::BadLinearPart);
        }
        Ok(ConstantQuadDotProdFunction { a: None, phi, b })
    }

    /// A linear constant constraint sampled from the sponge whose target is
    /// the constant coefficient of its own evaluation against the given
    /// witness vectors: satisfied by construction.
    pub fn new_satisfied(
        s: &Vec<Vec<RingElement>>,
        r: usize,
        n: usize,
        q: u64,
        d: usize,
        g: &mut Sponge,
    ) -> (c: ConstantQuadDotProdFunction)
        requires
            2 <= q <= Q_MAX,
            1 <= d <= D_MAX,
            r < 0x8000,
            crate::linalg::mat_wf(s@, r as int, n as int, q as int, d as int),
        ensures
            c.wf(r as int, n as int, q as int, d as int),
            c.spec_satisfied(s@, r as int, n as int, q as int, d as int),
    {
        let phi = sample_uniform_mat(q, d, r, n, g);
        let a: Option<SymmetricMatrix<RingElement>> = None;
        let gram = crate::linalg::inner_products(q, d, s, n);
        let v = eval_parts(&a, &phi, s, &gram, r, n, q, d);
        let b = v.constant_coeff();
        ConstantQuadDotProdFunction { a, phi, b }
    }

    /// A linear constant constraint sampled from the sponge whose target
    /// misses the constant coefficient of its own evaluation against the
    /// given witness vectors by one: violated by construction.
    pub fn new_unsatisfied(
        s: &Vec<Vec<RingElement>>,
        r: usize,
        n: usize,
        q: u64,
        d: usize,
        g: &mut Sponge,
    ) -> (c: ConstantQuadDotProdFunction)
        requires
            2 <= q <= Q_MAX,
            1 <= d <= D_MAX,
            r < 0x8000,
            crate::linalg::mat_wf(s@, r as int, n as int, q as int, d as int),
        ensures
            c.wf(r as int, n as int, q as int, d as int),
            !c.spec_satisfied(s@, r as int, n as int, q as int, d as int),
    {
        let phi = sample_uniform_mat(q, d, r, n, g);
        let a: Option<SymmetricMatrix<RingElement>> = None;
        let gram = crate::linalg::inner_products(q, d, s, n);
        let v = eval_parts(&a, &phi, s, &gram, r, n, q, d);
        let b = v.constant_coeff().add(&Zq::one(q));
        proof {
            let v0 = v.coeffs()[0];
            assert(b.val() == (v0 + 1) % (q as int));
            if v0 + 1 < q {
                vstd::arithmetic::div_mod::lemma_small_mod((v0 + 1) as nat, q as nat);
            } else {
                assert(v0 == q - 1);
                vstd::arithmetic::div_mod::lemma_mod_self_0(q as int);
            }
            assert(b.val() != v0);
        }
        ConstantQuadDotProdFunction { a, phi, b }
    }

    /// A uniformly random constant constraint of shape `(r, n)`.
    pub fn new_dummy(r: usize, n: usize, q: u64, d: usize, g: &mut Sponge) -> (c:
        ConstantQuadDotProdFunction)
        requires
            2 <= q <= Q_MAX,
            1 <= d <= D_MAX,
        ensures
            c.wf(r as int, n as int, q as int, d as int),
    {
        let quad = QuadDotProdFunction::new_dummy(r, n, q, d, g);
        let b = quad.b.constant_coeff();
        ConstantQuadDotProdFunction { a: quad.a, phi: quad.phi, b }
    }

    /// Decide well-formedness for shape `(r, n)` over the ring `(q, d)`:
    /// the certified validation a caller runs before prove or verify.
    pub fn wf_check(&self, r: usize, n: usize, q: u64, d: usize) -> (ok: bool)
        requires
            2 <= q <= Q_MAX,
            1 <= d <= D_MAX,
        ensures
            ok <==> self.wf(r as int, n as int, q as int, d as int),
    {
        if !parts_check(&self.a, &self.phi, r, n, q, d) {
            return false;
        }
        self.b.modulus_u64() == q && self.b.val_u64() < q
    }

    /// Evaluate against a witness, using a precomputed inner-product
    /// matrix of its vectors.
    pub fn eval_with_gram(
        &self,
        s: &Vec<Vec<RingElement>>,
        gram: &SymmetricMatrix<RingElement>,
        r: usize,
        n: usize,
        q: u64,
        d: usize,
    ) -> (res: RingElement)
        requires
            2 <= q <= Q_MAX,
            1 <= d <= D_MAX,
            r < 0x8000,
            self.wf(r as int, n as int, q as int, d as int),
            crate::linalg::mat_wf(s@, r as int, n as int, q as int, d as int),
            gram.wf(),
            gram.spec_size() == r,
            forall|i: int, j: int|
                0 <= j <= i < r ==> (#[trigger] gram.entry(i, j)).coeffs()
                    == crate::linalg::spec_inner_products(
                    s@,
                    s@,
                    q as int,
                    d as int,
                    n as nat,
                    i,
                    j,
                ) && gram.entry(i, j).wf() && gram.entry(i, j).modulus() == q && gram.entry(
                    i,
                    j,
                ).dim() == d,
        ensures
            res.wf(),
            res.modulus() == q,
            res.dim() == d,
            res.coeffs() == self.spec_eval(s@, r as int, n as int, q as int, d as int),
    {
        eval_parts(&self.a, &self.phi, s, gram, r, n, q, d)
    }

    /// Does the witness satisfy the constraint (on the constant
    /// coefficient)?
    pub fn is_valid_witness(&self, witness: &Witness, r: usize, n: usize, q: u64, d: usize) -> (ok:
        bool)
        requires
            2 <= q <= Q_MAX,
            1 <= d <= D_MAX,
            r < 0x8000,
            self.wf(r as int, n as int, q as int, d as int),
            witness_wf(*witness, r as int, n as int, q as int, d as int),
        ensures
            ok <==> self.spec_satisfied(witness.s@, r as int, n as int, q as int, d as int),
    {
        let gram = crate::linalg::inner_products(q, d, &witness.s, n);
        let res = self.eval_with_gram(&witness.s, &gram, r, n, q, d);
        let ct = res.constant_coeff();
        ct.val_u64() == self.b.val_u64()
    }

    /// The linear coefficient vectors.
    pub fn phi(&self) -> (r: &Vec<Vec<RingElement>>)
        ensures
            r@ == self.spec_phi(),
    {
        &self.phi
    }

    /// The quadratic coefficient matrix, if any.
    pub fn a(&self) -> (r: &Option<SymmetricMatrix<RingElement>>)
        ensures
            *r == self.spec_a(),
    {
        &self.a
    }

    /// The base-ring target.
    pub fn b(&self) -> (r: Zq)
        ensures
            r == self.spec_b(),
    {
        self.b
    }
}

/// The principal relation's instance: the quadratic constraints, then the
/// constant quadratic constraints.
pub struct PrincipalRelation {
    pub quad_dot_prod_funcs: Vec<QuadDotProdFunction>,
    pub ct_quad_dot_prod_funcs: Vec<ConstantQuadDotProdFunction>,
}

impl PrincipalRelation {
    /// Every constraint well-formed for shape `(r, n)` over `(q, d)`.
    pub open spec fn wf(self, r: int, n: int, q: int, d: int) -> bool {
        &&& forall|i: int|
            0 <= i < self.quad_dot_prod_funcs@.len()
                ==> (#[trigger] self.quad_dot_prod_funcs@[i]).wf(r, n, q, d)
        &&& forall|i: int|
            0 <= i < self.ct_quad_dot_prod_funcs@.len()
                ==> (#[trigger] self.ct_quad_dot_prod_funcs@[i]).wf(r, n, q, d)
    }

    /// The witness satisfies every constraint of the instance.
    pub open spec fn spec_satisfied(self, s: Seq<Vec<RingElement>>, r: int, n: int, q: int, d: int) -> bool {
        &&& forall|i: int|
            0 <= i < self.quad_dot_prod_funcs@.len()
                ==> (#[trigger] self.quad_dot_prod_funcs@[i]).spec_satisfied(s, r, n, q, d)
        &&& forall|i: int|
            0 <= i < self.ct_quad_dot_prod_funcs@.len()
                ==> (#[trigger] self.ct_quad_dot_prod_funcs@[i]).spec_satisfied(s, r, n, q, d)
    }

    pub fn new(
        quad_dot_prod_funcs: Vec<QuadDotProdFunction>,
        ct_quad_dot_prod_funcs: Vec<ConstantQuadDotProdFunction>,
    ) -> (inst: PrincipalRelation)
        ensures
            inst.quad_dot_prod_funcs == quad_dot_prod_funcs,
            inst.ct_quad_dot_prod_funcs == ct_quad_dot_prod_funcs,
    {
        PrincipalRelation { quad_dot_prod_funcs, ct_quad_dot_prod_funcs }
    }

    /// A random instance of `num_constraints` quadratic and
    /// `num_ct_constraints` constant constraints of shape `(r, n)`.
    pub fn new_dummy(
        r: usize,
        n: usize,
        q: u64,
        d: usize,
        num_constraints: usize,
        num_ct_constraints: usize,
        g: &mut Sponge,
    ) -> (inst: PrincipalRelation)
        requires
            2 <= q <= Q_MAX,
            1 <= d <= D_MAX,
        ensures
            inst.wf(r as int, n as int, q as int, d as int),
            inst.quad_dot_prod_funcs@.len() == num_constraints,
            inst.ct_quad_dot_prod_funcs@.len() == num_ct_constraints,
    {
        let mut quads: Vec<QuadDotProdFunction> = Vec::new();
        for i in 0..num_constraints
            invariant
                2 <= q <= Q_MAX,
                1 <= d <= D_MAX,
                quads@.len() == i,
                forall|k: int|
                    0 <= k < i ==> (#[trigger] quads@[k]).wf(
                        r as int,
                        n as int,
                        q as int,
                        d as int,
                    ),
        {
            quads.push(QuadDotProdFunction::new_dummy(r, n, q, d, g));
        }
        let mut cts: Vec<ConstantQuadDotProdFunction> = Vec::new();
        for i in 0..num_ct_constraints
            invariant
                2 <= q <= Q_MAX,
                1 <= d <= D_MAX,
                cts@.len() == i,
                forall|k: int|
                    0 <= k < i ==> (#[trigger] cts@[k]).wf(r as int, n as int, q as int, d as int),
        {
            cts.push(ConstantQuadDotProdFunction::new_dummy(r, n, q, d, g));
        }
        PrincipalRelation { quad_dot_prod_funcs: quads, ct_quad_dot_prod_funcs: cts }
    }

    /// A random instance sized by a fresh randomness source.
    pub fn new_empty(
        r: usize,
        n: usize,
        q: u64,
        d: usize,
        num_constraints: usize,
        num_ct_constraints: usize,
    ) -> (inst: PrincipalRelation)
        requires
            2 <= q <= Q_MAX,
            1 <= d <= D_MAX,
        ensures
            inst.wf(r as int, n as int, q as int, d as int),
            inst.quad_dot_prod_funcs@.len() == num_constraints,
            inst.ct_quad_dot_prod_funcs@.len() == num_ct_constraints,
    {
        let mut g = fresh_sponge();
        PrincipalRelation::new_dummy(r, n, q, d, num_constraints, num_ct_constraints, &mut g)
    }

    /// An instance of sampled constraints whose targets are their own
    /// evaluations against the given witness vectors: satisfied by
    /// construction.
    pub fn generate_satisfied(
        s: &Vec<Vec<RingElement>>,
        r: usize,
        n: usize,
        q: u64,
        d: usize,
        num_constraints: usize,
        num_ct_constraints: usize,
        g: &mut Sponge,
    ) -> (inst: PrincipalRelation)
        requires
            2 <= q <= Q_MAX,
            1 <= d <= D_MAX,
            r < 0x8000,
            crate::linalg::mat_wf(s@, r as int, n as int, q as int, d as int),
        ensures
            inst.wf(r as int, n as int, q as int, d as int),
            inst.quad_dot_prod_funcs@.len() == num_constraints,
            inst.ct_quad_dot_prod_funcs@.len() == num_ct_constraints,
            inst.spec_satisfied(s@, r as int, n as int, q as int, d as int),
    {
        let mut quads: Vec<QuadDotProdFunction> = Vec::new();
        for i in 0..num_constraints
            invariant
                2 <= q <= Q_MAX,
                1 <= d <= D_MAX,
                r < 0x8000,
                crate::linalg::mat_wf(s@, r as int, n as int, q as int, d as int),
                quads@.len() == i,
                forall|k: int|
                    0 <= k < i ==> (#[trigger] quads@[k]).wf(r as int, n as int, q as int, d as int)
                        && quads@[k].spec_satisfied(s@, r as int, n as int, q as int, d as int),
        {
            quads.push(QuadDotProdFunction::new_satisfied(s, r, n, q, d, g));
        }
        let mut cts: Vec<ConstantQuadDotProdFunction> = Vec::new();
        for i in 0..num_ct_constraints
            invariant
                2 <= q <= Q_MAX,
                1 <= d <= D_MAX,
                r < 0x8000,
                crate::linalg::mat_wf(s@, r as int, n as int, q as int, d as int),
                cts@.len() == i,
                forall|k: int|
                    0 <= k < i ==> (#[trigger] cts@[k]).wf(r as int, n as int, q as int, d as int)
                        && cts@[k].spec_satisfied(s@, r as int, n as int, q as int, d as int),
        {
            cts.push(ConstantQuadDotProdFunction::new_satisfied(s, r, n, q, d, g));
        }
        PrincipalRelation { quad_dot_prod_funcs: quads, ct_quad_dot_prod_funcs: cts }
    }

    /// An instance whose first sampled constraint is violated by the given
    /// witness vectors and whose remaining constraints are satisfied.
    pub fn generate_unsatisfied(
        s: &Vec<Vec<RingElement>>,
        r: usize,
        n: usize,
        q: u64,
        d: usize,
        num_constraints: usize,
        num_ct_constraints: usize,
        g: &mut Sponge,
    ) -> (inst: PrincipalRelation)
        requires
            2 <= q <= Q_MAX,
            1 <= d <= D_MAX,
            r < 0x8000,
            crate::linalg::mat_wf(s@, r as int, n as int, q as int, d as int),
            1 <= num_constraints + num_ct_constraints,
        ensures
            inst.wf(r as int, n as int, q as int, d as int),
            inst.quad_dot_prod_funcs@.len() == num_constraints,
            inst.ct_quad_dot_prod_funcs@.len() == num_ct_constraints,
            !inst.spec_satisfied(s@, r as int, n as int, q as int, d as int),
    {
        let mut inst = PrincipalRelation::generate_satisfied(
            s,
            r,
            n,
            q,
            d,
            num_constraints,
            num_ct_constraints,
            g,
        );
        if num_constraints > 0 {
            let bad = QuadDotProdFunction::new_unsatisfied(s, r, n, q, d, g);
            inst.quad_dot_prod_funcs[0] = bad;
            proof {
                assert(inst.quad_dot_prod_funcs@[0].wf(r as int, n as int, q as int, d as int));
                assert(!inst.quad_dot_prod_funcs@[0].spec_satisfied(
                    s@,
                    r as int,
                    n as int,
                    q as int,
                    d as int,
                ));
            }
        } else {
            let bad = ConstantQuadDotProdFunction::new_unsatisfied(s, r, n, q, d, g);
            inst.ct_quad_dot_prod_funcs[0] = bad;
            proof {
                assert(inst.ct_quad_dot_prod_funcs@[0].wf(r as int, n as int, q as int, d as int));
                assert(!inst.ct_quad_dot_prod_funcs@[0].spec_satisfied(
                    s@,
                    r as int,
                    n as int,
                    q as int,
                    d as int,
                ));
            }
        }
        inst
    }

    /// Decide well-formedness of every constraint for shape `(r, n)` over
    /// the ring `(q, d)`: the certified validation a caller runs before
    /// prove or verify.
    pub fn wf_check(&self, r: usize, n: usize, q: u64, d: usize) -> (ok: bool)
        requires
            2 <= q <= Q_MAX,
            1 <= d <= D_MAX,
        ensures
            ok <==> self.wf(r as int, n as int, q as int, d as int),
    {
        let nq = self.quad_dot_prod_funcs.len();
        for i in 0..nq
            invariant
                2 <= q <= Q_MAX,
                1 <= d <= D_MAX,
                nq == self.quad_dot_prod_funcs@.len(),
                forall|k: int|
                    0 <= k < i ==> (#[trigger] self.quad_dot_prod_funcs@[k]).wf(
                        r as int,
                        n as int,
                        q as int,
                        d as int,
                    ),
        {
            if !self.quad_dot_prod_funcs[i].wf_check(r, n, q, d) {
                return false;
            }
        }
        let nc = self.ct_quad_dot_prod_funcs.len();
        for i in 0..nc
            invariant
                2 <= q <= Q_MAX,
                1 <= d <= D_MAX,
                nc == self.ct_quad_dot_prod_funcs@.len(),
                forall|k: int|
                    0 <= k < self.quad_dot_prod_funcs@.len()
                        ==> (#[trigger] self.quad_dot_prod_funcs@[k]).wf(
                        r as int,
                        n as int,
                        q as int,
                        d as int,
                    ),
                forall|k: int|
                    0 <= k < i ==> (#[trigger] self.ct_quad_dot_prod_funcs@[k]).wf(
                        r as int,
                        n as int,
                        q as int,
                        d as int,
                    ),
        {
            if !self.ct_quad_dot_prod_funcs[i].wf_check(r, n, q, d) {
                return false;
            }
        }
        true
    }

    /// Does the witness satisfy every constraint? The inner-product matrix
    /// of the witness vectors is computed once and shared.
    pub fn is_valid_witness(&self, witness: &Witness, r: usize, n: usize, q: u64, d: usize) -> (ok:
        bool)
        requires
            2 <= q <= Q_MAX,
            1 <= d <= D_MAX,
            r < 0x8000,
            self.wf(r as int, n as int, q as int, d as int),
            witness_wf(*witness, r as int, n as int, q as int, d as int),
        ensures
            ok <==> self.spec_satisfied(witness.s@, r as int, n as int, q as int, d as int),
    {
        let gram = crate::linalg::inner_products(q, d, &witness.s, n);
        let nq = self.quad_dot_prod_funcs.len();
        for i in 0..nq
            invariant
                2 <= q <= Q_MAX,
                1 <= d <= D_MAX,
                r < 0x8000,
                nq == self.quad_dot_prod_funcs@.len(),
                self.wf(r as int, n as int, q as int, d as int),
                witness_wf(*witness, r as int, n as int, q as int, d as int),
                gram.wf(),
                gram.spec_size() == r,
                forall|a: int, b: int|
                    0 <= b <= a < r ==> (#[trigger] gram.entry(a, b)).coeffs()
                        == crate::linalg::spec_inner_products(
                        witness.s@,
                        witness.s@,
                        q as int,
                        d as int,
                        n as nat,
                        a,
                        b,
                    ) && gram.entry(a, b).wf() && gram.entry(a, b).modulus() == q && gram.entry(
                        a,
                        b,
                    ).dim() == d,
                forall|k: int|
                    0 <= k < i ==> (#[trigger] self.quad_dot_prod_funcs@[k]).spec_satisfied(
                        witness.s@,
                        r as int,
                        n as int,
                        q as int,
                        d as int,
                    ),
        {
            let c = &self.quad_dot_prod_funcs[i];
            let res = c.eval_with_gram(&witness.s, &gram, r, n, q, d);
            if !res.equals(c.b()) {
                return false;
            }
        }
        let nc = self.ct_quad_dot_prod_funcs.len();
        for i in 0..nc
            invariant
                2 <= q <= Q_MAX,
                1 <= d <= D_MAX,
                r < 0x8000,
                nc == self.ct_quad_dot_prod_funcs@.len(),
                self.wf(r as int, n as int, q as int, d as int),
                witness_wf(*witness, r as int, n as int, q as int, d as int),
                gram.wf(),
                gram.spec_size() == r,
                forall|a: int, b: int|
                    0 <= b <= a < r ==> (#[trigger] gram.entry(a, b)).coeffs()
                        == crate::linalg::spec_inner_products(
                        witness.s@,
                        witness.s@,
                        q as int,
                        d as int,
                        n as nat,
                        a,
                        b,
                    ) && gram.entry(a, b).wf() && gram.entry(a, b).modulus() == q && gram.entry(
                        a,
                        b,
                    ).dim() == d,
                forall|k: int|
                    0 <= k < self.quad_dot_prod_funcs@.len()
                        ==> (#[trigger] self.quad_dot_prod_funcs@[k]).spec_satisfied(
                        witness.s@,
                        r as int,
                        n as int,
                        q as int,
                        d as int,
                    ),
                forall|k: int|
                    0 <= k < i ==> (#[trigger] self.ct_quad_dot_prod_funcs@[k]).spec_satisfied(
                        witness.s@,
                        r as int,
                        n as int,
                        q as int,
                        d as int,
                    ),
        {
            let c = &self.ct_quad_dot_prod_funcs[i];
            let res = c.eval_with_gram(&witness.s, &gram, r, n, q, d);
            let ct = res.constant_coeff();
            if ct.val_u64() != c.b().val_u64() {
                return false;
            }
        }
        true
    }
}

} // verus!
