//! The principal-relation argument packaged as a reduction: validated
//! protocol parameters, the relation interface of the principal relation,
//! and the reduction whose generic self-tests drive the protocol end to
//! end.

use vstd::prelude::*;

use crate::crs::CommonReferenceString;
use crate::protocol::{self, ProtocolError, crs_usable, squeeze_budget_ok};
use crate::reduction::{Reduction, Relation};
use crate::relation::{ConstantQuadDotProdFunction, PrincipalRelation, QuadDotProdFunction, Witness};
use crate::ring::{COEFF_SAMPLE_BYTES, D_MAX, RingElement};
use crate::symmetric::SymmetricMatrix;
use crate::sponge::Sponge;
use crate::transcript::{ProverTranscript, VerifierTranscript};
use crate::zq::Q_MAX;

verus! {

/// A reference string the protocol can drive: the type invariant carries
/// usability and the squeeze byte budgets, so no caller has to restate
/// them.
pub struct ProtocolParameters {
    crs: CommonReferenceString,
}

impl ProtocolParameters {
    #[verifier::type_invariant]
    pub closed spec fn inv(self) -> bool {
        crs_usable(self.crs) && squeeze_budget_ok(self.crs)
    }

    /// The wrapped reference string, as a spec value.
    pub closed spec fn spec_crs(self) -> CommonReferenceString {
        self.crs
    }

    /// Wrap a well-formed reference string after checking the protocol's
    /// usability conditions and squeeze byte budgets.
    pub fn new(crs: CommonReferenceString) -> (res: Result<ProtocolParameters, ProtocolError>)
        requires
            crs.wf(),
        ensures
            match res {
                Ok(pp) => pp.spec_crs() == crs && crs_usable(crs) && squeeze_budget_ok(crs),
                Err(e) => e == ProtocolError::Malformed && !(crs_usable(crs) && squeeze_budget_ok(
                    crs,
                )),
            },
    {
        if crs.k1 != crs.k2 || crs.num_constraints >= 0x1000 || crs.num_constant_constraints
            >= 0x1000 {
            return Err(ProtocolError::Malformed);
        }
        proof {
            assert((crs.r as int) * (crs.n as int) < 0x100_0000) by (nonlinear_arith)
                requires
                    1 <= (crs.r as int) < 0x1000,
                    1 <= (crs.n as int) < 0x1000,
            ;
            assert(((crs.r as int) * (crs.n as int)) * (crs.d as int) < 0x100_0000 * 0x80_0000)
                by (nonlinear_arith)
                requires
                    0 <= (crs.r as int) * (crs.n as int) < 0x100_0000,
                    1 <= (crs.d as int) <= 0x80_0000,
            ;
            assert((crs.num_constraints as int) * (crs.d as int) < 0x1000 * 0x80_0001)
                by (nonlinear_arith)
                requires
                    0 <= (crs.num_constraints as int) < 0x1000,
                    1 <= (crs.d as int) <= 0x80_0000,
            ;
        }
        let rnd: u64 = (crs.r as u64) * (crs.n as u64) * (crs.d as u64);
        if rnd >= 0x10_0000 {
            return Err(ProtocolError::Malformed);
        }
        proof {
            assert((crs.d as int) * (COEFF_SAMPLE_BYTES as int) <= 0x80_0000 * 16)
                by (nonlinear_arith)
                requires
                    1 <= (crs.d as int) <= 0x80_0000,
                    (COEFF_SAMPLE_BYTES as int) == 16,
            ;
        }
        if (crs.d as u64) * (COEFF_SAMPLE_BYTES as u64) >= 0x10_0000 {
            return Err(ProtocolError::Malformed);
        }
        if (crs.num_constraints as u64) * (crs.d as u64) >= 0x100_0000 {
            return Err(ProtocolError::Malformed);
        }
        Ok(ProtocolParameters { crs })
    }

    /// The wrapped reference string.
    pub fn crs(&self) -> (r: &CommonReferenceString)
        ensures
            *r == self.spec_crs(),
            crs_usable(self.spec_crs()),
            squeeze_budget_ok(self.spec_crs()),
    {
        proof {
            use_type_invariant(&*self);
        }
        &self.crs
    }
}

/// `r` vectors of `n` zero ring elements: the all-zero witness, whose
/// total squared norm is zero.
fn zero_witness_vectors(q: u64, d: usize, r: usize, n: usize) -> (s: Vec<Vec<RingElement>>)
    requires
        2 <= q <= Q_MAX,
        1 <= d <= D_MAX,
    ensures
        crate::linalg::mat_wf(s@, r as int, n as int, q as int, d as int),
        crate::crs::spec_mat_norm_sq(s@, s@.len() as nat) == 0,
{
    let mut s: Vec<Vec<RingElement>> = Vec::new();
    for i in 0..r
        invariant
            2 <= q <= Q_MAX,
            1 <= d <= D_MAX,
            s@.len() == i,
            crate::linalg::mat_wf(s@, i as int, n as int, q as int, d as int),
            forall|a: int|
                0 <= a < i ==> crate::linalg::spec_norm_sq_vec((#[trigger] s@[a])@, s@[a]@.len())
                    == 0,
    {
        let mut row: Vec<RingElement> = Vec::new();
        for j in 0..n
            invariant
                2 <= q <= Q_MAX,
                1 <= d <= D_MAX,
                row@.len() == j,
                crate::linalg::vec_wf(row@, q as int, d as int),
                forall|b: int| 0 <= b < j ==> (#[trigger] row@[b]).l2_norm_sq() == 0,
        {
            let e = RingElement::zero(q, d);
            proof {
                lemma_norm_sq_sum_zero(e.coeffs(), e.modulus(), e.coeffs().len());
            }
            row.push(e);
        }
        proof {
            lemma_norm_sq_vec_zero(row@, row@.len());
        }
        s.push(row);
    }
    proof {
        lemma_mat_norm_sq_zero(s@, s@.len());
    }
    s
}

/// `r` vectors of `n` ternary ring elements sampled from the sponge: a
/// witness candidate of small norm, which the caller checks against the
/// bound.
fn sampled_ternary_witness_vectors(
    q: u64,
    d: usize,
    r: usize,
    n: usize,
    g: &mut Sponge,
) -> (s: Vec<Vec<RingElement>>)
    requires
        2 <= q <= Q_MAX,
        1 <= d <= D_MAX,
    ensures
        crate::linalg::mat_wf(s@, r as int, n as int, q as int, d as int),
{
    let mut s: Vec<Vec<RingElement>> = Vec::new();
    for i in 0..r
        invariant
            2 <= q <= Q_MAX,
            1 <= d <= D_MAX,
            s@.len() == i,
            crate::linalg::mat_wf(s@, i as int, n as int, q as int, d as int),
    {
        let mut row: Vec<RingElement> = Vec::new();
        for j in 0..n
            invariant
                2 <= q <= Q_MAX,
                1 <= d <= D_MAX,
                row@.len() == j,
                crate::linalg::vec_wf(row@, q as int, d as int),
        {
            let bytes = g.squeeze_bytes(d);
            let e = crate::challenge::WeightedTernaryChallengeSet::try_from_random_bytes(
                q,
                d,
                &bytes,
            );
            row.push(e.unwrap());
        }
        s.push(row);
    }
    s
}

/// A sum of squares over all-zero coefficients is zero.
proof fn lemma_norm_sq_sum_zero(a: Seq<int>, q: int, n: nat)
    requires
        q >= 2,
        forall|i: int| 0 <= i < n ==> a[i] == 0,
    ensures
        crate::ring::norm_sq_sum(a, q, n) == 0,
    decreases n,
{
    if n > 0 {
        lemma_norm_sq_sum_zero(a, q, (n - 1) as nat);
        assert(crate::ring::centered_rep(a[n - 1], q) == 0);
    }
}

/// A vector of elements of zero norm has zero norm.
proof fn lemma_norm_sq_vec_zero(v: Seq<RingElement>, n: nat)
    requires
        forall|i: int| 0 <= i < n ==> (#[trigger] v[i]).l2_norm_sq() == 0,
    ensures
        crate::linalg::spec_norm_sq_vec(v, n) == 0,
    decreases n,
{
    if n > 0 {
        lemma_norm_sq_vec_zero(v, (n - 1) as nat);
    }
}

/// A family of vectors of zero norm has zero total norm.
proof fn lemma_mat_norm_sq_zero(s: Seq<Vec<RingElement>>, m: nat)
    requires
        forall|i: int|
            0 <= i < m ==> crate::linalg::spec_norm_sq_vec((#[trigger] s[i])@, s[i]@.len()) == 0,
    ensures
        crate::crs::spec_mat_norm_sq(s, m) == 0,
    decreases m,
{
    if m > 0 {
        lemma_mat_norm_sq_zero(s, (m - 1) as nat);
    }
}

/// The satisfaction predicate the trait interface decides for the
/// principal relation over a reference string: the instance has the
/// declared shape, the witness has the declared shape and a norm within
/// the bound, and every constraint holds.
pub open spec fn principal_pair_satisfied(
    crs: CommonReferenceString,
    x: PrincipalRelation,
    w: Witness,
) -> bool {
    &&& x.wf(crs.r as int, crs.n as int, crs.q as int, crs.d as int)
    &&& crate::relation::witness_wf(w, crs.r as int, crs.n as int, crs.q as int, crs.d as int)
    &&& crate::crs::spec_mat_norm_sq(w.s@, w.s@.len()) <= crs.norm_bound_squared
    &&& x.spec_satisfied(w.s@, crs.r as int, crs.n as int, crs.q as int, crs.d as int)
}

/// View equality of two optional coefficient matrices of size `r`.
pub open spec fn coeff_matrix_view_eq(
    a1: Option<SymmetricMatrix<RingElement>>,
    a2: Option<SymmetricMatrix<RingElement>>,
    r: int,
) -> bool {
    match (a1, a2) {
        (Option::None, Option::None) => true,
        (Option::Some(m1), Option::Some(m2)) => forall|i: int, j: int|
            0 <= i < r && 0 <= j < r ==> (#[trigger] m1.entry(i, j)).coeffs() == m2.entry(
                i,
                j,
            ).coeffs(),
        _ => false,
    }
}

/// View equality of two linear coefficient families.
pub open spec fn phi_view_eq(p1: Seq<Vec<RingElement>>, p2: Seq<Vec<RingElement>>) -> bool {
    &&& p1.len() == p2.len()
    &&& forall|k: int| 0 <= k < p1.len() ==> (#[trigger] p1[k])@.len() == p2[k]@.len()
    &&& forall|k: int, e: int|
        0 <= k < p1.len() && 0 <= e < p1[k]@.len() ==> (#[trigger] p1[k]@[e]).coeffs()
            == p2[k]@[e].coeffs()
}

/// View equality of two ring-target constraints of shape `r`.
pub open spec fn quad_view_eq(c1: QuadDotProdFunction, c2: QuadDotProdFunction, r: int) -> bool {
    &&& coeff_matrix_view_eq(c1.spec_a(), c2.spec_a(), r)
    &&& phi_view_eq(c1.spec_phi(), c2.spec_phi())
    &&& c1.spec_b().coeffs() == c2.spec_b().coeffs()
}

/// View equality of two constant-target constraints of shape `r`.
pub open spec fn ct_view_eq(
    c1: ConstantQuadDotProdFunction,
    c2: ConstantQuadDotProdFunction,
    r: int,
) -> bool {
    &&& coeff_matrix_view_eq(c1.spec_a(), c2.spec_a(), r)
    &&& phi_view_eq(c1.spec_phi(), c2.spec_phi())
    &&& c1.spec_b().val() == c2.spec_b().val()
}

/// View equality of two principal-relation instances of shape `r`:
/// constraint by constraint, coefficient by coefficient.
pub open spec fn principal_view_eq(x1: PrincipalRelation, x2: PrincipalRelation, r: int) -> bool {
    &&& x1.quad_dot_prod_funcs@.len() == x2.quad_dot_prod_funcs@.len()
    &&& x1.ct_quad_dot_prod_funcs@.len() == x2.ct_quad_dot_prod_funcs@.len()
    &&& forall|k: int|
        0 <= k < x1.quad_dot_prod_funcs@.len() ==> #[trigger] quad_view_eq(
            x1.quad_dot_prod_funcs@[k],
            x2.quad_dot_prod_funcs@[k],
            r,
        )
    &&& forall|k: int|
        0 <= k < x1.ct_quad_dot_prod_funcs@.len() ==> #[trigger] ct_view_eq(
            x1.ct_quad_dot_prod_funcs@[k],
            x2.ct_quad_dot_prod_funcs@[k],
            r,
        )
}

/// Every row of the family lies in the ring `(q, d)`.
pub open spec fn family_wf(p: Seq<Vec<RingElement>>, q: int, d: int) -> bool {
    forall|k: int| 0 <= k < p.len() ==> crate::linalg::vec_wf((#[trigger] p[k])@, q, d)
}

/// The two families have the same number of rows, row by row of the same
/// length.
pub open spec fn family_lens_eq(p1: Seq<Vec<RingElement>>, p2: Seq<Vec<RingElement>>) -> bool {
    &&& p1.len() == p2.len()
    &&& forall|k: int| 0 <= k < p1.len() ==> (#[trigger] p1[k])@.len() == p2[k]@.len()
}

/// Every entry of the size-`r` symmetric matrix has modulus `q`.
pub open spec fn entries_modulus(m: SymmetricMatrix<RingElement>, r: int, q: int) -> bool {
    forall|i: int, j: int| 0 <= i < r && 0 <= j < r ==> (#[trigger] m.entry(i, j)).modulus() == q
}

/// Entry-wise equality of two linear coefficient families of one shape.
fn phi_equal(p1: &Vec<Vec<RingElement>>, p2: &Vec<Vec<RingElement>>, q: u64, d: usize) -> (ok:
    bool)
    requires
        family_wf(p1@, q as int, d as int),
        family_wf(p2@, q as int, d as int),
        family_lens_eq(p1@, p2@),
    ensures
        ok <==> phi_view_eq(p1@, p2@),
{
    let rows = p1.len();
    for i in 0..rows
        invariant
            rows == p1@.len(),
            rows == p2@.len(),
            family_wf(p1@, q as int, d as int),
            family_wf(p2@, q as int, d as int),
            family_lens_eq(p1@, p2@),
            forall|k: int, e: int|
                0 <= k < i && 0 <= e < p1@[k]@.len() ==> (#[trigger] p1@[k]@[e]).coeffs()
                    == p2@[k]@[e].coeffs(),
    {
        let cols = p1[i].len();
        for j in 0..cols
            invariant
                rows == p1@.len(),
                rows == p2@.len(),
                i < rows,
                cols == p1@[i as int]@.len(),
                family_wf(p1@, q as int, d as int),
                family_wf(p2@, q as int, d as int),
                family_lens_eq(p1@, p2@),
                forall|k: int, e: int|
                    0 <= k < i && 0 <= e < p1@[k]@.len() ==> (#[trigger] p1@[k]@[e]).coeffs()
                        == p2@[k]@[e].coeffs(),
                forall|e: int|
                    0 <= e < j ==> (#[trigger] p1@[i as int]@[e]).coeffs()
                        == p2@[i as int]@[e].coeffs(),
        {
            proof {
                assert(crate::linalg::vec_wf((#[trigger] p1@[i as int])@, q as int, d as int));
                assert(crate::linalg::vec_wf((#[trigger] p2@[i as int])@, q as int, d as int));
            }
            if !p1[i][j].equals(&p2[i][j]) {
                proof {
                    assert((#[trigger] p1@[i as int]@[j as int]).modulus() == q);
                    assert((#[trigger] p2@[i as int]@[j as int]).modulus() == q);
                    assert(p1@[i as int]@[j as int].coeffs()
                        != p2@[i as int]@[j as int].coeffs());
                }
                return false;
            }
        }
    }
    true
}

/// Entry-wise equality of two symmetric coefficient matrices of size `r`
/// over one ring.
fn matrices_equal(
    m1: &SymmetricMatrix<RingElement>,
    m2: &SymmetricMatrix<RingElement>,
    r: usize,
    q: u64,
) -> (ok: bool)
    requires
        m1.wf(),
        m2.wf(),
        m1.spec_size() == r,
        m2.spec_size() == r,
        entries_modulus(*m1, r as int, q as int),
        entries_modulus(*m2, r as int, q as int),
    ensures
        ok <==> forall|i: int, j: int|
            0 <= i < r && 0 <= j < r ==> (#[trigger] m1.entry(i, j)).coeffs() == m2.entry(
                i,
                j,
            ).coeffs(),
{
    for i in 0..r
        invariant
            m1.wf(),
            m2.wf(),
            m1.spec_size() == r,
            m2.spec_size() == r,
            entries_modulus(*m1, r as int, q as int),
            entries_modulus(*m2, r as int, q as int),
            forall|a: int, b: int|
                0 <= a < i && 0 <= b < r ==> (#[trigger] m1.entry(a, b)).coeffs() == m2.entry(
                    a,
                    b,
                ).coeffs(),
    {
        for j in 0..r
            invariant
                i < r,
                m1.wf(),
                m2.wf(),
                m1.spec_size() == r,
                m2.spec_size() == r,
                entries_modulus(*m1, r as int, q as int),
                entries_modulus(*m2, r as int, q as int),
                forall|a: int, b: int|
                    0 <= a < i && 0 <= b < r ==> (#[trigger] m1.entry(a, b)).coeffs() == m2.entry(
                        a,
                        b,
                    ).coeffs(),
                forall|b: int|
                    0 <= b < j ==> (#[trigger] m1.entry(i as int, b)).coeffs() == m2.entry(
                        i as int,
                        b,
                    ).coeffs(),
        {
            if !m1.at(i, j).equals(m2.at(i, j)) {
                proof {
                    assert((#[trigger] m1.entry(i as int, j as int)).modulus() == q);
                    assert((#[trigger] m2.entry(i as int, j as int)).modulus() == q);
                    assert(m1.entry(i as int, j as int).coeffs() != m2.entry(
                        i as int,
                        j as int,
                    ).coeffs());
                }
                return false;
            }
        }
    }
    true
}

/// Exact equality of two ring-target constraints that are well-formed for
/// one shape.
fn quad_eq_exec(
    c1: &QuadDotProdFunction,
    c2: &QuadDotProdFunction,
    r: usize,
    n: usize,
    q: u64,
    d: usize,
) -> (ok: bool)
    requires
        2 <= q <= Q_MAX,
        1 <= d <= D_MAX,
        c1.wf(r as int, n as int, q as int, d as int),
        c2.wf(r as int, n as int, q as int, d as int),
    ensures
        ok <==> quad_view_eq(*c1, *c2, r as int),
{
    if !c1.b().equals(c2.b()) {
        return false;
    }
    if !phi_equal(c1.phi(), c2.phi(), q, d) {
        return false;
    }
    match (c1.a(), c2.a()) {
        (None, None) => true,
        (Some(m1), Some(m2)) => matrices_equal(m1, m2, r, q),
        _ => false,
    }
}

/// Exact equality of two constant-target constraints that are well-formed
/// for one shape.
fn ct_eq_exec(
    c1: &ConstantQuadDotProdFunction,
    c2: &ConstantQuadDotProdFunction,
    r: usize,
    n: usize,
    q: u64,
    d: usize,
) -> (ok: bool)
    requires
        2 <= q <= Q_MAX,
        1 <= d <= D_MAX,
        c1.wf(r as int, n as int, q as int, d as int),
        c2.wf(r as int, n as int, q as int, d as int),
    ensures
        ok <==> ct_view_eq(*c1, *c2, r as int),
{
    if c1.b().val_u64() != c2.b().val_u64() {
        return false;
    }
    if !phi_equal(c1.phi(), c2.phi(), q, d) {
        return false;
    }
    match (c1.a(), c2.a()) {
        (None, None) => true,
        (Some(m1), Some(m2)) => matrices_equal(m1, m2, r, q),
        _ => false,
    }
}

/// Deep equality of two instances that are well-formed for one shape:
/// constraint by constraint, coefficient by coefficient.
fn instances_equal(
    x1: &PrincipalRelation,
    x2: &PrincipalRelation,
    r: usize,
    n: usize,
    q: u64,
    d: usize,
) -> (ok: bool)
    requires
        2 <= q <= Q_MAX,
        1 <= d <= D_MAX,
        x1.wf(r as int, n as int, q as int, d as int),
        x2.wf(r as int, n as int, q as int, d as int),
    ensures
        ok <==> principal_view_eq(*x1, *x2, r as int),
{
    if x1.quad_dot_prod_funcs.len() != x2.quad_dot_prod_funcs.len() {
        return false;
    }
    if x1.ct_quad_dot_prod_funcs.len() != x2.ct_quad_dot_prod_funcs.len() {
        return false;
    }
    let nq = x1.quad_dot_prod_funcs.len();
    for k in 0..nq
        invariant
            2 <= q <= Q_MAX,
            1 <= d <= D_MAX,
            nq == x1.quad_dot_prod_funcs@.len(),
            nq == x2.quad_dot_prod_funcs@.len(),
            x1.wf(r as int, n as int, q as int, d as int),
            x2.wf(r as int, n as int, q as int, d as int),
            forall|u: int|
                0 <= u < k ==> #[trigger] quad_view_eq(
                    x1.quad_dot_prod_funcs@[u],
                    x2.quad_dot_prod_funcs@[u],
                    r as int,
                ),
    {
        if !quad_eq_exec(&x1.quad_dot_prod_funcs[k], &x2.quad_dot_prod_funcs[k], r, n, q, d) {
            proof {
                assert(!quad_view_eq(
                    x1.quad_dot_prod_funcs@[k as int],
                    x2.quad_dot_prod_funcs@[k as int],
                    r as int,
                ));
            }
            return false;
        }
    }
    let nc = x1.ct_quad_dot_prod_funcs.len();
    for k in 0..nc
        invariant
            2 <= q <= Q_MAX,
            1 <= d <= D_MAX,
            nc == x1.ct_quad_dot_prod_funcs@.len(),
            nc == x2.ct_quad_dot_prod_funcs@.len(),
            x1.wf(r as int, n as int, q as int, d as int),
            x2.wf(r as int, n as int, q as int, d as int),
            forall|u: int|
                0 <= u < x1.quad_dot_prod_funcs@.len() ==> #[trigger] quad_view_eq(
                    x1.quad_dot_prod_funcs@[u],
                    x2.quad_dot_prod_funcs@[u],
                    r as int,
                ),
            forall|u: int|
                0 <= u < k ==> #[trigger] ct_view_eq(
                    x1.ct_quad_dot_prod_funcs@[u],
                    x2.ct_quad_dot_prod_funcs@[u],
                    r as int,
                ),
    {
        if !ct_eq_exec(&x1.ct_quad_dot_prod_funcs[k], &x2.ct_quad_dot_prod_funcs[k], r, n, q, d) {
            proof {
                assert(!ct_view_eq(
                    x1.ct_quad_dot_prod_funcs@[k as int],
                    x2.ct_quad_dot_prod_funcs@[k as int],
                    r as int,
                ));
            }
            return false;
        }
    }
    true
}

impl Relation for ProtocolParameters {
    type Index = ();

    type Instance = PrincipalRelation;

    type Witness = Witness;

    type Size = ();

    open spec fn wf(&self) -> bool {
        &&& crs_usable(self.spec_crs())
        &&& squeeze_budget_ok(self.spec_crs())
        &&& 1 <= self.spec_crs().num_constraints + self.spec_crs().num_constant_constraints
    }

    open spec fn spec_satisfied(&self, i: (), x: PrincipalRelation, w: Witness) -> bool {
        principal_pair_satisfied(self.spec_crs(), x, w)
    }

    open spec fn spec_instance_eq(
        &self,
        i1: (),
        x1: PrincipalRelation,
        i2: (),
        x2: PrincipalRelation,
    ) -> bool {
        &&& x1.wf(
            self.spec_crs().r as int,
            self.spec_crs().n as int,
            self.spec_crs().q as int,
            self.spec_crs().d as int,
        )
        &&& x2.wf(
            self.spec_crs().r as int,
            self.spec_crs().n as int,
            self.spec_crs().q as int,
            self.spec_crs().d as int,
        )
        &&& principal_view_eq(x1, x2, self.spec_crs().r as int)
    }

    /// Satisfaction for the principal relation: the witness has the
    /// declared shape, its total squared norm is within the bound, and
    /// every constraint holds.
    fn is_satisfied(&self, _i: &(), x: &PrincipalRelation, w: &Witness) -> bool {
        proof {
            use_type_invariant(&*self);
        }
        if !x.wf_check(self.crs.r, self.crs.n, self.crs.q, self.crs.d) {
            return false;
        }
        if !self.crs.is_wellformed_witness(w) {
            return false;
        }
        x.is_valid_witness(w, self.crs.r, self.crs.n, self.crs.q, self.crs.d)
    }

    /// Deep structural equality of the two instances, both validated for
    /// the declared shape first.
    fn instance_eq(
        &self,
        _i1: &(),
        x1: &PrincipalRelation,
        _i2: &(),
        x2: &PrincipalRelation,
    ) -> bool {
        proof {
            use_type_invariant(&*self);
        }
        if !x1.wf_check(self.crs.r, self.crs.n, self.crs.q, self.crs.d) {
            return false;
        }
        if !x2.wf_check(self.crs.r, self.crs.n, self.crs.q, self.crs.d) {
            return false;
        }
        instances_equal(x1, x2, self.crs.r, self.crs.n, self.crs.q, self.crs.d)
    }

    /// A satisfied pair: a nonzero witness when the norm bound admits it
    /// (the all-zero witness otherwise) and an instance of sampled
    /// constraints whose targets are their own evaluations against it.
    fn generate_satisfied_instance(&self, _size: &(), g: &mut Sponge) -> ((), PrincipalRelation, Witness) {
        proof {
            use_type_invariant(&*self);
        }
        let s1 = sampled_ternary_witness_vectors(
            self.crs.q,
            self.crs.d,
            self.crs.r,
            self.crs.n,
            g,
        );
        let w1 = Witness::new(s1);
        if self.crs.is_wellformed_witness(&w1) {
            let inst = PrincipalRelation::generate_satisfied(
                &w1.s,
                self.crs.r,
                self.crs.n,
                self.crs.q,
                self.crs.d,
                self.crs.num_constraints,
                self.crs.num_constant_constraints,
                g,
            );
            ((), inst, w1)
        } else {
            let s0 = zero_witness_vectors(self.crs.q, self.crs.d, self.crs.r, self.crs.n);
            let w0 = Witness::new(s0);
            let inst = PrincipalRelation::generate_satisfied(
                &w0.s,
                self.crs.r,
                self.crs.n,
                self.crs.q,
                self.crs.d,
                self.crs.num_constraints,
                self.crs.num_constant_constraints,
                g,
            );
            ((), inst, w0)
        }
    }

    /// A violated pair: the same witness policy against an instance whose
    /// first constraint misses its evaluation by one.
    fn generate_unsatisfied_instance(&self, _size: &(), g: &mut Sponge) -> ((), PrincipalRelation, Witness) {
        proof {
            use_type_invariant(&*self);
        }
        if self.crs.num_constraints > 0 || self.crs.num_constant_constraints > 0 {
            let s1 = sampled_ternary_witness_vectors(
                self.crs.q,
                self.crs.d,
                self.crs.r,
                self.crs.n,
                g,
            );
            let w1 = Witness::new(s1);
            if self.crs.is_wellformed_witness(&w1) {
                let inst = PrincipalRelation::generate_unsatisfied(
                    &w1.s,
                    self.crs.r,
                    self.crs.n,
                    self.crs.q,
                    self.crs.d,
                    self.crs.num_constraints,
                    self.crs.num_constant_constraints,
                    g,
                );
                ((), inst, w1)
            } else {
                let s0 = zero_witness_vectors(self.crs.q, self.crs.d, self.crs.r, self.crs.n);
                let w0 = Witness::new(s0);
                let inst = PrincipalRelation::generate_unsatisfied(
                    &w0.s,
                    self.crs.r,
                    self.crs.n,
                    self.crs.q,
                    self.crs.d,
                    self.crs.num_constraints,
                    self.crs.num_constant_constraints,
                    g,
                );
                ((), inst, w0)
            }
        } else {
            let s0 = zero_witness_vectors(self.crs.q, self.crs.d, self.crs.r, self.crs.n);
            let w0 = Witness::new(s0);
            let inst = PrincipalRelation::generate_satisfied(
                &w0.s,
                self.crs.r,
                self.crs.n,
                self.crs.q,
                self.crs.d,
                self.crs.num_constraints,
                self.crs.num_constant_constraints,
                g,
            );
            ((), inst, w0)
        }
    }
}

/// The principal-relation argument: one run of the protocol reduces an
/// instance of the relation to a one-constraint instance of the same
/// relation over the same ring.
pub struct PrincipalArgument;

impl Reduction<ProtocolParameters, ProtocolParameters, ProtocolParameters> for PrincipalArgument {
    fn domain(_pp: &ProtocolParameters) -> u64 {
        protocol::PROTOCOL_DOMAIN
    }

    fn prove(
        pp: &ProtocolParameters,
        _index_in: &(),
        instance_in: &PrincipalRelation,
        witness_in: Witness,
        t: &mut ProverTranscript,
    ) -> Result<((), PrincipalRelation, Witness), ProtocolError> {
        proof {
            use_type_invariant(&*pp);
        }
        if !pp.crs.is_wellformed_instance(instance_in) {
            return Err(ProtocolError::Malformed);
        }
        match protocol::prove_principal_relation(&pp.crs, instance_in, witness_in, t) {
            Ok((inst, wit)) => Ok(((), inst, wit)),
            Err(e) => Err(e),
        }
    }

    fn verify(
        pp: &ProtocolParameters,
        _index_in: &(),
        instance_in: &PrincipalRelation,
        t: &mut VerifierTranscript,
    ) -> Result<((), PrincipalRelation), ProtocolError> {
        proof {
            use_type_invariant(&*pp);
        }
        if !pp.crs.is_wellformed_instance(instance_in) {
            return Err(ProtocolError::Malformed);
        }
        match protocol::verify_principal_relation(&pp.crs, instance_in, t) {
            Ok(inst) => Ok(((), inst)),
            Err(e) => Err(e),
        }
    }
}

} // verus!
