//! The common reference string: concrete protocol parameters for a fixed
//! relation shape, and the sampled public matrices.
//!
//! The derivation follows the protocol's real-valued parameter formulas,
//! but computes every rounding exactly over the integers: each rounded
//! quantity is characterized by a power bracket (for example
//! `t1 = round(log2(q) / log2(b))` exactly when
//! `b^(2 t1 - 1) <= q^2 < b^(2 t1 + 1)`), so the contracts pin every derived
//! parameter completely and no floating point is involved. The commitment
//! ranks follow the fixed policy `k = 1`, `k1 = k2 = 2`; a
//! production deriver should instead search ranks against a security
//! estimator until the target level is met.
//!
//! Public matrices are sampled from a duplex sponge seeded with the caller's
//! seed, so two derivations from one seed agree byte for byte.

use vstd::prelude::*;

use crate::derive::{
    min_exp_reaching_128_bits, pow_int, lemma_pow_int_exp_monotonic, scaled_max_pow_exp,
    scaled_pow_eq, scaled_root_floor,
};
use crate::linalg::{mat_wf, spec_norm_sq_vec, vec_wf};
use crate::relation::{
    ConstantQuadDotProdFunction, PrincipalRelation, QuadDotProdFunction, Witness,
};
use crate::ring::{D_MAX, RingElement};
use crate::sample::{
    mat_coeff_view, sample_uniform_mat, sampled_mat_coeffs, sponge_after_mat,
};
use crate::sponge::{Sponge, spec_absorb_seq, spec_absorb_u64};
use crate::zq::Q_MAX;

verus! {

/// Why a parameter derivation failed; all of these are fatal parameter
/// errors, reported before any protocol step runs.
#[derive(Clone, Copy, Debug, PartialEq, Eq, Structural)]
pub enum CrsError {
    /// The relation shape is out of the supported ranges.
    UnsupportedShape,
    /// The norm bound reaches the soundness ceiling
    /// `sqrt(30/128) * q / 125`.
    NormBoundTooLarge,
    /// The derived main decomposition base is below 2.
    DecompositionBaseTooSmall,
    /// The first-level decomposition is not derivable (`q^2 < b`).
    FirstLevelNotDerivable,
    /// The second-level decomposition is not derivable (the garbage-term
    /// standard deviation is too small against the base).
    SecondLevelNotDerivable,
}

/// `floor` is the integer part of the derived real value, characterized by
/// `lo(floor) <= hi < lo(floor + 1)` elsewhere; `round_to_odd` takes the
/// floor when odd, otherwise the ceiling (which is the floor itself when
/// the value is exactly integral).
pub open spec fn round_to_odd_of(b: int, floor: int, exact: bool) -> bool {
    if floor % 2 == 1 {
        b == floor
    } else if exact {
        b == floor
    } else {
        b == floor + 1
    }
}

/// The main base bracket: `floor` is the integer part of
/// `(213 * beta_sq / (16 n))^(1/4)`, i.e.
/// `16 n floor^4 <= 213 beta_sq < 16 n (floor+1)^4`.
pub open spec fn main_base_floor(floor: int, n: int, beta_sq: int) -> bool {
    &&& floor >= 0
    &&& 16 * n * pow_int(floor, 4) <= 213 * beta_sq
    &&& 16 * n * pow_int(floor + 1, 4) > 213 * beta_sq
}

/// The `t` bracket of a rounded base-`b` logarithm of a value `v` with
/// `v^2 == num / den`: `b^(2t-1) <= num/den < b^(2t+1)`.
pub open spec fn log_round_ok(t: int, b: int, num: int, den: int) -> bool {
    &&& t >= 1
    &&& den * pow_int(b, (2 * t - 1) as nat) <= num
    &&& den * pow_int(b, (2 * t + 1) as nat) > num
}

/// The floor bracket of the `t`-th root of `num / den`:
/// `den * floor^t <= num < den * (floor+1)^t`.
pub open spec fn root_floor_ok(floor: int, t: nat, num: int, den: int) -> bool {
    &&& floor >= 0
    &&& den * pow_int(floor, t) <= num
    &&& den * pow_int(floor + 1, t) > num
}

/// The derived integer parameters are exactly the rounded real-valued
/// parameter formulas.
pub open spec fn derived_params_ok(crs: CommonReferenceString) -> bool {
    let q = crs.q as int;
    let bsq = crs.norm_bound_squared as int;
    let rr = crs.r as int;
    let nn = crs.n as int;
    let dd = crs.d as int;
    // main base b: round_to_odd of the fourth root of 213 beta_sq / (16 n)
    &&& exists|x: int|
        #[trigger] main_base_floor(x, nn, bsq) && round_to_odd_of(
            crs.b as int,
            x,
            16 * nn * pow_int(x, 4) == 213 * bsq,
        )
    // t1: round(log2(q) / log2(b))
    &&& log_round_ok(crs.t1 as int, crs.b as int, q * q, 1)
    // b1: round_to_odd(q^(1/t1))
    &&& exists|x: int|
        #[trigger] root_floor_ok(x, crs.t1 as nat, q, 1) && round_to_odd_of(
            crs.b1 as int,
            x,
            pow_int(x, crs.t1 as nat) == q,
        )
    // t2: round of the log of v with v^2 == 24 beta_sq / (r^2 n d)
    &&& log_round_ok(crs.t2 as int, crs.b as int, 24 * bsq, rr * rr * nn * dd)
    // b2: round_to_odd(v^(1/t2))
    &&& exists|x: int|
        #[trigger] root_floor_ok(x, (2 * crs.t2) as nat, 24 * bsq, rr * rr * nn * dd)
            && round_to_odd_of(
            crs.b2 as int,
            x,
            rr * rr * nn * dd * pow_int(x, (2 * crs.t2) as nat) == 24 * bsq,
        )
    // num_aggregs: ceil(128 / log2(q)), the least a with q^a >= 2^128
    &&& pow_int(q, crs.num_aggregs as nat) > u128::MAX
    &&& forall|e: nat| 1 <= e < crs.num_aggregs ==> pow_int(q, e) <= u128::MAX
    // fixed rank policy
    &&& crs.k == 1
    &&& crs.k1 == 2
    &&& crs.k2 == 2
}

/// The public matrices are the deterministic sample from the seeded
/// sponge: first `A` (`k x n`), then the flattened `B` family
/// (`r * t1 * k1` rows of `k`), then the flattened `C` family
/// (`tri(r) * t2` rows of `k2`), then the flattened `D` family
/// (`tri(r) * t1` rows of `k2`).
pub open spec fn matrices_pinned(crs: CommonReferenceString, seed: Seq<u8>) -> bool {
    let g0 = spec_absorb_seq(spec_absorb_u64(Sponge { s: 0, ctr: 0 }, 0xc125), seed);
    let g1 = sponge_after_mat(crs.d, (crs.k as int) as nat, crs.n, g0);
    let g2 = sponge_after_mat(crs.d, (crs.r * crs.t1 * crs.k1) as nat, crs.k, g1);
    let g3 = sponge_after_mat(crs.d, (crs.spec_tri_r() * crs.t2) as nat, crs.k2, g2);
    &&& mat_coeff_view(crs.a_mat@) == sampled_mat_coeffs(
        crs.q,
        crs.d,
        (crs.k as int) as nat,
        crs.n,
        g0,
    )
    &&& mat_coeff_view(crs.b_rows@) == sampled_mat_coeffs(
        crs.q,
        crs.d,
        (crs.r * crs.t1 * crs.k1) as nat,
        crs.k,
        g1,
    )
    &&& mat_coeff_view(crs.c_rows@) == sampled_mat_coeffs(
        crs.q,
        crs.d,
        (crs.spec_tri_r() * crs.t2) as nat,
        crs.k2,
        g2,
    )
    &&& mat_coeff_view(crs.d_rows@) == sampled_mat_coeffs(
        crs.q,
        crs.d,
        (crs.spec_tri_r() * crs.t1) as nat,
        crs.k2,
        g3,
    )
}

/// Immutable public parameters for a fixed relation shape. Produced once
/// per shape and shared by reference between prover and verifier; nothing
/// here is ever mutated.
pub struct CommonReferenceString {
    /// Number of witness vectors.
    pub r: usize,
    /// Length of each witness vector.
    pub n: usize,
    /// Structural dimension of the ring.
    pub d: usize,
    /// The ring modulus.
    pub q: u64,
    /// The witness's aggregate squared-norm bound.
    pub norm_bound_squared: u128,
    /// Commitment rank of the inner commitment.
    pub k: usize,
    /// Commitment rank of the outer commitment.
    pub k1: usize,
    /// Commitment rank of the garbage commitment.
    pub k2: usize,
    /// First-level decomposition length.
    pub t1: usize,
    /// Second-level decomposition length.
    pub t2: usize,
    /// Number of aggregated random linear combinations.
    pub num_aggregs: usize,
    /// Number of quadratic constraints the instance must carry.
    pub num_constraints: usize,
    /// Number of constant quadratic constraints the instance must carry.
    pub num_constant_constraints: usize,
    /// Main witness decomposition base (odd unless exactly integral).
    pub b: u64,
    /// First-level decomposition base.
    pub b1: u64,
    /// Second-level decomposition base.
    pub b2: u64,
    /// The `k x n` inner commitment matrix.
    pub a_mat: Vec<Vec<RingElement>>,
    /// The `B` family, flattened: row `(i * t1 + l) * k1 + u` is row `u`
    /// of the `k1 x k` matrix `B[i][l]`.
    pub b_rows: Vec<Vec<RingElement>>,
    /// The `C` family, flattened: row `packed_index(i, j) * t2 + l` is the
    /// `k2`-vector `C[i][j][l]`, for `j <= i`.
    pub c_rows: Vec<Vec<RingElement>>,
    /// The `D` family, flattened: row `packed_index(i, j) * t1 + l` is the
    /// `k2`-vector `D[i][j][l]`, for `j <= i`.
    pub d_rows: Vec<Vec<RingElement>>,
}

impl CommonReferenceString {
    /// Shape and range sanity of every field and matrix.
    pub open spec fn wf(self) -> bool {
        &&& 2 <= self.q <= Q_MAX
        &&& 1 <= self.d <= D_MAX
        &&& 1 <= self.r < 0x1000
        &&& 1 <= self.n < 0x1000
        &&& 1 <= self.k < 0x1000
        &&& 1 <= self.k1 < 0x1000
        &&& 1 <= self.k2 < 0x1000
        &&& 1 <= self.t1 < 0x1000
        &&& 1 <= self.t2 < 0x1000
        &&& 1 <= self.num_aggregs <= 128
        &&& 2 <= self.b
        &&& mat_wf(self.a_mat@, self.k as int, self.n as int, self.q as int, self.d as int)
        &&& mat_wf(
            self.b_rows@,
            (self.r * self.t1 * self.k1) as int,
            self.k as int,
            self.q as int,
            self.d as int,
        )
        &&& mat_wf(
            self.c_rows@,
            (self.spec_tri_r() * self.t2) as int,
            self.k2 as int,
            self.q as int,
            self.d as int,
        )
        &&& mat_wf(
            self.d_rows@,
            (self.spec_tri_r() * self.t1) as int,
            self.k2 as int,
            self.q as int,
            self.d as int,
        )
    }

    /// `r (r + 1) / 2` as a specification value.
    pub open spec fn spec_tri_r(self) -> int {
        crate::symmetric::tri(self.r as int)
    }
}

/// The main base `bv` is the odd rounding of the fourth root of
/// `213 beta / (16 n)`.
pub open spec fn main_base_of(bv: int, n: int, beta_sq: int) -> bool {
    exists|x: int|
        #[trigger] main_base_floor(x, n, beta_sq) && round_to_odd_of(
            bv,
            x,
            16 * n * pow_int(x, 4) == 213 * beta_sq,
        )
}

/// The admitted input ranges of the deriver. The caps on `r`, `n` and the
/// norm bound are machine limits: they keep every intermediate product of
/// the exact derivation inside 128 bits.
pub open spec fn shape_ok(r: usize, n: usize, q: u64, d: usize, beta_sq: u128) -> bool {
    &&& 2 <= q <= Q_MAX
    &&& 1 <= d <= D_MAX
    &&& d < 0x1000
    &&& 1 <= r < 0x1000
    &&& 1 <= n < 0x1000
    &&& 1 <= beta_sq
    &&& beta_sq < 0x10_0000_0000_0000_0000_0000_0000
}

/// The norm bound is under the soundness ceiling
/// `sqrt(30/128) * q / 125`, squared and cleared of denominators:
/// `2_000_000 * beta_sq < 30 * q^2`.
pub open spec fn ceiling_ok(q: u64, beta_sq: u128) -> bool {
    2_000_000 * (beta_sq as int) < 30 * (q as int) * (q as int)
}

/// Round a floor to the odd base.
fn round_to_odd_from(floor: u128, exact: bool) -> (r: u128)
    requires
        floor < u128::MAX,
    ensures
        round_to_odd_of(r as int, floor as int, exact),
        r as int == floor as int || r as int == floor as int + 1,
{
    if floor % 2 == 1 {
        floor
    } else if exact {
        floor
    } else {
        floor + 1
    }
}

/// A fourth-root floor of a value below `2^100` scaled by at least 256 is
/// below `2^15`.
proof fn lemma_main_floor_small(x: int, n: int, beta_sq: int)
    requires
        main_base_floor(x, n, beta_sq),
        1 <= n,
        0 <= x,
        beta_sq < 0x10_0000_0000_0000_0000_0000_0000,
    ensures
        x < 0x800_0000,
{
    if x >= 0x800_0000 {
        crate::derive::lemma_pow_int_base_monotonic(0x800_0000, x, 4);
        lemma_pow_2_27_4();
        assert(16 * n * pow_int(x, 4) >= pow_int(0x800_0000, 4)) by (nonlinear_arith)
            requires
                n >= 1,
                pow_int(x, 4) >= pow_int(0x800_0000, 4),
                pow_int(0x800_0000, 4) >= 0,
        ;
        assert(213 * beta_sq < 213 * 0x10_0000_0000_0000_0000_0000_0000) by (nonlinear_arith)
            requires
                beta_sq < 0x10_0000_0000_0000_0000_0000_0000,
        ;
    }
}

proof fn lemma_pow_2_27_4()
    ensures
        pow_int(0x800_0000, 4) == 0x1000_0000_0000_0000_0000_0000_0000,
{
    reveal_with_fuel(pow_int, 5);
}

/// The derived integer parameters, before any matrix is sampled.
pub struct DerivedParams {
    pub b: u64,
    pub t1: usize,
    pub b1: u64,
    pub t2: usize,
    pub b2: u64,
    pub num_aggregs: usize,
}

/// The bracket characterizations of a full set of derived parameters.
pub open spec fn params_ok(p: DerivedParams, r: int, n: int, q: int, d: int, bsq: int) -> bool {
    &&& exists|x: int|
        #[trigger] main_base_floor(x, n, bsq) && round_to_odd_of(
            p.b as int,
            x,
            16 * n * pow_int(x, 4) == 213 * bsq,
        )
    &&& log_round_ok(p.t1 as int, p.b as int, q * q, 1)
    &&& exists|x: int|
        #[trigger] root_floor_ok(x, p.t1 as nat, q, 1) && round_to_odd_of(
            p.b1 as int,
            x,
            pow_int(x, p.t1 as nat) == q,
        )
    &&& log_round_ok(p.t2 as int, p.b as int, 24 * bsq, r * r * n * d)
    &&& exists|x: int|
        #[trigger] root_floor_ok(x, (2 * p.t2) as nat, 24 * bsq, r * r * n * d)
            && round_to_odd_of(
            p.b2 as int,
            x,
            r * r * n * d * pow_int(x, (2 * p.t2) as nat) == 24 * bsq,
        )
    &&& pow_int(q, p.num_aggregs as nat) > u128::MAX
    &&& forall|e: nat| 1 <= e < p.num_aggregs ==> pow_int(q, e) <= u128::MAX
    &&& 2 <= p.b
    &&& 1 <= p.t1 < 130
    &&& 1 <= p.t2 < 130
    &&& 1 <= p.num_aggregs <= 128
}

/// Derive the integer parameters for the relation shape, or fail with the
/// first violated condition.
#[verifier::rlimit(60)]
pub fn derive_parameters(r: usize, n: usize, norm_bound_squared: u128, q: u64, d: usize) -> (res:
    Result<DerivedParams, CrsError>)
    ensures
        match res {
            Ok(p) => {
                &&& shape_ok(r, n, q, d, norm_bound_squared)
                &&& ceiling_ok(q, norm_bound_squared)
                &&& params_ok(
                    p,
                    r as int,
                    n as int,
                    q as int,
                    d as int,
                    norm_bound_squared as int,
                )
            },
            Err(CrsError::UnsupportedShape) => !shape_ok(r, n, q, d, norm_bound_squared),
            Err(CrsError::NormBoundTooLarge) => shape_ok(r, n, q, d, norm_bound_squared)
                && !ceiling_ok(q, norm_bound_squared),
            Err(CrsError::DecompositionBaseTooSmall) => shape_ok(r, n, q, d, norm_bound_squared)
                && ceiling_ok(q, norm_bound_squared) && exists|bv: int|
                #[trigger] main_base_of(bv, n as int, norm_bound_squared as int) && bv < 2,
            Err(CrsError::FirstLevelNotDerivable) => shape_ok(r, n, q, d, norm_bound_squared)
                && ceiling_ok(q, norm_bound_squared) && exists|bv: int|
                #[trigger] main_base_of(bv, n as int, norm_bound_squared as int) && bv >= 2
                    && bv > (q as int) * (q as int),
            Err(CrsError::SecondLevelNotDerivable) => shape_ok(r, n, q, d, norm_bound_squared)
                && ceiling_ok(q, norm_bound_squared) && exists|bv: int|
                #[trigger] main_base_of(bv, n as int, norm_bound_squared as int) && bv >= 2
                    && bv <= (q as int) * (q as int) && (r as int) * (r as int) * (n as int)
                    * (d as int) * bv > 24 * (norm_bound_squared as int),
        },
{
        // Shape checks.
        if !(2 <= q && q <= crate::zq::Q_MAX && 1 <= d && d <= D_MAX && d < 0x1000 && 1 <= r
            && r < 0x1000 && 1 <= n && n < 0x1000 && 1 <= norm_bound_squared
            && norm_bound_squared < 0x10_0000_0000_0000_0000_0000_0000) {
            return Err(CrsError::UnsupportedShape);
        }
        let beta_sq = norm_bound_squared;
        // Soundness ceiling: 2_000_000 beta_sq < 30 q^2.
        proof {
            assert((q as int) * (q as int) <= 0x8000_0000i128 * 0x8000_0000i128)
                by (nonlinear_arith)
                requires
                    0 <= (q as int) <= 0x8000_0000,
            ;
        }
        let qq: u128 = (q as u128) * (q as u128);
        let lhs: u128 = 2_000_000u128 * beta_sq;
        let rhs: u128 = 30u128 * qq;
        proof {
            assert(30 * ((q as int) * (q as int)) == 30 * (q as int) * (q as int))
                by (nonlinear_arith);
        }
        if lhs >= rhs {
            return Err(CrsError::NormBoundTooLarge);
        }
        // Main decomposition base b.
        proof {
            assert(16 * (n as int) >= 16 && 16 * (n as int) <= 0x1_0000)
                by (nonlinear_arith)
                requires
                    1 <= (n as int) < 0x1000,
            ;
        }
        let c_main: u128 = 16u128 * (n as u128);
        let bound_main: u128 = 213u128 * beta_sq;
        let bv: u128 = if c_main > bound_main {
            proof {
                assert(pow_int(0, 4) == 0) by {
                    assert(pow_int(0, 4) == 0 * pow_int(0, 3));
                }
                assert(pow_int(1, 4) == 1) by {
                    lemma_pow_ones();
                }
                assert(16 * (n as int) * pow_int(0, 4) == 0) by (nonlinear_arith)
                    requires
                        pow_int(0, 4) == 0,
                ;
                assert(16 * (n as int) * pow_int(1, 4) == c_main as int)
                    by (nonlinear_arith)
                    requires
                        pow_int(1, 4) == 1,
                        c_main as int == 16 * (n as int),
                ;
                assert(main_base_floor(0, n as int, beta_sq as int));
            }
            1
        } else {
            let x = scaled_root_floor(c_main, 4, bound_main);
            let exact = if x == 0 {
                proof {
                    assert(pow_int(0, 4) == 0 * pow_int(0, 3));
                    assert(c_main as int * 0 == 0) by (nonlinear_arith);
                }
                false
            } else {
                scaled_pow_eq(c_main, x, 4, bound_main)
            };
            proof {
                assert((c_main as int) * pow_int(x as int, 4) == 16 * (n as int) * pow_int(
                    x as int,
                    4,
                )) by (nonlinear_arith)
                    requires
                        c_main as int == 16 * (n as int),
                ;
                assert((c_main as int) * pow_int(x as int + 1, 4) == 16 * (n as int) * pow_int(
                    x as int + 1,
                    4,
                )) by (nonlinear_arith)
                    requires
                        c_main as int == 16 * (n as int),
                ;
                assert(main_base_floor(x as int, n as int, beta_sq as int));
                lemma_main_floor_small(x as int, n as int, beta_sq as int);
            }
            round_to_odd_from(x, exact)
        };
        proof {
            assert(main_base_of(bv as int, n as int, beta_sq as int));
        }
        if bv < 2 {
            return Err(CrsError::DecompositionBaseTooSmall);
        }
        proof {
            lemma_main_base_small(bv as int, n as int, beta_sq as int);
        }
        let b: u64 = bv as u64;
        // First-level decomposition (t1, b1).
        if (bv as u128) > qq {
            return Err(CrsError::FirstLevelNotDerivable);
        }
        let e1 = scaled_max_pow_exp(1, bv, qq);
        if e1 == 0 {
            proof {
                assert(pow_int(bv as int, 1) == bv as int * pow_int(bv as int, 0));
                assert(1 * pow_int(bv as int, 1) == bv as int) by (nonlinear_arith)
                    requires
                        pow_int(bv as int, 1) == bv as int,
                ;
            }
            return Err(CrsError::FirstLevelNotDerivable);
        }
        let t1: usize = (e1 + 1) / 2;
        proof {
            lemma_log_round(e1 as int, t1 as int, bv as int, qq as int, 1);
        }
        let x1 = scaled_root_floor(1, t1, q as u128);
        let exact1 = if x1 == 0 {
            proof {
                assert(pow_int(0, t1 as nat) == 0 * pow_int(0, (t1 - 1) as nat));
                assert(1 * pow_int(0, t1 as nat) == 0) by (nonlinear_arith)
                    requires
                        pow_int(0, t1 as nat) == 0,
                ;
            }
            false
        } else {
            scaled_pow_eq(1, x1, t1, q as u128)
        };
        proof {
            lemma_root_small(x1 as int, t1 as nat, q as int);
        }
        let b1v = round_to_odd_from(x1, exact1);
        proof {
            assert(1 * pow_int(x1 as int, t1 as nat) == pow_int(x1 as int, t1 as nat))
                by (nonlinear_arith);
            assert(1 * pow_int(x1 as int + 1, t1 as nat) == pow_int(x1 as int + 1, t1 as nat))
                by (nonlinear_arith);
            assert(root_floor_ok(x1 as int, t1 as nat, q as int, 1));
            lemma_root_small(x1 as int, t1 as nat, q as int);
        }
        let b1: u64 = b1v as u64;
        // Second-level decomposition (t2, b2). Both are rounded from the
        // single value v with v^2 = 24 * beta_sq / (r^2 n d): t2 as the
        // rounded base-b logarithm of v, b2 as the odd rounding of its
        // t2-th root.
        proof {
            assert(1 <= (r as int) * (r as int) * (n as int) * (d as int) <= 0x1_0000_0000_0000
                && (r as int) * (r as int) <= 0x100_0000 && (r as int) * (r as int) * (n as int)
                <= 0x1_0000_0000_0000) by (nonlinear_arith)
                requires
                    1 <= (r as int) < 0x1000,
                    1 <= (n as int) < 0x1000,
                    1 <= (d as int) < 0x1000,
            ;
        }
        let c2: u128 = (r as u128) * (r as u128) * (n as u128) * (d as u128);
        let bound2: u128 = 24u128 * beta_sq;
        proof {
            assert(c2 >= 1) by (nonlinear_arith)
                requires
                    c2 as int == (r as int) * (r as int) * (n as int) * (d as int),
                    r >= 1,
                    n >= 1,
                    d >= 1,
            ;
        }
        let step_ok = crate::derive::scaled_pow_le(c2, bv, 1, bound2);
        if !step_ok {
            proof {
                assert(pow_int(bv as int, 1) == bv as int * pow_int(bv as int, 0));
            }
            return Err(CrsError::SecondLevelNotDerivable);
        }
        proof {
            assert(pow_int(bv as int, 1) == bv as int * pow_int(bv as int, 0));
            assert(c2 as int * pow_int(bv as int, 0) <= c2 as int * pow_int(bv as int, 1))
                by (nonlinear_arith)
                requires
                    c2 as int >= 1,
                    pow_int(bv as int, 0) == 1,
                    pow_int(bv as int, 1) == bv as int,
                    bv as int >= 2,
            ;
        }
        let e2 = scaled_max_pow_exp(c2, bv, bound2);
        proof {
            if e2 == 0 {
                assert(c2 as int * pow_int(bv as int, 1) > bound2);
                assert(false);
            }
        }
        let t2: usize = (e2 + 1) / 2;
        proof {
            lemma_log_round(e2 as int, t2 as int, bv as int, bound2 as int, c2 as int);
        }
        let x2 = scaled_root_floor(c2, 2 * t2, bound2);
        let exact2 = if x2 == 0 {
            proof {
                assert(pow_int(0, (2 * t2) as nat) == 0 * pow_int(0, (2 * t2 - 1) as nat));
                assert(c2 as int * pow_int(0, (2 * t2) as nat) == 0) by (nonlinear_arith)
                    requires
                        pow_int(0, (2 * t2) as nat) == 0,
                ;
            }
            false
        } else {
            scaled_pow_eq(c2, x2, 2 * t2, bound2)
        };
        proof {
            assert(root_floor_ok(x2 as int, (2 * t2) as nat, bound2 as int, c2 as int));
            lemma_scaled_root_sq_small(x2 as int, (2 * t2) as nat, bound2 as int, c2 as int);
            assert((x2 as int) < 0x4000_0000_0000_0000) by (nonlinear_arith)
                requires
                    (x2 as int) * (x2 as int) <= (bound2 as int),
                    (bound2 as int) < 0x1000_0000_0000_0000_0000_0000_0000,
                    0 <= (x2 as int),
            ;
        }
        let b2v = round_to_odd_from(x2, exact2);
        let b2: u64 = b2v as u64;
        // Aggregation count.
        let num_aggregs = min_exp_reaching_128_bits(q);
        let params = DerivedParams { b, t1, b1, t2, b2, num_aggregs };
        proof {
            let rr = r as int;
            let nn = n as int;
            let dd = d as int;
            let qi = q as int;
            let bsq = norm_bound_squared as int;
            assert(shape_ok(r, n, q, d, norm_bound_squared));
            assert(ceiling_ok(q, norm_bound_squared));
            assert(exists|x: int|
                #[trigger] main_base_floor(x, nn, bsq) && round_to_odd_of(
                    params.b as int,
                    x,
                    16 * nn * pow_int(x, 4) == 213 * bsq,
                ));
            assert(log_round_ok(params.t1 as int, params.b as int, qi * qi, 1));
            assert(exists|x: int|
                #[trigger] root_floor_ok(x, params.t1 as nat, qi, 1) && round_to_odd_of(
                    params.b1 as int,
                    x,
                    pow_int(x, params.t1 as nat) == qi,
                ));
            assert(log_round_ok(params.t2 as int, params.b as int, 24 * bsq, rr * rr * nn * dd));
            assert(exists|x: int|
                #[trigger] root_floor_ok(x, (2 * params.t2) as nat, 24 * bsq, rr * rr * nn * dd)
                    && round_to_odd_of(
                    params.b2 as int,
                    x,
                    rr * rr * nn * dd * pow_int(x, (2 * params.t2) as nat) == 24 * bsq,
                ));
            assert(pow_int(qi, params.num_aggregs as nat) > u128::MAX);
            assert(params_ok(params, rr, nn, qi, dd, bsq));
        }
        Ok(params)
}

impl CommonReferenceString {
    /// Derive a common reference string for the relation shape
    /// `(r, n, norm_bound_squared, num_constraints,
    /// num_constant_constraints)` over the ring `(q, d)`, sampling the
    /// public matrices deterministically from `seed`.
    #[verifier::rlimit(100)]
    #[verifier::spinoff_prover]
    pub fn new(
        r: usize,
        n: usize,
        norm_bound_squared: u128,
        num_constraints: usize,
        num_constant_constraints: usize,
        q: u64,
        d: usize,
        seed: &Vec<u8>,
    ) -> (res: Result<CommonReferenceString, CrsError>)
        ensures
            match res {
                Ok(crs) => {
                    &&& shape_ok(r, n, q, d, norm_bound_squared)
                    &&& ceiling_ok(q, norm_bound_squared)
                    &&& crs.r == r
                    &&& crs.n == n
                    &&& crs.d == d
                    &&& crs.q == q
                    &&& crs.norm_bound_squared == norm_bound_squared
                    &&& crs.num_constraints == num_constraints
                    &&& crs.num_constant_constraints == num_constant_constraints
                    &&& crs.wf()
                    &&& derived_params_ok(crs)
                    &&& matrices_pinned(crs, seed@)
                },
                Err(CrsError::UnsupportedShape) => !shape_ok(r, n, q, d, norm_bound_squared),
                Err(CrsError::NormBoundTooLarge) => shape_ok(r, n, q, d, norm_bound_squared)
                    && !ceiling_ok(q, norm_bound_squared),
                Err(CrsError::DecompositionBaseTooSmall) => shape_ok(
                    r,
                    n,
                    q,
                    d,
                    norm_bound_squared,
                ) && ceiling_ok(q, norm_bound_squared) && exists|bv: int|
                    #[trigger] main_base_of(bv, n as int, norm_bound_squared as int) && bv < 2,
                Err(CrsError::FirstLevelNotDerivable) => shape_ok(r, n, q, d, norm_bound_squared)
                    && ceiling_ok(q, norm_bound_squared) && exists|bv: int|
                    #[trigger] main_base_of(bv, n as int, norm_bound_squared as int) && bv >= 2
                        && bv > (q as int) * (q as int),
                Err(CrsError::SecondLevelNotDerivable) => shape_ok(r, n, q, d, norm_bound_squared)
                    && ceiling_ok(q, norm_bound_squared) && exists|bv: int|
                    #[trigger] main_base_of(bv, n as int, norm_bound_squared as int) && bv >= 2
                        && bv <= (q as int) * (q as int) && (r as int) * (r as int) * (n as int)
                        * (d as int) * bv > 24 * (norm_bound_squared as int),
            },
    {
        let p = match derive_parameters(r, n, norm_bound_squared, q, d) {
            Ok(p) => p,
            Err(e) => {
                return Err(e);
            },
        };
        let b = p.b;
        let t1 = p.t1;
        let b1 = p.b1;
        let t2 = p.t2;
        let b2 = p.b2;
        let num_aggregs = p.num_aggregs;
        // Fixed reference rank policy.
        let k: usize = 1;
        let k1: usize = 2;
        let k2: usize = 2;
        // Sample the public matrices from the seeded sponge.
        let mut g = Sponge::new(0xc125);
        g.absorb_bytes(seed);
        let a_mat = sample_uniform_mat(q, d, k, n, &mut g);
        proof {
            assert((r as int) * (t1 as int) * (k1 as int) < 0x1000 * 130 * 2)
                by (nonlinear_arith)
                requires
                    1 <= (r as int) < 0x1000,
                    1 <= (t1 as int) < 130,
                    (k1 as int) == 2,
            ;
        }
        let b_rows = sample_uniform_mat(q, d, r * t1 * k1, k, &mut g);
        let mut tri_r: usize = 0;
        for i in 0..r
            invariant
                r < 0x1000,
                tri_r == crate::symmetric::tri(i as int),
                tri_r <= 0x80_0000,
        {
            proof {
                crate::symmetric::lemma_tri_monotonic(0, i as int);
                lemma_tri_small(i as int + 1);
            }
            tri_r = tri_r + i + 1;
        }
        proof {
            assert((tri_r as int) * (t2 as int) < 0x80_0001 * 130) by (nonlinear_arith)
                requires
                    0 <= (tri_r as int) <= 0x80_0000,
                    1 <= (t2 as int) < 130,
            ;
            assert((tri_r as int) * (t1 as int) < 0x80_0001 * 130) by (nonlinear_arith)
                requires
                    0 <= (tri_r as int) <= 0x80_0000,
                    1 <= (t1 as int) < 130,
            ;
        }
        let c_rows = sample_uniform_mat(q, d, tri_r * t2, k2, &mut g);
        let d_rows = sample_uniform_mat(q, d, tri_r * t1, k2, &mut g);
        let crs = CommonReferenceString {
            r,
            n,
            d,
            q,
            norm_bound_squared,
            k,
            k1,
            k2,
            t1,
            t2,
            num_aggregs,
            num_constraints,
            num_constant_constraints,
            b,
            b1,
            b2,
            a_mat,
            b_rows,
            c_rows,
            d_rows,
        };
        Ok(crs)
    }
}

/// Total squared L2 norm of a family of witness vectors.
pub open spec fn spec_mat_norm_sq(s: Seq<Vec<RingElement>>, m: nat) -> int
    decreases m,
{
    if m == 0 {
        0
    } else {
        spec_mat_norm_sq(s, (m - 1) as nat) + spec_norm_sq_vec(s[m - 1]@, s[m - 1]@.len())
    }
}

impl CommonReferenceString {
    /// A constraint is well-formed against this reference string when its
    /// coefficient matrix, if present, is symmetric of size `r`, every
    /// linear coefficient vector has length `n`, and every entry lies in
    /// the ring `(q, d)`.
    pub fn is_wellformed_constraint(&self, c: &QuadDotProdFunction) -> (ok: bool)
        requires
            self.wf(),
        ensures
            ok <==> c.wf(self.r as int, self.n as int, self.q as int, self.d as int),
    {
        c.wf_check(self.r, self.n, self.q, self.d)
    }

    /// The constant-constraint version of the same check.
    pub fn is_wellformed_const_constraint(&self, c: &ConstantQuadDotProdFunction) -> (ok: bool)
        requires
            self.wf(),
        ensures
            ok <==> c.wf(self.r as int, self.n as int, self.q as int, self.d as int),
    {
        c.wf_check(self.r, self.n, self.q, self.d)
    }

    /// An instance is well-formed against this reference string when it
    /// carries exactly the declared number of constraints of each kind and
    /// every constraint is well-formed for shape `(r, n)` over the ring
    /// `(q, d)`: exactly what the protocol demands of an instance.
    pub fn is_wellformed_instance(&self, instance: &PrincipalRelation) -> (ok: bool)
        requires
            self.wf(),
        ensures
            ok <==> {
                &&& instance.wf(self.r as int, self.n as int, self.q as int, self.d as int)
                &&& instance.quad_dot_prod_funcs@.len() == self.num_constraints
                &&& instance.ct_quad_dot_prod_funcs@.len() == self.num_constant_constraints
            },
    {
        if instance.quad_dot_prod_funcs.len() != self.num_constraints {
            return false;
        }
        if instance.ct_quad_dot_prod_funcs.len() != self.num_constant_constraints {
            return false;
        }
        instance.wf_check(self.r, self.n, self.q, self.d)
    }

    /// A witness is well-formed against this reference string when it has
    /// `r` vectors of length `n` over the ring and its total squared norm
    /// is within the declared bound.
    pub fn is_wellformed_witness(&self, witness: &Witness) -> (ok: bool)
        requires
            self.wf(),
        ensures
            ok <==> {
                &&& crate::relation::witness_wf(
                    *witness,
                    self.r as int,
                    self.n as int,
                    self.q as int,
                    self.d as int,
                )
                &&& spec_mat_norm_sq(witness.s@, witness.s@.len()) <= self.norm_bound_squared
            },
    {
        if witness.s.len() != self.r {
            return false;
        }
        let m = witness.s.len();
        for i in 0..m
            invariant
                self.wf(),
                m == witness.s@.len() == self.r,
                forall|k: int|
                    0 <= k < i ==> (#[trigger] witness.s@[k])@.len() == self.n && vec_wf(
                        witness.s@[k]@,
                        self.q as int,
                        self.d as int,
                    ),
        {
            if witness.s[i].len() != self.n {
                proof {
                    assert((#[trigger] witness.s@[i as int])@.len() != self.n);
                }
                return false;
            }
            let row = &witness.s[i];
            let ln = row.len();
            for j in 0..ln
                invariant
                    self.wf(),
                    i < m,
                    m == witness.s@.len() == self.r,
                    row@ == witness.s@[i as int]@,
                    ln == row@.len() == self.n,
                    forall|l: int|
                        0 <= l < j ==> (#[trigger] witness.s@[i as int]@[l]).wf()
                            && witness.s@[i as int]@[l].modulus() == self.q
                            && witness.s@[i as int]@[l].dim() == self.d,
            {
                let e = &row[j];
                if e.modulus_u64() != self.q || e.dim_usize() != self.d || !e.wf_check() {
                    proof {
                        let bad = witness.s@[i as int]@[j as int];
                        assert(!(bad.wf() && bad.modulus() == self.q && bad.dim() == self.d));
                        assert(witness.s@[i as int]@[j as int] == bad);
                        assert(!vec_wf(witness.s@[i as int]@, self.q as int, self.d as int));
                    }
                    return false;
                }
            }
        }
        let mut acc: u128 = 0;
        for i in 0..m
            invariant
                self.wf(),
                m == witness.s@.len() == self.r,
                crate::relation::witness_wf(
                    *witness,
                    self.r as int,
                    self.n as int,
                    self.q as int,
                    self.d as int,
                ),
                acc == spec_mat_norm_sq(witness.s@, i as nat),
                acc <= (i as u128) * 0x400_0000_0000_0000_0000_0000_0000,
        {
            let t = crate::linalg::norm_sq_vec(&witness.s[i]);
            proof {
                lemma_row_norm_bound(witness.s@[i as int]@, self.q as int, self.d as int);
                assert(acc + t <= (i as u128 + 1) * 0x400_0000_0000_0000_0000_0000_0000)
                    by (nonlinear_arith)
                    requires
                        acc <= (i as u128) * 0x400_0000_0000_0000_0000_0000_0000,
                        t <= 0x400_0000_0000_0000_0000_0000_0000u128,
                ;
                assert((i as u128 + 1) * 0x400_0000_0000_0000_0000_0000_0000 < u128::MAX)
                    by (nonlinear_arith)
                    requires
                        i as u128 + 1 <= 0x1000u128,
                ;
            }
            acc = acc + t;
        }
        acc <= self.norm_bound_squared
    }
}

/// A well-formed row of length at most `2^12` has squared norm at most
/// `2^12 * 2^90`.
proof fn lemma_row_norm_bound(v: Seq<RingElement>, q: int, d: int)
    requires
        vec_wf(v, q, d),
        v.len() <= 0x1000,
    ensures
        0 <= spec_norm_sq_vec(v, v.len()) <= 0x400_0000_0000_0000_0000_0000_0000,
{
    lemma_row_norm_bound_rec(v, q, d, v.len());
}

proof fn lemma_row_norm_bound_rec(v: Seq<RingElement>, q: int, d: int, m: nat)
    requires
        vec_wf(v, q, d),
        m <= v.len() <= 0x1000,
    ensures
        0 <= spec_norm_sq_vec(v, m) <= m * 0x1000_0000_0000_0000_0000_0000,
        spec_norm_sq_vec(v, m) <= 0x400_0000_0000_0000_0000_0000_0000,
    decreases m,
{
    if m == 0 {
    } else {
        lemma_row_norm_bound_rec(v, q, d, (m - 1) as nat);
        crate::linalg::lemma_norm_sq_bound(v[m - 1]);
        assert((m - 1) * 0x1000_0000_0000_0000_0000_0000 + 0x1000_0000_0000_0000_0000_0000 == m
            * 0x1000_0000_0000_0000_0000_0000) by (nonlinear_arith);
        assert(m * 0x1000_0000_0000_0000_0000_0000 <= 0x400_0000_0000_0000_0000_0000_0000)
            by (nonlinear_arith)
            requires
                0 <= m <= 0x1000,
        ;
    }
}

/// The exact numerator of the squared norm bound of the folded output
/// instance (denominator `288 b^2`): the challenge-amplified witness term
/// `639 d beta_sq` plus the garbage term
/// `2 b^2 * gamma1_num * gamma2_num` with
/// `gamma1_num = b1^2 t1 r k d + b2^2 t2 T d` and
/// `gamma2_num = b1^2 t1 T d`, `T = r (r + 1) / 2`.
pub open spec fn next_norm_num(
    r: int,
    k: int,
    d: int,
    t1: int,
    b1: int,
    t2: int,
    b2: int,
    b: int,
    beta_sq: int,
) -> int {
    let tt = crate::symmetric::tri(r);
    let gamma1 = b1 * b1 * t1 * r * k * d + b2 * b2 * t2 * tt * d;
    let gamma2 = b1 * b1 * t1 * tt * d;
    639 * d * beta_sq + 2 * (b * b) * gamma1 * gamma2
}

/// The denominator of the folded squared norm bound.
pub open spec fn next_norm_den(b: int) -> int {
    288 * b * b
}

impl CommonReferenceString {
    /// The squared norm bound of the folded output instance for candidate
    /// rank `k`, as an exact fraction `(numerator, denominator)` with
    /// denominator `288 b^2`. This is the closed form combining the
    /// challenge-amplified witness norm with the two decomposition garbage
    /// terms, evaluated at the derived `(t1, b1, t2, b2)`. The requires
    /// are machine limits of the exact 128-bit evaluation; outside them
    /// the same closed form can be evaluated approximately by a boundary
    /// layer.
    pub fn next_norm_bound_sq(&self, k: usize) -> (res: (u128, u128))
        requires
            1 <= self.r <= 0x100,
            1 <= k <= 0x100,
            1 <= self.d <= 0x100,
            1 <= self.t1 <= 0x100,
            1 <= self.t2 <= 0x100,
            1 <= self.b1 <= 0x100,
            1 <= self.b2 <= 0x100,
            2 <= self.b <= 0x80,
            1 <= self.norm_bound_squared <= 0x100_0000_0000,
        ensures
            res.0 as int == next_norm_num(
                self.r as int,
                k as int,
                self.d as int,
                self.t1 as int,
                self.b1 as int,
                self.t2 as int,
                self.b2 as int,
                self.b as int,
                self.norm_bound_squared as int,
            ),
            res.1 as int == next_norm_den(self.b as int),
    {
        let ghost rr = self.r as int;
        // T = r (r + 1) / 2, as a running triangle number.
        let mut tt: u128 = 0;
        let rbound = self.r;
        for i in 0..rbound
            invariant
                rbound == self.r <= 0x100,
                tt as int == crate::symmetric::tri(i as int),
                tt <= 0x8080,
        {
            proof {
                crate::symmetric::lemma_tri_monotonic(0, i as int);
                lemma_tri_closed_form(i as int + 1);
                assert((i as int + 1) * (i as int + 2) <= 0x100 * 0x101) by (nonlinear_arith)
                    requires
                        0 <= (i as int) < 0x100,
                ;
            }
            tt = tt + (i as u128) + 1;
        }
        proof {
            lemma_sq_small(self.b1 as int);
            lemma_sq_small(self.b2 as int);
            assert(0 <= (self.b as int) * (self.b as int) <= 0x4000) by (nonlinear_arith)
                requires
                    0 <= (self.b as int) <= 0x80,
            ;
        }
        let b1sq: u128 = (self.b1 as u128) * (self.b1 as u128);
        let b2sq: u128 = (self.b2 as u128) * (self.b2 as u128);
        let bsq_b: u128 = (self.b as u128) * (self.b as u128);
        proof {
            lemma_five_factor_bound(
                b1sq as int,
                self.t1 as int,
                self.r as int,
                k as int,
                self.d as int,
            );
            lemma_five_factor_bound(b2sq as int, self.t2 as int, tt as int, 1, self.d as int);
            lemma_five_factor_bound(b1sq as int, self.t1 as int, tt as int, 1, self.d as int);
        }
        let g1_first: u128 = b1sq * (self.t1 as u128) * (self.r as u128) * (k as u128) * (
        self.d as u128);
        let g1_second: u128 = b2sq * (self.t2 as u128) * tt * 1 * (self.d as u128);
        let gamma1: u128 = g1_first + g1_second;
        let gamma2: u128 = b1sq * (self.t1 as u128) * tt * 1 * (self.d as u128);
        proof {
            lemma_garbage_bound(bsq_b as int, gamma1 as int, gamma2 as int);
        }
        let garbage: u128 = 2 * bsq_b * gamma1 * gamma2;
        proof {
            assert(639 * (self.d as int) * (self.norm_bound_squared as int) <= 639 * 0x100
                * 0x100_0000_0000 && 639 * (self.d as int) >= 0 && 639 * (self.d as int) * (
            self.norm_bound_squared as int) >= 0) by (nonlinear_arith)
                requires
                    1 <= (self.d as int) <= 0x100,
                    1 <= (self.norm_bound_squared as int) <= 0x100_0000_0000,
            ;
        }
        let witness_term: u128 = 639 * (self.d as u128) * self.norm_bound_squared;
        proof {
            assert(288 * ((self.b as int) * (self.b as int)) == 288 * (self.b as int) * (
            self.b as int)) by (nonlinear_arith);
            lemma_assemble_num(
                self.r as int,
                k as int,
                self.d as int,
                self.t1 as int,
                self.b1 as int,
                self.t2 as int,
                self.b2 as int,
                self.b as int,
                self.norm_bound_squared as int,
                tt as int,
                g1_first as int,
                g1_second as int,
                gamma2 as int,
            );
        }
        let num = witness_term + garbage;
        let den: u128 = 288 * bsq_b;
        (num, den)
    }
}

/// A square of a value at most `2^8` is at most `2^16`.
proof fn lemma_sq_small(x: int)
    requires
        0 <= x <= 0x100,
    ensures
        0 <= x * x <= 0x1_0000,
{
    assert(0 <= x * x <= 0x1_0000) by (nonlinear_arith)
        requires
            0 <= x <= 0x100,
    ;
}

/// A product of five bounded nonnegative factors, with running bounds for
/// every prefix, as the evaluator multiplies left to right.
proof fn lemma_five_factor_bound(a: int, b: int, c: int, e: int, f: int)
    requires
        0 <= a <= 0x1_0000,
        0 <= b <= 0x100,
        0 <= c <= 0x8080,
        1 <= e <= 0x100,
        0 <= f <= 0x100,
    ensures
        0 <= a * b <= 0x100_0000,
        0 <= a * b * c <= 0x80_8000_0000,
        0 <= a * b * c * e <= 0x8080_0000_0000,
        0 <= a * b * c * e * f <= 0x80_8000_0000_0000,
{
    assert(0 <= a * b <= 0x100_0000) by (nonlinear_arith)
        requires
            0 <= a <= 0x1_0000,
            0 <= b <= 0x100,
    ;
    assert(0 <= a * b * c <= 0x80_8000_0000) by (nonlinear_arith)
        requires
            0 <= a * b <= 0x100_0000,
            0 <= c <= 0x8080,
    ;
    assert(0 <= a * b * c * e <= 0x8080_0000_0000) by (nonlinear_arith)
        requires
            0 <= a * b * c <= 0x80_8000_0000,
            1 <= e <= 0x100,
    ;
    assert(0 <= a * b * c * e * f <= 0x80_8000_0000_0000) by (nonlinear_arith)
        requires
            0 <= a * b * c * e <= 0x8080_0000_0000,
            0 <= f <= 0x100,
    ;
}

/// The garbage term fits in 128 bits, step by step.
proof fn lemma_garbage_bound(bb: int, gamma1: int, gamma2: int)
    requires
        0 <= bb <= 0x4000,
        0 <= gamma1 <= 0x101_0000_0000_0000,
        0 <= gamma2 <= 0x80_8000_0000_0000,
    ensures
        0 <= 2 * bb <= 0x8000,
        0 <= 2 * bb * gamma1 <= 0x80_8000_0000_0000_0000,
        0 <= 2 * bb * gamma1 * gamma2 <= 0x4080_4000_0000_0000_0000_0000_0000_0000,
{
    assert(0 <= 2 * bb * gamma1 <= 0x80_8000_0000_0000_0000) by (nonlinear_arith)
        requires
            0 <= bb <= 0x4000,
            0 <= gamma1 <= 0x101_0000_0000_0000,
    ;
    vstd::arithmetic::mul::lemma_mul_upper_bound(
        2 * bb * gamma1,
        0x80_8000_0000_0000_0000,
        gamma2,
        0x80_8000_0000_0000,
    );
    vstd::arithmetic::mul::lemma_mul_nonnegative(2 * bb * gamma1, gamma2);
    assert(0x80_8000_0000_0000_0000 * 0x80_8000_0000_0000
        == 0x4080_4000_0000_0000_0000_0000_0000_0000) by (nonlinear_arith);
}

/// Assemble the exact numerator from the evaluated pieces.
proof fn lemma_assemble_num(
    r: int,
    k: int,
    d: int,
    t1: int,
    b1: int,
    t2: int,
    b2: int,
    b: int,
    beta_sq: int,
    tt: int,
    g1_first: int,
    g1_second: int,
    gamma2: int,
)
    requires
        tt == crate::symmetric::tri(r),
        g1_first == b1 * b1 * t1 * r * k * d,
        g1_second == b2 * b2 * t2 * tt * 1 * d,
        gamma2 == b1 * b1 * t1 * tt * 1 * d,
    ensures
        639 * d * beta_sq + 2 * (b * b) * (g1_first + g1_second) * gamma2 == next_norm_num(
            r,
            k,
            d,
            t1,
            b1,
            t2,
            b2,
            b,
            beta_sq,
        ),
{
    assert(b2 * b2 * t2 * tt * 1 * d == b2 * b2 * t2 * tt * d) by (nonlinear_arith);
    assert(b1 * b1 * t1 * tt * 1 * d == b1 * b1 * t1 * tt * d) by (nonlinear_arith);
}

/// The folded squared norm bound never drops below the
/// challenge-amplified witness term `639 d beta_sq / (288 b^2)` alone: the
/// decomposition garbage terms only add. In the degenerate shape
/// `r == n == 1` this term is the minimal achievable value of the bound,
/// so the derived parameters can never produce a smaller one. (The bound
/// is not monotonic in general; this is a floor, not a monotonicity
/// claim.)
pub proof fn lemma_next_norm_bound_floor(
    r: int,
    k: int,
    d: int,
    t1: int,
    b1: int,
    t2: int,
    b2: int,
    b: int,
    beta_sq: int,
)
    requires
        1 <= r,
        1 <= k,
        1 <= d,
        1 <= t1,
        0 <= b1,
        1 <= t2,
        0 <= b2,
        2 <= b,
        1 <= beta_sq,
    ensures
        next_norm_num(r, k, d, t1, b1, t2, b2, b, beta_sq) >= 639 * d * beta_sq,
        next_norm_den(b) == 288 * b * b,
{
    let tt = crate::symmetric::tri(r);
    crate::symmetric::lemma_tri_monotonic(0, r);
    assert(tt >= 0);
    let gamma1 = b1 * b1 * t1 * r * k * d + b2 * b2 * t2 * tt * d;
    let gamma2 = b1 * b1 * t1 * tt * d;
    assert(b1 * b1 * t1 * r * k * d >= 0) by (nonlinear_arith)
        requires
            1 <= r,
            1 <= k,
            1 <= d,
            1 <= t1,
            0 <= b1,
    ;
    assert(b2 * b2 * t2 * tt * d >= 0) by (nonlinear_arith)
        requires
            1 <= d,
            1 <= t2,
            0 <= b2,
            0 <= tt,
    ;
    assert(b1 * b1 * t1 * tt * d >= 0) by (nonlinear_arith)
        requires
            1 <= d,
            1 <= t1,
            0 <= b1,
            0 <= tt,
    ;
    assert(2 * (b * b) * gamma1 * gamma2 >= 0) by (nonlinear_arith)
        requires
            2 <= b,
            0 <= gamma1,
            0 <= gamma2,
    ;
}

/// Two root floors for one bracket agree.
proof fn lemma_root_floor_unique(x1: int, x2: int, t: nat, num: int, den: int)
    requires
        root_floor_ok(x1, t, num, den),
        root_floor_ok(x2, t, num, den),
        den >= 1,
    ensures
        x1 == x2,
{
    if x1 < x2 {
        crate::derive::lemma_pow_int_base_monotonic(x1 + 1, x2, t);
        assert(den * pow_int(x1 + 1, t) <= den * pow_int(x2, t)) by (nonlinear_arith)
            requires
                den >= 1,
                pow_int(x1 + 1, t) <= pow_int(x2, t),
        ;
    }
    if x2 < x1 {
        crate::derive::lemma_pow_int_base_monotonic(x2 + 1, x1, t);
        assert(den * pow_int(x2 + 1, t) <= den * pow_int(x1, t)) by (nonlinear_arith)
            requires
                den >= 1,
                pow_int(x2 + 1, t) <= pow_int(x1, t),
        ;
    }
}

/// Two main-base floors agree.
proof fn lemma_main_floor_unique(x1: int, x2: int, n: int, beta_sq: int)
    requires
        main_base_floor(x1, n, beta_sq),
        main_base_floor(x2, n, beta_sq),
        n >= 1,
    ensures
        x1 == x2,
{
    assert(root_floor_ok(x1, 4, 213 * beta_sq, 16 * n)) by {
        lemma_main_to_root(x1, n, beta_sq);
    }
    assert(root_floor_ok(x2, 4, 213 * beta_sq, 16 * n)) by {
        lemma_main_to_root(x2, n, beta_sq);
    }
    assert(16 * n >= 1) by (nonlinear_arith)
        requires
            n >= 1,
    ;
    lemma_root_floor_unique(x1, x2, 4, 213 * beta_sq, 16 * n);
}

proof fn lemma_main_to_root(x: int, n: int, beta_sq: int)
    requires
        main_base_floor(x, n, beta_sq),
    ensures
        root_floor_ok(x, 4, 213 * beta_sq, 16 * n),
{
    assert((16 * n) * pow_int(x, 4) == 16 * n * pow_int(x, 4)) by (nonlinear_arith);
    assert((16 * n) * pow_int(x + 1, 4) == 16 * n * pow_int(x + 1, 4)) by (nonlinear_arith);
}

/// Two rounded logarithms for one bracket agree.
proof fn lemma_log_round_unique(t1: int, t2: int, b: int, num: int, den: int)
    requires
        log_round_ok(t1, b, num, den),
        log_round_ok(t2, b, num, den),
        b >= 1,
        den >= 1,
    ensures
        t1 == t2,
{
    if t1 < t2 {
        crate::derive::lemma_pow_int_exp_monotonic(b, (2 * t1 + 1) as nat, (2 * t2 - 1) as nat);
        assert(den * pow_int(b, (2 * t1 + 1) as nat) <= den * pow_int(b, (2 * t2 - 1) as nat))
            by (nonlinear_arith)
            requires
                den >= 1,
                pow_int(b, (2 * t1 + 1) as nat) <= pow_int(b, (2 * t2 - 1) as nat),
        ;
    }
    if t2 < t1 {
        crate::derive::lemma_pow_int_exp_monotonic(b, (2 * t2 + 1) as nat, (2 * t1 - 1) as nat);
        assert(den * pow_int(b, (2 * t2 + 1) as nat) <= den * pow_int(b, (2 * t1 - 1) as nat))
            by (nonlinear_arith)
            requires
                den >= 1,
                pow_int(b, (2 * t2 + 1) as nat) <= pow_int(b, (2 * t1 - 1) as nat),
        ;
    }
}

/// Two invocations of the parameter deriver with identical inputs and an
/// identical seed produce identical derived parameters and byte-identical
/// public matrices. The derived integers are pinned by their brackets, and
/// the matrices by the seeded sponge, so the two reference strings agree.
pub proof fn lemma_parameter_derivation_deterministic(
    c1: CommonReferenceString,
    c2: CommonReferenceString,
    seed: Seq<u8>,
)
    requires
        c1.r == c2.r,
        c1.n == c2.n,
        c1.d == c2.d,
        c1.q == c2.q,
        c1.norm_bound_squared == c2.norm_bound_squared,
        c1.wf(),
        c2.wf(),
        c1.norm_bound_squared >= 1,
        derived_params_ok(c1),
        derived_params_ok(c2),
        matrices_pinned(c1, seed),
        matrices_pinned(c2, seed),
    ensures
        c1.b == c2.b,
        c1.t1 == c2.t1,
        c1.b1 == c2.b1,
        c1.t2 == c2.t2,
        c1.b2 == c2.b2,
        c1.num_aggregs == c2.num_aggregs,
        c1.k == c2.k && c1.k1 == c2.k1 && c1.k2 == c2.k2,
        mat_coeff_view(c1.a_mat@) == mat_coeff_view(c2.a_mat@),
        mat_coeff_view(c1.b_rows@) == mat_coeff_view(c2.b_rows@),
        mat_coeff_view(c1.c_rows@) == mat_coeff_view(c2.c_rows@),
        mat_coeff_view(c1.d_rows@) == mat_coeff_view(c2.d_rows@),
{
    let nn = c1.n as int;
    let bsq = c1.norm_bound_squared as int;
    let q = c1.q as int;
    let rr = c1.r as int;
    let dd = c1.d as int;
    // main base
    let x1 = choose|x: int|
        #[trigger] main_base_floor(x, nn, bsq) && round_to_odd_of(
            c1.b as int,
            x,
            16 * nn * pow_int(x, 4) == 213 * bsq,
        );
    let x2 = choose|x: int|
        #[trigger] main_base_floor(x, nn, bsq) && round_to_odd_of(
            c2.b as int,
            x,
            16 * nn * pow_int(x, 4) == 213 * bsq,
        );
    lemma_main_floor_unique(x1, x2, nn, bsq);
    assert(c1.b == c2.b);
    // t1
    lemma_log_round_unique(c1.t1 as int, c2.t1 as int, c1.b as int, q * q, 1);
    // b1
    let y1 = choose|x: int|
        #[trigger] root_floor_ok(x, c1.t1 as nat, q, 1) && round_to_odd_of(
            c1.b1 as int,
            x,
            pow_int(x, c1.t1 as nat) == q,
        );
    let y2 = choose|x: int|
        #[trigger] root_floor_ok(x, c2.t1 as nat, q, 1) && round_to_odd_of(
            c2.b1 as int,
            x,
            pow_int(x, c2.t1 as nat) == q,
        );
    lemma_root_floor_unique(y1, y2, c1.t1 as nat, q, 1);
    assert(c1.b1 == c2.b1);
    // t2
    assert(rr * rr * nn * dd >= 1) by (nonlinear_arith)
        requires
            rr >= 1,
            nn >= 1,
            dd >= 1,
    ;
    lemma_log_round_unique(c1.t2 as int, c2.t2 as int, c1.b as int, 24 * bsq, rr * rr * nn * dd);
    // b2
    let z1 = choose|x: int|
        #[trigger] root_floor_ok(x, (2 * c1.t2) as nat, 24 * bsq, rr * rr * nn * dd)
            && round_to_odd_of(
            c1.b2 as int,
            x,
            rr * rr * nn * dd * pow_int(x, (2 * c1.t2) as nat) == 24 * bsq,
        );
    let z2 = choose|x: int|
        #[trigger] root_floor_ok(x, (2 * c2.t2) as nat, 24 * bsq, rr * rr * nn * dd)
            && round_to_odd_of(
            c2.b2 as int,
            x,
            rr * rr * nn * dd * pow_int(x, (2 * c2.t2) as nat) == 24 * bsq,
        );
    lemma_root_floor_unique(z1, z2, (2 * c1.t2) as nat, 24 * bsq, rr * rr * nn * dd);
    assert((rr * rr * nn * dd) * pow_int(z1, (2 * c1.t2) as nat) == rr * rr * nn * dd * pow_int(
        z1,
        (2 * c1.t2) as nat,
    )) by (nonlinear_arith);
    assert(c1.b2 == c2.b2);
    // num_aggregs: both are the least exponent reaching 2^128
    if c1.num_aggregs < c2.num_aggregs {
        assert(1 <= c1.num_aggregs < c2.num_aggregs);
        assert(pow_int(q, c1.num_aggregs as nat) <= u128::MAX);
        assert(false);
    }
    if c2.num_aggregs < c1.num_aggregs {
        assert(1 <= c2.num_aggregs < c1.num_aggregs);
        assert(pow_int(q, c2.num_aggregs as nat) <= u128::MAX);
        assert(false);
    }
}

/// `1^e == 1`.
proof fn lemma_pow_ones()
    ensures
        pow_int(1, 4) == 1,
{
    reveal_with_fuel(pow_int, 5);
}

/// The triangle numbers of admitted shapes stay small.
proof fn lemma_tri_small(i: int)
    requires
        0 <= i <= 0xFFF,
    ensures
        crate::symmetric::tri(i) <= 0x80_0000,
{
    lemma_tri_closed_form(i);
    assert(i * (i + 1) <= 0xFFF * 0x1000) by (nonlinear_arith)
        requires
            0 <= i <= 0xFFF,
    ;
}

/// `2 tri(n) == n (n + 1)`.
pub proof fn lemma_tri_closed_form(n: int)
    requires
        0 <= n,
    ensures
        2 * crate::symmetric::tri(n) == n * (n + 1),
    decreases n,
{
    if n > 0 {
        lemma_tri_closed_form(n - 1);
        assert(crate::symmetric::tri(n) == crate::symmetric::tri(n - 1) + n);
        assert(2 * crate::symmetric::tri(n) == n * (n + 1)) by (nonlinear_arith)
            requires
                crate::symmetric::tri(n) == crate::symmetric::tri(n - 1) + n,
                2 * crate::symmetric::tri(n - 1) == (n - 1) * n,
        ;
    } else {
        assert(crate::symmetric::tri(0) == 0);
        assert(n * (n + 1) == 0) by (nonlinear_arith)
            requires
                n == 0,
        ;
    }
}

/// The rounded main base inherits the floor's smallness.
proof fn lemma_main_base_small(bv: int, n: int, beta_sq: int)
    requires
        main_base_of(bv, n, beta_sq),
        1 <= n,
        beta_sq < 0x10_0000_0000_0000_0000_0000_0000,
    ensures
        bv <= 0x800_0000,
{
    let x = choose|x: int|
        #[trigger] main_base_floor(x, n, beta_sq) && round_to_odd_of(
            bv,
            x,
            16 * n * pow_int(x, 4) == 213 * beta_sq,
        );
    lemma_main_floor_small(x, n, beta_sq);
}

/// Rounding a root floor stays at most one above the root, so it is small.
proof fn lemma_root_small(x: int, t: nat, v: int)
    requires
        root_floor_ok(x, t, v, 1),
        t >= 1,
        0 <= x,
        1 <= v,
    ensures
        x <= v,
{
    if x > v {
        crate::derive::lemma_pow_int_exp_monotonic(x, 1, t);
        assert(pow_int(x, 1) == x * pow_int(x, 0));
        assert(1 * pow_int(x, t) == pow_int(x, t)) by (nonlinear_arith);
    }
}

/// A scaled root floor with an even exponent at least 2 is bounded by the
/// square root of the quotient: `x * x <= num`.
proof fn lemma_scaled_root_sq_small(x: int, t: nat, num: int, den: int)
    requires
        root_floor_ok(x, t, num, den),
        t >= 2,
        0 <= x,
        1 <= den <= num,
    ensures
        x * x <= num,
{
    if x >= 1 {
        crate::derive::lemma_pow_int_exp_monotonic(x, 2, t);
        assert(pow_int(x, 2) == x * pow_int(x, 1));
        assert(pow_int(x, 1) == x * pow_int(x, 0));
        assert(pow_int(x, 2) == x * x) by (nonlinear_arith)
            requires
                pow_int(x, 2) == x * pow_int(x, 1),
                pow_int(x, 1) == x,
        ;
        assert(den * pow_int(x, t) >= 1 * pow_int(x, t)) by (nonlinear_arith)
            requires
                den >= 1,
                pow_int(x, t) >= 0,
        ;
        assert(1 * pow_int(x, t) == pow_int(x, t)) by (nonlinear_arith);
    } else {
        assert(x * x == 0) by (nonlinear_arith)
            requires
                x == 0,
        ;
    }
}

/// From the maximal exponent bracket to the rounded-logarithm bracket:
/// `den * b^e <= num < den * b^(e+1)` with `t = (e+1)/2` gives
/// `den * b^(2t-1) <= num < den * b^(2t+1)`.
proof fn lemma_log_round(e: int, t: int, b: int, num: int, den: int)
    requires
        e >= 1,
        b >= 2,
        den >= 1,
        t == (e + 1) / 2,
        den * pow_int(b, e as nat) <= num,
        den * pow_int(b, (e + 1) as nat) > num,
    ensures
        log_round_ok(t, b, num, den),
{
    assert(t >= 1);
    assert(2 * t - 1 <= e && e + 1 <= 2 * t + 1);
    crate::derive::lemma_pow_int_exp_monotonic(b, (2 * t - 1) as nat, e as nat);
    crate::derive::lemma_pow_int_exp_monotonic(b, (e + 1) as nat, (2 * t + 1) as nat);
    assert(den * pow_int(b, (2 * t - 1) as nat) <= den * pow_int(b, e as nat))
        by (nonlinear_arith)
        requires
            den >= 1,
            pow_int(b, (2 * t - 1) as nat) <= pow_int(b, e as nat),
    ;
    assert(den * pow_int(b, (2 * t + 1) as nat) >= den * pow_int(b, (e + 1) as nat))
        by (nonlinear_arith)
        requires
            den >= 1,
            pow_int(b, (2 * t + 1) as nat) >= pow_int(b, (e + 1) as nat),
    ;
}

} // verus!
