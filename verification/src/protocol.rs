//! The principal-relation argument: the honest prover and the replaying
//! verifier, bound together by the fixed transcript pattern.
//!
//! The interaction follows the ten ordered steps of the pattern: the
//! prover absorbs its commitment, the projection vector, the aggregated
//! responses and the garbage commitment, and squeezes the projection
//! matrices, the aggregation scalars and the aggregation and opening
//! challenges in between. The verifier replays exactly the same sequence
//! from the proof data, recomputes the constant-coefficient checks of the
//! aggregated responses, and derives the reduced instance through the same
//! aggregation the prover uses, so an honest run leaves both parties with
//! identical reduced instances.

use vstd::prelude::*;

use crate::challenge::{MainChallengeSet, WeightedTernaryChallengeSet};
use crate::crs::CommonReferenceString;
use crate::linalg::{dot, mat_vec_mul, vec_add, vec_scale_elem, vec_scale_scalar, vec_wf};
use crate::relation::{PrincipalRelation, QuadDotProdFunction, Witness, witness_wf};
use crate::ring::{COEFF_ENCODE_BYTES, COEFF_SAMPLE_BYTES, D_MAX, RingElement};
use crate::sponge::Sponge;
use crate::symmetric::SymmetricMatrix;
use crate::transcript::{Label, ProverTranscript, VerifierTranscript, encode_ring_vec};
use crate::zq::{Q_MAX, Zq};

verus! {

/// The number of projection rows of the second step.
pub const NUM_PROJECTIONS: usize = 256;

/// The domain word of the principal-relation argument.
pub const PROTOCOL_DOMAIN: u64 = 0x1ab;

/// Why a prove or verify call ended without a result.
#[derive(Clone, Copy, Debug, PartialEq, Eq, Structural)]
pub enum ProtocolError {
    /// The witness does not have the reference string's shape or exceeds
    /// its norm bound.
    BadWitness,
    /// The proof data ended before the pattern did.
    OutOfData,
    /// An absorbed message does not decode to canonical ring elements.
    Malformed,
    /// A recomputed check failed: the proof is rejected.
    Rejected,
}

/// The reference-string facts the protocol relies on: admitted ranges and
/// the fixed rank policy.
pub open spec fn crs_usable(crs: CommonReferenceString) -> bool {
    &&& crs.wf()
    &&& crs.k1 == crs.k2
    &&& crs.num_constant_constraints < 0x1000
    &&& crs.num_constraints < 0x1000
}

/// Take `len` bytes of `bytes` starting at `start`.
fn subvec(bytes: &Vec<u8>, start: usize, len: usize) -> (r: Vec<u8>)
    requires
        start + len <= bytes@.len(),
    ensures
        r@ == bytes@.subrange(start as int, start as int + len as int),
{
    let mut r: Vec<u8> = Vec::new();
    let bl = bytes.len();
    for i in 0..len
        invariant
            bl == bytes@.len(),
            start + len <= bl,
            r@.len() == i,
            r@ == bytes@.subrange(start as int, start as int + i as int),
    {
        r.push(bytes[start + i]);
        proof {
            assert(r@ =~= bytes@.subrange(start as int, start as int + i as int + 1));
        }
    }
    r
}

/// Parse `count` ternary-challenge ring elements from squeezed bytes, one
/// byte per coefficient.
fn ternary_elems_from_bytes(q: u64, d: usize, count: usize, bytes: &Vec<u8>) -> (r: Vec<
    RingElement,
>)
    requires
        2 <= q <= Q_MAX,
        1 <= d <= D_MAX,
        bytes@.len() == count * d,
    ensures
        r@.len() == count,
        vec_wf(r@, q as int, d as int),
        forall|t: int, c: int|
            #![trigger r@[t].coeffs()[c]]
            0 <= t < count && 0 <= c < d ==> r@[t].coeffs()[c]
                == crate::challenge::ternary_of_byte(bytes@[t * d + c], q as int),
{
    let mut r: Vec<RingElement> = Vec::new();
    let mut pos: usize = 0;
    let bl = bytes.len();
    let mut i: usize = 0;
    while i < count
        invariant
            2 <= q <= Q_MAX,
            1 <= d <= D_MAX,
            bl == bytes@.len(),
            bytes@.len() == count * d,
            i <= count,
            pos as int == (i as int) * (d as int),
            r@.len() == i,
            vec_wf(r@, q as int, d as int),
            forall|t: int, c: int|
                #![trigger r@[t].coeffs()[c]]
                0 <= t < i && 0 <= c < d ==> r@[t].coeffs()[c]
                    == crate::challenge::ternary_of_byte(bytes@[t * d + c], q as int),
        decreases count - i,
    {
        proof {
            assert((i as int + 1) * (d as int) <= (count as int) * (d as int) && 0 <= (i as int)
                * (d as int) && (i as int) * (d as int) + (d as int) == (i as int + 1) * (
            d as int)) by (nonlinear_arith)
                requires
                    0 <= (i as int) < (count as int),
                    0 <= (d as int),
            ;
        }
        let chunk = subvec(bytes, pos, d);
        let opt = WeightedTernaryChallengeSet::try_from_random_bytes(q, d, &chunk);
        proof {
            assert(opt is Some);
        }
        let e = opt.unwrap();
        proof {
            assert forall|c: int| 0 <= c < d implies e.coeffs()[c]
                == crate::challenge::ternary_of_byte(
                bytes@[(i as int) * (d as int) + c],
                q as int,
            ) by {
                assert(chunk@[c] == bytes@[(i as int) * (d as int) + c]);
            }
        }
        r.push(e);
        pos = pos + d;
        i = i + 1;
    }
    r
}

/// Parse `count` wide-challenge ring elements from squeezed bytes, one
/// byte per coefficient.
fn wide_elems_from_bytes(q: u64, d: usize, count: usize, bytes: &Vec<u8>) -> (r: Vec<RingElement>)
    requires
        5 <= q <= Q_MAX,
        1 <= d <= D_MAX,
        bytes@.len() == count * d,
    ensures
        r@.len() == count,
        vec_wf(r@, q as int, d as int),
{
    let mut r: Vec<RingElement> = Vec::new();
    let mut pos: usize = 0;
    let bl = bytes.len();
    let mut i: usize = 0;
    while i < count
        invariant
            5 <= q <= Q_MAX,
            1 <= d <= D_MAX,
            bl == bytes@.len(),
            bytes@.len() == count * d,
            i <= count,
            pos as int == (i as int) * (d as int),
            r@.len() == i,
            vec_wf(r@, q as int, d as int),
        decreases count - i,
    {
        proof {
            assert((i as int + 1) * (d as int) <= (count as int) * (d as int) && 0 <= (i as int)
                * (d as int) && (i as int) * (d as int) + (d as int) == (i as int + 1) * (
            d as int)) by (nonlinear_arith)
                requires
                    0 <= (i as int) < (count as int),
                    0 <= (d as int),
            ;
        }
        let chunk = subvec(bytes, pos, d);
        let e = match MainChallengeSet::try_from_random_bytes(q, d, &chunk) {
            Some(e) => e,
            None => {
                proof {
                    assert(false);
                }
                RingElement::zero(q, d)
            },
        };
        r.push(e);
        pos = pos + d;
        i = i + 1;
    }
    r
}

/// Parse `count` uniform ring elements from squeezed bytes.
fn uniform_elems_from_bytes(q: u64, d: usize, count: usize, bytes: &Vec<u8>) -> (r: Vec<
    RingElement,
>)
    requires
        2 <= q <= Q_MAX,
        1 <= d <= D_MAX,
        d * COEFF_SAMPLE_BYTES <= 0x800_0000,
        bytes@.len() == count * (d * COEFF_SAMPLE_BYTES),
    ensures
        r@.len() == count,
        vec_wf(r@, q as int, d as int),
{
    let step = d * COEFF_SAMPLE_BYTES;
    let mut r: Vec<RingElement> = Vec::new();
    let mut pos: usize = 0;
    let bl = bytes.len();
    let mut i: usize = 0;
    while i < count
        invariant
            2 <= q <= Q_MAX,
            1 <= d <= D_MAX,
            step == d * COEFF_SAMPLE_BYTES,
            bl == bytes@.len(),
            bytes@.len() == count * step,
            i <= count,
            pos as int == (i as int) * (step as int),
            r@.len() == i,
            vec_wf(r@, q as int, d as int),
        decreases count - i,
    {
        proof {
            assert((i as int + 1) * (step as int) <= (count as int) * (step as int) && 0 <= (
            i as int) * (step as int) && (i as int) * (step as int) + (step as int) == (i as int
                + 1) * (step as int)) by (nonlinear_arith)
                requires
                    0 <= (i as int) < (count as int),
                    0 <= (step as int),
            ;
        }
        let chunk = subvec(bytes, pos, step);
        let e = RingElement::from_random_bytes(q, d, &chunk);
        r.push(e);
        pos = pos + step;
        i = i + 1;
    }
    r
}

/// Parse `count` uniform base-ring scalars from squeezed bytes, sixteen
/// bytes each.
fn uniform_scalars_from_bytes(q: u64, count: usize, bytes: &Vec<u8>) -> (r: Vec<Zq>)
    requires
        2 <= q <= Q_MAX,
        bytes@.len() == count * COEFF_SAMPLE_BYTES,
    ensures
        r@.len() == count,
        crate::linalg::zq_vec_wf(r@, q as int),
        forall|i: int|
            0 <= i < count ==> (#[trigger] r@[i]).val() == crate::ring::le_decode(
                bytes@.subrange(COEFF_SAMPLE_BYTES * i, COEFF_SAMPLE_BYTES * (i + 1)),
            ) % (q as int),
{
    let mut r: Vec<Zq> = Vec::new();
    let mut pos: usize = 0;
    let bl = bytes.len();
    let mut i: usize = 0;
    while i < count
        invariant
            2 <= q <= Q_MAX,
            bl == bytes@.len(),
            bytes@.len() == count * COEFF_SAMPLE_BYTES,
            i <= count,
            pos as int == (i as int) * (COEFF_SAMPLE_BYTES as int),
            r@.len() == i,
            crate::linalg::zq_vec_wf(r@, q as int),
            forall|u: int|
                0 <= u < i ==> (#[trigger] r@[u]).val() == crate::ring::le_decode(
                    bytes@.subrange(COEFF_SAMPLE_BYTES * u, COEFF_SAMPLE_BYTES * (u + 1)),
                ) % (q as int),
        decreases count - i,
    {
        proof {
            assert((i as int + 1) * (COEFF_SAMPLE_BYTES as int) <= (count as int) * (
            COEFF_SAMPLE_BYTES as int) && 0 <= (i as int) * (COEFF_SAMPLE_BYTES as int) && (
            i as int) * (COEFF_SAMPLE_BYTES as int) + COEFF_SAMPLE_BYTES == (i as int + 1) * (
            COEFF_SAMPLE_BYTES as int)) by (nonlinear_arith)
                requires
                    0 <= (i as int) < (count as int),
            ;
        }
        let chunk = subvec(bytes, pos, COEFF_SAMPLE_BYTES);
        let e = RingElement::from_random_bytes(q, 1, &chunk);
        proof {
            assert(chunk@.subrange(COEFF_SAMPLE_BYTES * 0, COEFF_SAMPLE_BYTES * (0 + 1))
                =~= bytes@.subrange(
                COEFF_SAMPLE_BYTES * (i as int),
                COEFF_SAMPLE_BYTES * (i as int + 1),
            ));
        }
        r.push(e.constant_coeff());
        pos = pos + COEFF_SAMPLE_BYTES;
        i = i + 1;
    }
    r
}

/// Split a flat vector of ring elements into `rows` rows of `cols`.
fn reshape_elems(v: Vec<RingElement>, rows: usize, cols: usize, q: u64, d: usize) -> (r: Vec<
    Vec<RingElement>,
>)
    requires
        v@.len() == rows * cols,
        vec_wf(v@, q as int, d as int),
    ensures
        r@.len() == rows,
        forall|i: int|
            0 <= i < rows ==> (#[trigger] r@[i])@.len() == cols && vec_wf(
                r@[i]@,
                q as int,
                d as int,
            ),
        forall|i: int, t: int|
            #![trigger r@[i]@[t]]
            0 <= i < rows && 0 <= t < cols ==> r@[i]@[t] == v@[i * cols + t],
{
    let mut r: Vec<Vec<RingElement>> = Vec::new();
    let mut v = v;
    let ghost ov = v@;
    let mut i: usize = 0;
    while i < rows
        invariant
            ov.len() == rows * cols,
            vec_wf(ov, q as int, d as int),
            i <= rows,
            v@ == ov.skip((i as int) * (cols as int)),
            r@.len() == i,
            forall|t: int|
                0 <= t < i ==> (#[trigger] r@[t])@.len() == cols && vec_wf(
                    r@[t]@,
                    q as int,
                    d as int,
                ),
            forall|u: int, t: int|
                #![trigger r@[u]@[t]]
                0 <= u < i && 0 <= t < cols ==> r@[u]@[t] == ov[u * cols + t],
        decreases rows - i,
    {
        proof {
            assert((i as int + 1) * (cols as int) <= (rows as int) * (cols as int) && 0 <= (
            i as int) * (cols as int) && (i as int) * (cols as int) + (cols as int) == (i as int
                + 1) * (cols as int)) by (nonlinear_arith)
                requires
                    0 <= (i as int) < (rows as int),
                    0 <= (cols as int),
            ;
        }
        let mut row: Vec<RingElement> = Vec::new();
        for t in 0..cols
            invariant
                ov.len() == rows * cols,
                vec_wf(ov, q as int, d as int),
                i < rows,
                (i as int) * (cols as int) + (cols as int) <= (rows as int) * (cols as int),
                v@ == ov.skip((i as int) * (cols as int) + t as int),
                row@.len() == t,
                forall|u: int| 0 <= u < t ==> #[trigger] row@[u] == ov[(i as int) * (cols as int) + u],
                vec_wf(row@, q as int, d as int),
        {
            proof {
                assert(v@.len() > 0);
                assert(ov[(i as int) * (cols as int) + t as int].wf());
            }
            let e = v.remove(0);
            proof {
                assert(e == ov[(i as int) * (cols as int) + t as int]);
                assert(v@ =~= ov.skip((i as int) * (cols as int) + t as int + 1));
            }
            row.push(e);
        }
        r.push(row);
        i = i + 1;
    }
    r
}

/// The byte length of an absorbed message of `count` ring elements.
pub open spec fn absorb_len(count: int, d: int) -> int {
    count * (d * COEFF_ENCODE_BYTES)
}

/// The byte chunk of element `i` in a concatenated canonical encoding.
pub open spec fn elem_chunk(bytes: Seq<u8>, d: int, i: int) -> Seq<u8> {
    bytes.subrange(i * (d * COEFF_ENCODE_BYTES), (i + 1) * (d * COEFF_ENCODE_BYTES))
}

/// Every coefficient of the chunk decodes below `q`.
pub open spec fn chunk_canonical(chunk: Seq<u8>, q: int, d: int) -> bool {
    forall|c: int|
        0 <= c < d ==> crate::ring::le_decode(
            #[trigger] chunk.subrange(COEFF_ENCODE_BYTES * c, COEFF_ENCODE_BYTES * (c + 1)),
        ) < q
}

/// Every element chunk of the segment is canonical.
pub open spec fn segment_canonical(bytes: Seq<u8>, q: int, d: int, count: int) -> bool {
    forall|i: int| 0 <= i < count ==> chunk_canonical(#[trigger] elem_chunk(bytes, d, i), q, d)
}

/// Decode `count` ring elements from absorbed proof bytes: exactly the
/// canonical encodings decode, and the decoded coefficients are pinned to
/// the bytes.
fn decode_ring_vec(q: u64, d: usize, count: usize, bytes: &Vec<u8>) -> (r: Option<
    Vec<RingElement>,
>)
    requires
        2 <= q <= Q_MAX,
        1 <= d <= D_MAX,
        bytes@.len() == count * (d * COEFF_ENCODE_BYTES),
    ensures
        match r {
            Some(v) => {
                &&& segment_canonical(bytes@, q as int, d as int, count as int)
                &&& v@.len() == count
                &&& vec_wf(v@, q as int, d as int)
                &&& forall|i: int, c: int|
                    #![trigger v@[i].coeffs()[c]]
                    0 <= i < count && 0 <= c < d ==> v@[i].coeffs()[c]
                        == crate::ring::le_decode(
                        elem_chunk(bytes@, d as int, i).subrange(
                            COEFF_ENCODE_BYTES * c,
                            COEFF_ENCODE_BYTES * (c + 1),
                        ),
                    )
            },
            None => !segment_canonical(bytes@, q as int, d as int, count as int),
        },
{
    let step = d * COEFF_ENCODE_BYTES;
    let mut r: Vec<RingElement> = Vec::new();
    let mut pos: usize = 0;
    let bl = bytes.len();
    let mut i: usize = 0;
    while i < count
        invariant
            2 <= q <= Q_MAX,
            1 <= d <= D_MAX,
            step == d * COEFF_ENCODE_BYTES,
            bl == bytes@.len(),
            bytes@.len() == count * step,
            i <= count,
            pos as int == (i as int) * (step as int),
            r@.len() == i,
            vec_wf(r@, q as int, d as int),
            forall|t: int|
                0 <= t < i ==> chunk_canonical(
                    #[trigger] elem_chunk(bytes@, d as int, t),
                    q as int,
                    d as int,
                ),
            forall|t: int, c: int|
                #![trigger r@[t].coeffs()[c]]
                0 <= t < i && 0 <= c < d ==> r@[t].coeffs()[c]
                    == crate::ring::le_decode(
                    elem_chunk(bytes@, d as int, t).subrange(
                        COEFF_ENCODE_BYTES * c,
                        COEFF_ENCODE_BYTES * (c + 1),
                    ),
                ),
        decreases count - i,
    {
        proof {
            assert((i as int + 1) * (step as int) <= (count as int) * (step as int) && 0 <= (
            i as int) * (step as int) && (i as int) * (step as int) + (step as int) == (i as int
                + 1) * (step as int)) by (nonlinear_arith)
                requires
                    0 <= (i as int) < (count as int),
                    0 <= (step as int),
            ;
        }
        let chunk = subvec(bytes, pos, step);
        proof {
            assert((step as int) == COEFF_ENCODE_BYTES * (d as int)) by (nonlinear_arith)
                requires
                    step as int == (d as int) * COEFF_ENCODE_BYTES,
            ;
            assert(chunk@ =~= elem_chunk(bytes@, d as int, i as int));
        }
        match RingElement::from_bytes(q, d, &chunk) {
            Some(e) => {
                proof {
                    assert forall|c: int| 0 <= c < d implies crate::ring::le_decode(
                        #[trigger] chunk@.subrange(
                            COEFF_ENCODE_BYTES * c,
                            COEFF_ENCODE_BYTES * (c + 1),
                        ),
                    ) < q by {
                        assert(e.coeffs()[c] == crate::ring::le_decode(
                            chunk@.subrange(
                                COEFF_ENCODE_BYTES * c,
                                COEFF_ENCODE_BYTES * (c + 1),
                            ),
                        ));
                    }
                    assert(chunk_canonical(chunk@, q as int, d as int));
                }
                r.push(e);
            },
            None => {
                proof {
                    assert(!chunk_canonical(
                        elem_chunk(bytes@, d as int, i as int),
                        q as int,
                        d as int,
                    ));
                }
                return None;
            },
        }
        pos = pos + step;
        i = i + 1;
    }
    Some(r)
}

/// The ring-valued evaluations of the instance's constant constraints
/// against the witness, with a shared inner-product matrix.
fn constant_evaluations(
    crs: &CommonReferenceString,
    instance: &PrincipalRelation,
    witness: &Witness,
) -> (r: Vec<RingElement>)
    requires
        crs_usable(*crs),
        instance.wf(crs.r as int, crs.n as int, crs.q as int, crs.d as int),
        witness_wf(*witness, crs.r as int, crs.n as int, crs.q as int, crs.d as int),
        instance.ct_quad_dot_prod_funcs@.len() == crs.num_constant_constraints,
    ensures
        r@.len() == crs.num_constant_constraints,
        vec_wf(r@, crs.q as int, crs.d as int),
        forall|l: int|
            0 <= l < crs.num_constant_constraints ==> (#[trigger] r@[l]).coeffs()
                == instance.ct_quad_dot_prod_funcs@[l].spec_eval(
                witness.s@,
                crs.r as int,
                crs.n as int,
                crs.q as int,
                crs.d as int,
            ),
{
    let gram = crate::linalg::inner_products(crs.q, crs.d, &witness.s, crs.n);
    let nc = instance.ct_quad_dot_prod_funcs.len();
    let mut r: Vec<RingElement> = Vec::new();
    for l in 0..nc
        invariant
            crs_usable(*crs),
            instance.wf(crs.r as int, crs.n as int, crs.q as int, crs.d as int),
            witness_wf(*witness, crs.r as int, crs.n as int, crs.q as int, crs.d as int),
            nc == instance.ct_quad_dot_prod_funcs@.len(),
            gram.wf(),
            gram.spec_size() == crs.r,
            forall|a: int, b: int|
                0 <= b <= a < crs.r ==> (#[trigger] gram.entry(a, b)).coeffs()
                    == crate::linalg::spec_inner_products(
                    witness.s@,
                    witness.s@,
                    crs.q as int,
                    crs.d as int,
                    crs.n as nat,
                    a,
                    b,
                ) && gram.entry(a, b).wf() && gram.entry(a, b).modulus() == crs.q && gram.entry(
                    a,
                    b,
                ).dim() == crs.d,
            r@.len() == l,
            vec_wf(r@, crs.q as int, crs.d as int),
            forall|u: int|
                0 <= u < l ==> (#[trigger] r@[u]).coeffs()
                    == instance.ct_quad_dot_prod_funcs@[u].spec_eval(
                    witness.s@,
                    crs.r as int,
                    crs.n as int,
                    crs.q as int,
                    crs.d as int,
                ),
    {
        let e = instance.ct_quad_dot_prod_funcs[l].eval_with_gram(
            &witness.s,
            &gram,
            crs.r,
            crs.n,
            crs.q,
            crs.d,
        );
        r.push(e);
    }
    r
}

/// The aggregated responses: for each aggregation index `k`, the linear
/// combination `sum_l psi[k][l] E_l + sum_j omega[k][j] p_j` of the
/// constant-constraint evaluations and the projections.
fn aggregate_responses(
    q: u64,
    d: usize,
    evals: &Vec<RingElement>,
    p: &Vec<RingElement>,
    psi: &Vec<Vec<Zq>>,
    omega: &Vec<Vec<Zq>>,
    num_aggregs: usize,
) -> (r: Vec<RingElement>)
    requires
        2 <= q <= Q_MAX,
        1 <= d <= D_MAX,
        vec_wf(evals@, q as int, d as int),
        vec_wf(p@, q as int, d as int),
        psi@.len() == num_aggregs,
        omega@.len() == num_aggregs,
        forall|k: int|
            0 <= k < num_aggregs ==> (#[trigger] psi@[k])@.len() == evals@.len()
                && crate::linalg::zq_vec_wf(psi@[k]@, q as int),
        forall|k: int|
            0 <= k < num_aggregs ==> (#[trigger] omega@[k])@.len() == p@.len()
                && crate::linalg::zq_vec_wf(omega@[k]@, q as int),
    ensures
        r@.len() == num_aggregs,
        vec_wf(r@, q as int, d as int),
        forall|k: int|
            0 <= k < num_aggregs ==> (#[trigger] r@[k]).coeffs() == scaled_sum_fold(
                p@,
                omega@[k]@,
                q as int,
                scaled_sum_fold(
                    evals@,
                    psi@[k]@,
                    q as int,
                    crate::linalg::zero_poly(d as int),
                    evals@.len(),
                ),
                p@.len(),
            ),
{
    let mut r: Vec<RingElement> = Vec::new();
    for k in 0..num_aggregs
        invariant
            2 <= q <= Q_MAX,
            1 <= d <= D_MAX,
            vec_wf(evals@, q as int, d as int),
            vec_wf(p@, q as int, d as int),
            psi@.len() == num_aggregs,
            omega@.len() == num_aggregs,
            forall|t: int|
                0 <= t < num_aggregs ==> (#[trigger] psi@[t])@.len() == evals@.len()
                    && crate::linalg::zq_vec_wf(psi@[t]@, q as int),
            forall|t: int|
                0 <= t < num_aggregs ==> (#[trigger] omega@[t])@.len() == p@.len()
                    && crate::linalg::zq_vec_wf(omega@[t]@, q as int),
            r@.len() == k,
            vec_wf(r@, q as int, d as int),
            forall|u: int|
                0 <= u < k ==> (#[trigger] r@[u]).coeffs() == scaled_sum_fold(
                    p@,
                    omega@[u]@,
                    q as int,
                    scaled_sum_fold(
                        evals@,
                        psi@[u]@,
                        q as int,
                        crate::linalg::zero_poly(d as int),
                        evals@.len(),
                    ),
                    p@.len(),
                ),
    {
        let mut acc = RingElement::zero(q, d);
        proof {
            assert(acc.coeffs() =~= crate::linalg::zero_poly(d as int));
        }
        let ne = evals.len();
        for l in 0..ne
            invariant
                2 <= q <= Q_MAX,
                1 <= d <= D_MAX,
                k < num_aggregs,
                ne == evals@.len(),
                vec_wf(evals@, q as int, d as int),
                psi@.len() == num_aggregs,
                (#[trigger] psi@[k as int])@.len() == evals@.len(),
                crate::linalg::zq_vec_wf(psi@[k as int]@, q as int),
                acc.wf(),
                acc.modulus() == q,
                acc.dim() == d,
                acc.coeffs() == scaled_sum_fold(
                    evals@,
                    psi@[k as int]@,
                    q as int,
                    crate::linalg::zero_poly(d as int),
                    l as nat,
                ),
        {
            let scaled = evals[l].scalar_mul(&psi[k][l]);
            let acc2 = acc.add(&scaled);
            proof {
                assert(acc2.coeffs() =~= scaled_sum_fold(
                    evals@,
                    psi@[k as int]@,
                    q as int,
                    crate::linalg::zero_poly(d as int),
                    (l + 1) as nat,
                ));
            }
            acc = acc2;
        }
        let ghost base = acc.coeffs();
        let np = p.len();
        for j in 0..np
            invariant
                2 <= q <= Q_MAX,
                1 <= d <= D_MAX,
                k < num_aggregs,
                np == p@.len(),
                vec_wf(p@, q as int, d as int),
                omega@.len() == num_aggregs,
                (#[trigger] omega@[k as int])@.len() == p@.len(),
                crate::linalg::zq_vec_wf(omega@[k as int]@, q as int),
                acc.wf(),
                acc.modulus() == q,
                acc.dim() == d,
                acc.coeffs() == scaled_sum_fold(p@, omega@[k as int]@, q as int, base, j as nat),
        {
            let scaled = p[j].scalar_mul(&omega[k][j]);
            let acc2 = acc.add(&scaled);
            proof {
                assert(acc2.coeffs() =~= scaled_sum_fold(
                    p@,
                    omega@[k as int]@,
                    q as int,
                    base,
                    (j + 1) as nat,
                ));
            }
            acc = acc2;
        }
        r.push(acc);
    }
    r
}

/// The reduced instance both parties derive: one quadratic constraint
/// aggregating the instance's constraints and the transcript's challenges,
/// with no constant constraints left.
fn aggregate_instance(
    crs: &CommonReferenceString,
    instance: &PrincipalRelation,
    pi: &Vec<Vec<Vec<RingElement>>>,
    psi: &Vec<Vec<Zq>>,
    omega: &Vec<Vec<Zq>>,
    bpp: &Vec<RingElement>,
    alpha: &Vec<RingElement>,
    beta: &Vec<RingElement>,
) -> (out: PrincipalRelation)
    requires
        crs_usable(*crs),
        instance.wf(crs.r as int, crs.n as int, crs.q as int, crs.d as int),
        instance.quad_dot_prod_funcs@.len() == crs.num_constraints,
        instance.ct_quad_dot_prod_funcs@.len() == crs.num_constant_constraints,
        pi@.len() == NUM_PROJECTIONS,
        forall|j: int|
            0 <= j < NUM_PROJECTIONS ==> (#[trigger] pi@[j])@.len() == crs.r && forall|i: int|
                0 <= i < crs.r ==> (#[trigger] pi@[j]@[i])@.len() == crs.n && vec_wf(
                    pi@[j]@[i]@,
                    crs.q as int,
                    crs.d as int,
                ),
        psi@.len() == crs.num_aggregs,
        omega@.len() == crs.num_aggregs,
        forall|k: int|
            0 <= k < crs.num_aggregs ==> (#[trigger] psi@[k])@.len()
                == crs.num_constant_constraints && crate::linalg::zq_vec_wf(
                psi@[k]@,
                crs.q as int,
            ),
        forall|k: int|
            0 <= k < crs.num_aggregs ==> (#[trigger] omega@[k])@.len() == NUM_PROJECTIONS
                && crate::linalg::zq_vec_wf(omega@[k]@, crs.q as int),
        bpp@.len() == crs.num_aggregs,
        vec_wf(bpp@, crs.q as int, crs.d as int),
        alpha@.len() == crs.num_constraints,
        vec_wf(alpha@, crs.q as int, crs.d as int),
        beta@.len() == crs.num_aggregs,
        vec_wf(beta@, crs.q as int, crs.d as int),
    ensures
        out.wf(crs.r as int, crs.n as int, crs.q as int, crs.d as int),
        out.quad_dot_prod_funcs@.len() == 1,
        out.ct_quad_dot_prod_funcs@.len() == 0,
{
    let q = crs.q;
    let d = crs.d;
    let r = crs.r;
    let n = crs.n;
    let nc = instance.quad_dot_prod_funcs.len();
    let na = crs.num_aggregs;
    let nct = instance.ct_quad_dot_prod_funcs.len();
    // Quadratic part: packed lower triangle.
    let mut a_rows: Vec<Vec<RingElement>> = Vec::new();
    for i in 0..r
        invariant
            crs_usable(*crs),
            q == crs.q,
            d == crs.d,
            r == crs.r,
            n == crs.n,
            nc == instance.quad_dot_prod_funcs@.len() == crs.num_constraints,
            nct == instance.ct_quad_dot_prod_funcs@.len() == crs.num_constant_constraints,
            na == crs.num_aggregs,
            instance.wf(crs.r as int, crs.n as int, crs.q as int, crs.d as int),
            psi@.len() == crs.num_aggregs,
            forall|k: int|
                0 <= k < crs.num_aggregs ==> (#[trigger] psi@[k])@.len()
                    == crs.num_constant_constraints && crate::linalg::zq_vec_wf(
                    psi@[k]@,
                    crs.q as int,
                ),
            alpha@.len() == crs.num_constraints,
            vec_wf(alpha@, crs.q as int, crs.d as int),
            beta@.len() == crs.num_aggregs,
            vec_wf(beta@, crs.q as int, crs.d as int),
            a_rows@.len() == i,
            forall|t: int|
                0 <= t < i ==> (#[trigger] a_rows@[t])@.len() == t + 1 && vec_wf(
                    a_rows@[t]@,
                    q as int,
                    d as int,
                ),
    {
        let mut row: Vec<RingElement> = Vec::new();
        let end = i + 1;
        for j in 0..end
            invariant
                crs_usable(*crs),
                q == crs.q,
                d == crs.d,
                r == crs.r,
                n == crs.n,
                end == i + 1,
                i < r,
                nc == instance.quad_dot_prod_funcs@.len() == crs.num_constraints,
                nct == instance.ct_quad_dot_prod_funcs@.len() == crs.num_constant_constraints,
                na == crs.num_aggregs,
                instance.wf(crs.r as int, crs.n as int, crs.q as int, crs.d as int),
                psi@.len() == crs.num_aggregs,
                forall|k: int|
                    0 <= k < crs.num_aggregs ==> (#[trigger] psi@[k])@.len()
                        == crs.num_constant_constraints && crate::linalg::zq_vec_wf(
                        psi@[k]@,
                        crs.q as int,
                    ),
                alpha@.len() == crs.num_constraints,
                vec_wf(alpha@, crs.q as int, crs.d as int),
                beta@.len() == crs.num_aggregs,
                vec_wf(beta@, crs.q as int, crs.d as int),
                row@.len() == j,
                vec_wf(row@, q as int, d as int),
        {
            let mut cell = RingElement::zero(q, d);
            for l in 0..nc
                invariant
                    crs_usable(*crs),
                    q == crs.q,
                    d == crs.d,
                    r == crs.r,
                    i < r,
                    j < r,
                    nc == instance.quad_dot_prod_funcs@.len(),
                    instance.wf(crs.r as int, crs.n as int, crs.q as int, crs.d as int),
                    alpha@.len() == nc,
                    vec_wf(alpha@, crs.q as int, crs.d as int),
                    cell.wf(),
                    cell.modulus() == q,
                    cell.dim() == d,
            {
                match instance.quad_dot_prod_funcs[l].a() {
                    Some(m) => {
                        let entry = m.at(i, j);
                        let scaled = alpha[l].mul(entry);
                        cell = cell.add(&scaled);
                    },
                    None => {},
                }
            }
            for k in 0..na
                invariant
                    crs_usable(*crs),
                    q == crs.q,
                    d == crs.d,
                    r == crs.r,
                    i < r,
                    j < r,
                    nct == instance.ct_quad_dot_prod_funcs@.len(),
                    na == crs.num_aggregs,
                    instance.wf(crs.r as int, crs.n as int, crs.q as int, crs.d as int),
                    psi@.len() == na,
                    forall|t: int|
                        0 <= t < na ==> (#[trigger] psi@[t])@.len() == nct
                            && crate::linalg::zq_vec_wf(psi@[t]@, q as int),
                    beta@.len() == na,
                    vec_wf(beta@, crs.q as int, crs.d as int),
                    cell.wf(),
                    cell.modulus() == q,
                    cell.dim() == d,
            {
                for l in 0..nct
                    invariant
                        crs_usable(*crs),
                        q == crs.q,
                        d == crs.d,
                        r == crs.r,
                        i < r,
                        j < r,
                        k < na,
                        nct == instance.ct_quad_dot_prod_funcs@.len(),
                        instance.wf(crs.r as int, crs.n as int, crs.q as int, crs.d as int),
                        psi@.len() == na,
                        (#[trigger] psi@[k as int])@.len() == nct,
                        crate::linalg::zq_vec_wf(psi@[k as int]@, q as int),
                        beta@.len() == na,
                        vec_wf(beta@, crs.q as int, crs.d as int),
                        cell.wf(),
                        cell.modulus() == q,
                        cell.dim() == d,
                {
                    match instance.ct_quad_dot_prod_funcs[l].a() {
                        Some(m) => {
                            let entry = m.at(i, j);
                            let scaled = entry.scalar_mul(&psi[k][l]);
                            let scaled2 = beta[k].mul(&scaled);
                            cell = cell.add(&scaled2);
                        },
                        None => {},
                    }
                }
            }
            row.push(cell);
        }
        a_rows.push(row);
    }
    proof {
        assert(crate::symmetric::is_triangular(crate::symmetric::rows_view(a_rows@)));
    }
    let a_mat = SymmetricMatrix::from_triangular_rows(a_rows);
    // Linear part.
    let mut phi_out: Vec<Vec<RingElement>> = Vec::new();
    for i in 0..r
        invariant
            crs_usable(*crs),
            q == crs.q,
            d == crs.d,
            r == crs.r,
            n == crs.n,
            nc == instance.quad_dot_prod_funcs@.len() == crs.num_constraints,
            nct == instance.ct_quad_dot_prod_funcs@.len() == crs.num_constant_constraints,
            na == crs.num_aggregs,
            instance.wf(crs.r as int, crs.n as int, crs.q as int, crs.d as int),
            pi@.len() == NUM_PROJECTIONS,
            forall|j: int|
                0 <= j < NUM_PROJECTIONS ==> (#[trigger] pi@[j])@.len() == crs.r && forall|
                    t: int,
                |
                    0 <= t < crs.r ==> (#[trigger] pi@[j]@[t])@.len() == crs.n && vec_wf(
                        pi@[j]@[t]@,
                        crs.q as int,
                        crs.d as int,
                    ),
            psi@.len() == crs.num_aggregs,
            forall|k: int|
                0 <= k < crs.num_aggregs ==> (#[trigger] psi@[k])@.len()
                    == crs.num_constant_constraints && crate::linalg::zq_vec_wf(
                    psi@[k]@,
                    crs.q as int,
                ),
            omega@.len() == crs.num_aggregs,
            forall|k: int|
                0 <= k < crs.num_aggregs ==> (#[trigger] omega@[k])@.len() == NUM_PROJECTIONS
                    && crate::linalg::zq_vec_wf(omega@[k]@, crs.q as int),
            alpha@.len() == crs.num_constraints,
            vec_wf(alpha@, crs.q as int, crs.d as int),
            beta@.len() == crs.num_aggregs,
            vec_wf(beta@, crs.q as int, crs.d as int),
            phi_out@.len() == i,
            forall|t: int|
                0 <= t < i ==> (#[trigger] phi_out@[t])@.len() == n && vec_wf(
                    phi_out@[t]@,
                    q as int,
                    d as int,
                ),
    {
        let mut acc: Vec<RingElement> = Vec::new();
        for t in 0..n
            invariant
                2 <= q <= Q_MAX,
                1 <= d <= D_MAX,
                acc@.len() == t,
                vec_wf(acc@, q as int, d as int),
        {
            acc.push(RingElement::zero(q, d));
        }
        for l in 0..nc
            invariant
                crs_usable(*crs),
                q == crs.q,
                d == crs.d,
                r == crs.r,
                n == crs.n,
                i < r,
                nc == instance.quad_dot_prod_funcs@.len(),
                instance.wf(crs.r as int, crs.n as int, crs.q as int, crs.d as int),
                alpha@.len() == nc,
                vec_wf(alpha@, crs.q as int, crs.d as int),
                acc@.len() == n,
                vec_wf(acc@, q as int, d as int),
        {
            let c = &instance.quad_dot_prod_funcs[l];
            let scaled = vec_scale_elem(q, d, &alpha[l], &c.phi()[i]);
            acc = vec_add(q, d, &acc, &scaled);
        }
        for k in 0..na
            invariant
                crs_usable(*crs),
                q == crs.q,
                d == crs.d,
                r == crs.r,
                n == crs.n,
                i < r,
                nct == instance.ct_quad_dot_prod_funcs@.len(),
                na == crs.num_aggregs,
                instance.wf(crs.r as int, crs.n as int, crs.q as int, crs.d as int),
                pi@.len() == NUM_PROJECTIONS,
                forall|j: int|
                    0 <= j < NUM_PROJECTIONS ==> (#[trigger] pi@[j])@.len() == crs.r && forall|
                        t: int,
                    |
                        0 <= t < crs.r ==> (#[trigger] pi@[j]@[t])@.len() == crs.n && vec_wf(
                            pi@[j]@[t]@,
                            crs.q as int,
                            crs.d as int,
                        ),
                psi@.len() == na,
                forall|t: int|
                    0 <= t < na ==> (#[trigger] psi@[t])@.len() == nct
                        && crate::linalg::zq_vec_wf(psi@[t]@, q as int),
                omega@.len() == na,
                forall|t: int|
                    0 <= t < na ==> (#[trigger] omega@[t])@.len() == NUM_PROJECTIONS
                        && crate::linalg::zq_vec_wf(omega@[t]@, q as int),
                beta@.len() == na,
                vec_wf(beta@, crs.q as int, crs.d as int),
                acc@.len() == n,
                vec_wf(acc@, q as int, d as int),
        {
            // phi''_k[i] = sum_l psi[k][l] ct_phi_l[i] + sum_j omega[k][j] pi_j[i]
            let mut inner: Vec<RingElement> = Vec::new();
            for t in 0..n
                invariant
                    2 <= q <= Q_MAX,
                    1 <= d <= D_MAX,
                    inner@.len() == t,
                    vec_wf(inner@, q as int, d as int),
            {
                inner.push(RingElement::zero(q, d));
            }
            for l in 0..nct
                invariant
                    crs_usable(*crs),
                    q == crs.q,
                    d == crs.d,
                    n == crs.n,
                    r == crs.r,
                    i < r,
                    k < na,
                    nct == instance.ct_quad_dot_prod_funcs@.len(),
                    instance.wf(crs.r as int, crs.n as int, crs.q as int, crs.d as int),
                    psi@.len() == na,
                    (#[trigger] psi@[k as int])@.len() == nct,
                    crate::linalg::zq_vec_wf(psi@[k as int]@, q as int),
                    inner@.len() == n,
                    vec_wf(inner@, q as int, d as int),
            {
                let c = &instance.ct_quad_dot_prod_funcs[l];
                let scaled = vec_scale_scalar(q, d, &psi[k][l], &c.phi()[i]);
                inner = vec_add(q, d, &inner, &scaled);
            }
            for j in 0..NUM_PROJECTIONS
                invariant
                    crs_usable(*crs),
                    q == crs.q,
                    d == crs.d,
                    n == crs.n,
                    r == crs.r,
                    i < r,
                    k < na,
                    pi@.len() == NUM_PROJECTIONS,
                    forall|u: int|
                        0 <= u < NUM_PROJECTIONS ==> (#[trigger] pi@[u])@.len() == crs.r
                            && forall|t: int|
                            0 <= t < crs.r ==> (#[trigger] pi@[u]@[t])@.len() == crs.n
                                && vec_wf(pi@[u]@[t]@, crs.q as int, crs.d as int),
                    omega@.len() == na,
                    (#[trigger] omega@[k as int])@.len() == NUM_PROJECTIONS,
                    crate::linalg::zq_vec_wf(omega@[k as int]@, q as int),
                    inner@.len() == n,
                    vec_wf(inner@, q as int, d as int),
            {
                let scaled = vec_scale_scalar(q, d, &omega[k][j], &pi[j][i]);
                inner = vec_add(q, d, &inner, &scaled);
            }
            let scaled = vec_scale_elem(q, d, &beta[k], &inner);
            acc = vec_add(q, d, &acc, &scaled);
        }
        phi_out.push(acc);
    }
    // Target.
    let mut b_out = RingElement::zero(q, d);
    for l in 0..nc
        invariant
            crs_usable(*crs),
            q == crs.q,
            d == crs.d,
            r == crs.r,
            n == crs.n,
            nc == instance.quad_dot_prod_funcs@.len(),
            instance.wf(crs.r as int, crs.n as int, crs.q as int, crs.d as int),
            alpha@.len() == nc,
            vec_wf(alpha@, crs.q as int, crs.d as int),
            b_out.wf(),
            b_out.modulus() == q,
            b_out.dim() == d,
    {
        let c = &instance.quad_dot_prod_funcs[l];
        let scaled = alpha[l].mul(c.b());
        b_out = b_out.add(&scaled);
    }
    for k in 0..na
        invariant
            crs_usable(*crs),
            q == crs.q,
            d == crs.d,
            na == crs.num_aggregs,
            bpp@.len() == na,
            vec_wf(bpp@, crs.q as int, crs.d as int),
            beta@.len() == na,
            vec_wf(beta@, crs.q as int, crs.d as int),
            b_out.wf(),
            b_out.modulus() == q,
            b_out.dim() == d,
    {
        let scaled = beta[k].mul(&bpp[k]);
        b_out = b_out.add(&scaled);
    }
    let c_out = QuadDotProdFunction::from_parts_packed(a_mat, phi_out, b_out, r, n, q, d);
    let mut quads: Vec<QuadDotProdFunction> = Vec::new();
    quads.push(c_out);
    PrincipalRelation::new(quads, Vec::new())
}

/// The squeeze lengths of the ten-step pattern, in bytes, as functions of
/// the reference string and the instance counts.
pub open spec fn pi_squeeze_len(crs: CommonReferenceString) -> int {
    NUM_PROJECTIONS * (crs.r as int) * ((crs.n as int) * (crs.d as int))
}

pub open spec fn psi_squeeze_len(crs: CommonReferenceString) -> int {
    (crs.num_aggregs as int) * ((crs.num_constant_constraints as int) * COEFF_SAMPLE_BYTES)
}

pub open spec fn omega_squeeze_len(crs: CommonReferenceString) -> int {
    (crs.num_aggregs as int) * (NUM_PROJECTIONS * COEFF_SAMPLE_BYTES)
}

pub open spec fn alpha_squeeze_len(crs: CommonReferenceString) -> int {
    (crs.num_constraints as int) * ((crs.d as int) * COEFF_SAMPLE_BYTES)
}

pub open spec fn beta_squeeze_len(crs: CommonReferenceString) -> int {
    (crs.num_aggregs as int) * ((crs.d as int) * COEFF_SAMPLE_BYTES)
}

pub open spec fn opening_squeeze_len(crs: CommonReferenceString) -> int {
    (crs.r as int) * (crs.d as int)
}

/// The sponge state after the full ten-step pattern: the four labelled
/// prover absorbs with the given encodings, interleaved with the six
/// labelled squeezes of the fixed lengths, in the protocol's order.
/// The sponge state after the opening steps: the first commitment
/// absorbed, the projection matrices squeezed, the projection absorbed.
pub open spec fn state_after_commit(
    crs: CommonReferenceString,
    g0: Sponge,
    e1: Seq<u8>,
    e2: Seq<u8>,
) -> Sponge {
    let g1 = crate::transcript::spec_step_absorb(g0, Label::ProverMessage1, e1);
    let g2 = crate::sponge::spec_after_squeeze(
        crate::transcript::spec_step_squeeze_state(g1, Label::VerifierMessage1),
        pi_squeeze_len(crs) as nat,
    );
    crate::transcript::spec_step_absorb(g2, Label::ProverMessage2, e2)
}

pub open spec fn pattern_final_state(
    crs: CommonReferenceString,
    g0: Sponge,
    e1: Seq<u8>,
    e2: Seq<u8>,
    e3: Seq<u8>,
    e4: Seq<u8>,
) -> Sponge {
    let g3 = state_after_commit(crs, g0, e1, e2);
    let g4 = crate::sponge::spec_after_squeeze(
        crate::transcript::spec_step_squeeze_state(g3, Label::VerifierMessage2Psi),
        psi_squeeze_len(crs) as nat,
    );
    let g5 = crate::sponge::spec_after_squeeze(
        crate::transcript::spec_step_squeeze_state(g4, Label::VerifierMessage2Omega),
        omega_squeeze_len(crs) as nat,
    );
    let g6 = crate::transcript::spec_step_absorb(g5, Label::ProverMessage3, e3);
    let g7 = crate::sponge::spec_after_squeeze(
        crate::transcript::spec_step_squeeze_state(g6, Label::VerifierMessage3Alpha),
        alpha_squeeze_len(crs) as nat,
    );
    let g8 = crate::sponge::spec_after_squeeze(
        crate::transcript::spec_step_squeeze_state(g7, Label::VerifierMessage3Beta),
        beta_squeeze_len(crs) as nat,
    );
    let g9 = crate::transcript::spec_step_absorb(g8, Label::ProverMessage4, e4);
    crate::sponge::spec_after_squeeze(
        crate::transcript::spec_step_squeeze_state(g9, Label::VerifierMessage4),
        opening_squeeze_len(crs) as nat,
    )
}

/// The prover's transcript effect: the four absorbed messages are
/// well-formed ring vectors of the pattern's lengths, the proof data grew
/// by exactly their canonical encodings in order, and the sponge went
/// through the ten-step pattern.
pub open spec fn prover_transcript_shape(
    crs: CommonReferenceString,
    old_data: Seq<u8>,
    old_state: Sponge,
    new_data: Seq<u8>,
    new_state: Sponge,
    u1: Seq<RingElement>,
    p: Seq<RingElement>,
    bpp: Seq<RingElement>,
    u2: Seq<RingElement>,
) -> bool {
    let e1 = crate::transcript::spec_encode_ring_vec(u1, u1.len());
    let e2 = crate::transcript::spec_encode_ring_vec(p, p.len());
    let e3 = crate::transcript::spec_encode_ring_vec(bpp, bpp.len());
    let e4 = crate::transcript::spec_encode_ring_vec(u2, u2.len());
    &&& u1.len() == crs.k1
    &&& vec_wf(u1, crs.q as int, crs.d as int)
    &&& p.len() == NUM_PROJECTIONS
    &&& vec_wf(p, crs.q as int, crs.d as int)
    &&& bpp.len() == crs.num_aggregs
    &&& vec_wf(bpp, crs.q as int, crs.d as int)
    &&& u2.len() == crs.k2
    &&& vec_wf(u2, crs.q as int, crs.d as int)
    &&& new_data == old_data + e1 + e2 + e3 + e4
    &&& new_state == pattern_final_state(crs, old_state, e1, e2, e3, e4)
}

/// The coefficient rows of the `i`-th vector of the `j`-th projection
/// matrix, parsed from the squeezed bytes one ternary byte per
/// coefficient.
pub open spec fn pi_vec_coeffs(
    bytes: Seq<u8>,
    q: int,
    d: int,
    r: int,
    n: int,
    j: int,
    i: int,
) -> Seq<Seq<int>> {
    Seq::new(
        n as nat,
        |w: int|
            Seq::new(
                d as nat,
                |c: int|
                    crate::challenge::ternary_of_byte(bytes[((j * r + i) * n + w) * d + c], q),
            ),
    )
}

/// Every coefficient of the reshaped projection matrices equals its
/// ternary parse from the squeezed bytes.
pub open spec fn pi_matches(
    bytes: Seq<u8>,
    pi: Seq<Vec<Vec<RingElement>>>,
    q: int,
    d: int,
    r: int,
    n: int,
) -> bool {
    forall|j: int, i: int, w: int, c: int|
        #![trigger pi[j]@[i]@[w].coeffs()[c]]
        0 <= j < NUM_PROJECTIONS && 0 <= i < r && 0 <= w < n && 0 <= c < d
            ==> pi[j]@[i]@[w].coeffs()[c] == crate::challenge::ternary_of_byte(
            bytes[((j * r + i) * n + w) * d + c],
            q,
        )
}

/// The honest projection accumulator: the first `m` inner products
/// `<pi[j][i], s[i]>` folded left to right, reduced after each step.
pub open spec fn spec_projection_acc(
    bytes: Seq<u8>,
    s: Seq<Vec<RingElement>>,
    q: int,
    d: int,
    r: int,
    n: nat,
    j: int,
    m: nat,
) -> Seq<int>
    decreases m,
{
    if m == 0 {
        crate::linalg::zero_poly(d)
    } else {
        crate::ring::poly_reduce(
            crate::ring::poly_add(
                spec_projection_acc(bytes, s, q, d, r, n, j, (m - 1) as nat),
                crate::linalg::spec_dot(
                    pi_vec_coeffs(bytes, q, d, r, n as int, j, m - 1),
                    crate::linalg::coeff_view(s[m - 1]@),
                    q,
                    d,
                    n,
                ),
            ),
            q,
        )
    }
}

/// The honest projection message: each `p[j]` folds all `r` inner
/// products of the `j`-th projection matrix against the witness vectors,
/// with the matrices parsed from the bytes squeezed right after the first
/// commitment was absorbed.
pub open spec fn projection_honest(
    crs: CommonReferenceString,
    s: Seq<Vec<RingElement>>,
    g0: Sponge,
    u1: Seq<RingElement>,
    p: Seq<RingElement>,
) -> bool {
    let pi_bytes = crate::sponge::spec_squeeze_seq(
        crate::transcript::spec_step_squeeze_state(
            crate::transcript::spec_step_absorb(
                g0,
                Label::ProverMessage1,
                crate::transcript::spec_encode_ring_vec(u1, u1.len()),
            ),
            Label::VerifierMessage1,
        ),
        pi_squeeze_len(crs) as nat,
    );
    &&& p.len() == NUM_PROJECTIONS
    &&& forall|j: int|
        0 <= j < NUM_PROJECTIONS ==> (#[trigger] p[j]).coeffs() == spec_projection_acc(
            pi_bytes,
            s,
            crs.q as int,
            crs.d as int,
            crs.r as int,
            crs.n as nat,
            j,
            crs.r as nat,
        )
}

/// The aggregated-response accumulator over the constant-constraint
/// evaluations: the first `m` scaled evaluations folded left to right,
/// reduced after each step.
pub open spec fn response_eval_fold(
    instance: PrincipalRelation,
    s: Seq<Vec<RingElement>>,
    w: Seq<Zq>,
    r: int,
    n: int,
    q: int,
    d: int,
    m: nat,
) -> Seq<int>
    decreases m,
{
    if m == 0 {
        crate::linalg::zero_poly(d)
    } else {
        crate::ring::poly_reduce(
            crate::ring::poly_add(
                response_eval_fold(instance, s, w, r, n, q, d, (m - 1) as nat),
                crate::ring::poly_reduce(
                    crate::ring::poly_scale(
                        w[m - 1].val(),
                        instance.ct_quad_dot_prod_funcs[m - 1].spec_eval(s, r, n, q, d),
                    ),
                    q,
                ),
            ),
            q,
        )
    }
}

/// Scaled ring elements folded left to right onto `acc`, reduced after
/// each step.
pub open spec fn scaled_sum_fold(
    v: Seq<RingElement>,
    w: Seq<Zq>,
    q: int,
    acc: Seq<int>,
    m: nat,
) -> Seq<int>
    decreases m,
{
    if m == 0 {
        acc
    } else {
        crate::ring::poly_reduce(
            crate::ring::poly_add(
                scaled_sum_fold(v, w, q, acc, (m - 1) as nat),
                crate::ring::poly_reduce(crate::ring::poly_scale(w[m - 1].val(), v[m - 1].coeffs()), q),
            ),
            q,
        )
    }
}

/// Folding pinned evaluations is the same as folding the constraints'
/// own evaluations.
proof fn lemma_eval_fold_matches(
    instance: PrincipalRelation,
    s: Seq<Vec<RingElement>>,
    ev: Seq<RingElement>,
    w: Seq<Zq>,
    r: int,
    n: int,
    q: int,
    d: int,
    m: nat,
)
    requires
        forall|l: int|
            0 <= l < m ==> (#[trigger] ev[l]).coeffs()
                == instance.ct_quad_dot_prod_funcs[l].spec_eval(s, r, n, q, d),
    ensures
        scaled_sum_fold(ev, w, q, crate::linalg::zero_poly(d), m) == response_eval_fold(
            instance,
            s,
            w,
            r,
            n,
            q,
            d,
            m,
        ),
    decreases m,
{
    if m > 0 {
        lemma_eval_fold_matches(instance, s, ev, w, r, n, q, d, (m - 1) as nat);
    }
}

/// The honest aggregated responses: with the aggregation scalars parsed
/// from the bytes squeezed after the projection was absorbed, each
/// `bpp[k]` folds the scaled constant-constraint evaluations and the
/// scaled projections.
pub open spec fn responses_honest(
    crs: CommonReferenceString,
    instance: PrincipalRelation,
    s: Seq<Vec<RingElement>>,
    g0: Sponge,
    u1: Seq<RingElement>,
    p: Seq<RingElement>,
    bpp: Seq<RingElement>,
) -> bool {
    let g3 = state_after_commit(
        crs,
        g0,
        crate::transcript::spec_encode_ring_vec(u1, u1.len()),
        crate::transcript::spec_encode_ring_vec(p, p.len()),
    );
    let psi_bytes = crate::sponge::spec_squeeze_seq(
        crate::transcript::spec_step_squeeze_state(g3, Label::VerifierMessage2Psi),
        psi_squeeze_len(crs) as nat,
    );
    let g4 = crate::sponge::spec_after_squeeze(
        crate::transcript::spec_step_squeeze_state(g3, Label::VerifierMessage2Psi),
        psi_squeeze_len(crs) as nat,
    );
    let omega_bytes = crate::sponge::spec_squeeze_seq(
        crate::transcript::spec_step_squeeze_state(g4, Label::VerifierMessage2Omega),
        omega_squeeze_len(crs) as nat,
    );
    exists|psi: Seq<Vec<Zq>>, omega: Seq<Vec<Zq>>|
        {
            &&& #[trigger] scalar_rows_decoded(
                psi_bytes,
                crs.q as int,
                crs.num_aggregs as int,
                crs.num_constant_constraints as int,
                psi,
            )
            &&& #[trigger] scalar_rows_decoded(
                omega_bytes,
                crs.q as int,
                crs.num_aggregs as int,
                NUM_PROJECTIONS as int,
                omega,
            )
            &&& bpp.len() == crs.num_aggregs
            &&& forall|k: int|
                0 <= k < crs.num_aggregs ==> (#[trigger] bpp[k]).coeffs() == scaled_sum_fold(
                    p,
                    omega[k]@,
                    crs.q as int,
                    response_eval_fold(
                        instance,
                        s,
                        psi[k]@,
                        crs.r as int,
                        crs.n as int,
                        crs.q as int,
                        crs.d as int,
                        crs.num_constant_constraints as nat,
                    ),
                    NUM_PROJECTIONS as nat,
                )
        }
}

/// The shapes the prover and verifier require of the instance, given a
/// usable reference string.
pub open spec fn instance_matches(crs: CommonReferenceString, instance: PrincipalRelation) -> bool {
    &&& instance.wf(crs.r as int, crs.n as int, crs.q as int, crs.d as int)
    &&& instance.quad_dot_prod_funcs@.len() == crs.num_constraints
    &&& instance.ct_quad_dot_prod_funcs@.len() == crs.num_constant_constraints
}

/// Run the protocol's fixed challenge schedule on a prover transcript:
/// squeeze the projection matrices, the aggregation scalars, and the
/// aggregation and opening challenges around the given prover messages.
/// The byte budgets keep every squeeze length inside `usize`.
pub open spec fn squeeze_budget_ok(crs: CommonReferenceString) -> bool {
    &&& (crs.r as int) * (crs.n as int) * (crs.d as int) < 0x10_0000
    &&& (crs.d as int) * COEFF_SAMPLE_BYTES < 0x10_0000
    &&& (crs.num_constraints as int) * (crs.d as int) < 0x100_0000
}

/// The honest prover: commit, project, aggregate, commit the garbage
/// term, and hand back the reduced instance and witness for the next
/// recursion level. The witness is only read; the output witness is the
/// same family of vectors, now measured against the aggregated instance.
#[verifier::rlimit(60)]
pub fn prove_principal_relation(
    crs: &CommonReferenceString,
    instance: &PrincipalRelation,
    witness: Witness,
    t: &mut ProverTranscript,
) -> (res: Result<(PrincipalRelation, Witness), ProtocolError>)
    requires
        crs_usable(*crs),
        squeeze_budget_ok(*crs),
        instance_matches(*crs, *instance),
    ensures
        match res {
            Ok((inst_out, wit_out)) => {
                &&& crate::relation::witness_wf(
                    witness,
                    crs.r as int,
                    crs.n as int,
                    crs.q as int,
                    crs.d as int,
                )
                &&& crate::crs::spec_mat_norm_sq(witness.s@, witness.s@.len())
                    <= crs.norm_bound_squared
                &&& wit_out.s@ == witness.s@
                &&& inst_out.wf(crs.r as int, crs.n as int, crs.q as int, crs.d as int)
                &&& inst_out.quad_dot_prod_funcs@.len() == 1
                &&& inst_out.ct_quad_dot_prod_funcs@.len() == 0
                &&& exists|u1: Seq<RingElement>, p: Seq<RingElement>, bpp: Seq<RingElement>, u2: Seq<RingElement>|
                    #[trigger] prover_transcript_shape(
                        *crs,
                        old(t).proof_data(),
                        old(t).state(),
                        final(t).proof_data(),
                        final(t).state(),
                        u1,
                        p,
                        bpp,
                        u2,
                    ) && projection_honest(*crs, witness.s@, old(t).state(), u1, p)
                        && responses_honest(
                        *crs,
                        *instance,
                        witness.s@,
                        old(t).state(),
                        u1,
                        p,
                        bpp,
                    )
            },
            Err(e) => {
                &&& e == ProtocolError::BadWitness
                &&& *final(t) == *old(t)
                &&& !(crate::relation::witness_wf(
                    witness,
                    crs.r as int,
                    crs.n as int,
                    crs.q as int,
                    crs.d as int,
                ) && crate::crs::spec_mat_norm_sq(witness.s@, witness.s@.len())
                    <= crs.norm_bound_squared)
            },
        },
{
    let q = crs.q;
    let d = crs.d;
    let r = crs.r;
    let n = crs.n;
    // Defensive check: shape and norm of the witness.
    if !crs.is_wellformed_witness(&witness) {
        return Err(ProtocolError::BadWitness);
    }
    // Step 1: inner commitments t_i = A s_i, committed through the B and C
    // families digit by digit into u1.
    let mut t_vecs: Vec<Vec<RingElement>> = Vec::new();
    for i in 0..r
        invariant
            crs_usable(*crs),
            q == crs.q,
            d == crs.d,
            r == crs.r,
            n == crs.n,
            witness_wf(witness, crs.r as int, crs.n as int, crs.q as int, crs.d as int),
            t_vecs@.len() == i,
            forall|u: int|
                0 <= u < i ==> (#[trigger] t_vecs@[u])@.len() == crs.k && vec_wf(
                    t_vecs@[u]@,
                    q as int,
                    d as int,
                ),
    {
        let ti = mat_vec_mul(q, d, &crs.a_mat, &witness.s[i]);
        t_vecs.push(ti);
    }
    let ghost t0 = *t;
    let u1 = commit_u1(crs, &t_vecs, &witness);
    let u1_bytes = encode_ring_vec(&u1);
    t.absorb(Label::ProverMessage1, &u1_bytes);
    let ghost u1v = u1@;
    let ghost e1 = u1_bytes@;
    // Step 2: squeeze the projection matrices.
    proof {
        lemma_budgets(crs);
    }
    let pi_bytes = t.squeeze(Label::VerifierMessage1, NUM_PROJECTIONS * r * (n * d));
    let ghost pib = pi_bytes@;
    let pi_flat = ternary_elems_from_bytes(q, d, NUM_PROJECTIONS * r * n, &pi_bytes);
    let ghost pfv = pi_flat@;
    let pi_rows = reshape_elems(pi_flat, NUM_PROJECTIONS * r, n, q, d);
    let ghost prv = pi_rows@;
    let pi = reshape_rows(pi_rows, NUM_PROJECTIONS, r, n, q, d);
    proof {
        assert forall|j: int, i: int, w: int, c: int|
            0 <= j < NUM_PROJECTIONS && 0 <= i < r && 0 <= w < n && 0 <= c < d implies (
        #[trigger] pi@[j]@[i]@[w].coeffs()[c]) == crate::challenge::ternary_of_byte(
            pib[((j * (r as int) + i) * (n as int) + w) * (d as int) + c],
            q as int,
        ) by {
            let u = j * (r as int) + i;
            let x = u * (n as int) + w;
            assert(0 <= u && u < NUM_PROJECTIONS * (r as int) && 0 <= x && x < NUM_PROJECTIONS
                * (r as int) * (n as int) && x * (d as int) + c == (u * (n as int) + w) * (
            d as int) + c) by (nonlinear_arith)
                requires
                    0 <= j < NUM_PROJECTIONS,
                    0 <= i < (r as int),
                    0 <= w < (n as int),
                    0 <= c < (d as int),
                    1 <= (r as int),
                    1 <= (n as int),
                    u == j * (r as int) + i,
                    x == u * (n as int) + w,
            ;
            assert(pi@[j]@[i] == prv[u]);
            assert(prv[u]@[w] == pfv[x]);
            assert(pfv[x].coeffs()[c] == crate::challenge::ternary_of_byte(
                pib[x * (d as int) + c],
                q as int,
            ));
        }
        assert(pi_matches(pib, pi@, q as int, d as int, r as int, n as int));
    }
    // Step 3: projections p_j = sum_i <pi_j[i], s_i>.
    let mut p: Vec<RingElement> = Vec::new();
    for j in 0..NUM_PROJECTIONS
        invariant
            crs_usable(*crs),
            q == crs.q,
            d == crs.d,
            r == crs.r,
            n == crs.n,
            witness_wf(witness, crs.r as int, crs.n as int, crs.q as int, crs.d as int),
            pi@.len() == NUM_PROJECTIONS,
            forall|u: int|
                0 <= u < NUM_PROJECTIONS ==> (#[trigger] pi@[u])@.len() == crs.r && forall|
                    w: int,
                |
                    0 <= w < crs.r ==> (#[trigger] pi@[u]@[w])@.len() == crs.n && vec_wf(
                        pi@[u]@[w]@,
                        q as int,
                        d as int,
                    ),
            pi_matches(pib, pi@, q as int, d as int, r as int, n as int),
            p@.len() == j,
            vec_wf(p@, q as int, d as int),
            forall|u: int|
                0 <= u < j ==> (#[trigger] p@[u]).coeffs() == spec_projection_acc(
                    pib,
                    witness.s@,
                    q as int,
                    d as int,
                    r as int,
                    n as nat,
                    u,
                    r as nat,
                ),
    {
        let mut acc = RingElement::zero(q, d);
        proof {
            assert(acc.coeffs() =~= crate::linalg::zero_poly(d as int));
        }
        for i in 0..r
            invariant
                crs_usable(*crs),
                q == crs.q,
                d == crs.d,
                r == crs.r,
                n == crs.n,
                j < NUM_PROJECTIONS,
                witness_wf(witness, crs.r as int, crs.n as int, crs.q as int, crs.d as int),
                pi@.len() == NUM_PROJECTIONS,
                forall|u: int|
                    0 <= u < NUM_PROJECTIONS ==> (#[trigger] pi@[u])@.len() == crs.r && forall|
                        w: int,
                    |
                        0 <= w < crs.r ==> (#[trigger] pi@[u]@[w])@.len() == crs.n && vec_wf(
                            pi@[u]@[w]@,
                            q as int,
                            d as int,
                        ),
                pi_matches(pib, pi@, q as int, d as int, r as int, n as int),
                acc.wf(),
                acc.modulus() == q,
                acc.dim() == d,
                acc.coeffs() == spec_projection_acc(
                    pib,
                    witness.s@,
                    q as int,
                    d as int,
                    r as int,
                    n as nat,
                    j as int,
                    i as nat,
                ),
        {
            let dp = dot(q, d, &pi[j][i], &witness.s[i]);
            proof {
                assert forall|w: int, c: int| 0 <= w < n && 0 <= c < d implies crate::linalg::coeff_view(
                    pi@[j as int]@[i as int]@,
                )[w][c] == pi_vec_coeffs(
                    pib,
                    q as int,
                    d as int,
                    r as int,
                    n as int,
                    j as int,
                    i as int,
                )[w][c] by {
                    assert(pi@[j as int]@[i as int]@[w].coeffs()[c]
                        == crate::challenge::ternary_of_byte(
                        pib[(((j as int) * (r as int) + (i as int)) * (n as int) + w) * (
                        d as int) + c],
                        q as int,
                    ));
                }
                assert(crate::linalg::coeff_view(pi@[j as int]@[i as int]@) =~~= pi_vec_coeffs(
                    pib,
                    q as int,
                    d as int,
                    r as int,
                    n as int,
                    j as int,
                    i as int,
                ));
            }
            let acc2 = acc.add(&dp);
            proof {
                assert(acc2.coeffs() =~= spec_projection_acc(
                    pib,
                    witness.s@,
                    q as int,
                    d as int,
                    r as int,
                    n as nat,
                    j as int,
                    (i + 1) as nat,
                ));
            }
            acc = acc2;
        }
        p.push(acc);
    }
    let p_bytes = encode_ring_vec(&p);
    t.absorb(Label::ProverMessage2, &p_bytes);
    let ghost pv = p@;
    let ghost e2 = p_bytes@;
    // Steps 4-5: aggregation scalars.
    let na = crs.num_aggregs;
    let nct = crs.num_constant_constraints;
    let psi_bytes = t.squeeze(Label::VerifierMessage2Psi, na * (nct * COEFF_SAMPLE_BYTES));
    let psi = scalar_rows(q, na, nct, &psi_bytes);
    let omega_bytes = t.squeeze(
        Label::VerifierMessage2Omega,
        na * (NUM_PROJECTIONS * COEFF_SAMPLE_BYTES),
    );
    let omega = scalar_rows(q, na, NUM_PROJECTIONS, &omega_bytes);
    // Step 6: aggregated responses.
    let evals = constant_evaluations(crs, instance, &witness);
    let bpp = aggregate_responses(q, d, &evals, &p, &psi, &omega, na);
    let bpp_bytes = encode_ring_vec(&bpp);
    t.absorb(Label::ProverMessage3, &bpp_bytes);
    let ghost bppv = bpp@;
    let ghost e3 = bpp_bytes@;
    // Steps 7-8: aggregation challenges.
    let nc = crs.num_constraints;
    let alpha_bytes = t.squeeze(Label::VerifierMessage3Alpha, nc * (d * COEFF_SAMPLE_BYTES));
    let alpha = uniform_elems_from_bytes(q, d, nc, &alpha_bytes);
    let beta_bytes = t.squeeze(Label::VerifierMessage3Beta, na * (d * COEFF_SAMPLE_BYTES));
    let beta = uniform_elems_from_bytes(q, d, na, &beta_bytes);
    // Step 9: garbage commitment over the aggregated linear parts.
    let out = aggregate_instance(crs, instance, &pi, &psi, &omega, &bpp, &alpha, &beta);
    let u2 = commit_u2(crs, &out, &witness);
    let u2_bytes = encode_ring_vec(&u2);
    t.absorb(Label::ProverMessage4, &u2_bytes);
    let ghost u2v = u2@;
    let ghost e4 = u2_bytes@;
    // Step 10: the opening challenges of the next folding level.
    if q >= 5 {
        let c_bytes = t.squeeze(Label::VerifierMessage4, r * d);
        let _c = wide_elems_from_bytes(q, d, r, &c_bytes);
    } else {
        let c_bytes = t.squeeze(Label::VerifierMessage4, r * d);
        let _c = ternary_elems_from_bytes(q, d, r, &c_bytes);
    }
    proof {
        assert(t.proof_data() =~= t0.proof_data() + e1 + e2 + e3 + e4);
        assert(t.state() == pattern_final_state(*crs, t0.state(), e1, e2, e3, e4));
        assert(prover_transcript_shape(
            *crs,
            t0.proof_data(),
            t0.state(),
            t.proof_data(),
            t.state(),
            u1v,
            pv,
            bppv,
            u2v,
        ));
        assert(pib == crate::sponge::spec_squeeze_seq(
            crate::transcript::spec_step_squeeze_state(
                crate::transcript::spec_step_absorb(
                    t0.state(),
                    Label::ProverMessage1,
                    crate::transcript::spec_encode_ring_vec(u1v, u1v.len()),
                ),
                Label::VerifierMessage1,
            ),
            pi_squeeze_len(*crs) as nat,
        ));
        assert(projection_honest(*crs, witness.s@, t0.state(), u1v, pv));
        let g3s = state_after_commit(*crs, t0.state(), e1, e2);
        assert(psi_bytes@ == crate::sponge::spec_squeeze_seq(
            crate::transcript::spec_step_squeeze_state(g3s, Label::VerifierMessage2Psi),
            psi_squeeze_len(*crs) as nat,
        ));
        let g4s = crate::sponge::spec_after_squeeze(
            crate::transcript::spec_step_squeeze_state(g3s, Label::VerifierMessage2Psi),
            psi_squeeze_len(*crs) as nat,
        );
        assert(omega_bytes@ == crate::sponge::spec_squeeze_seq(
            crate::transcript::spec_step_squeeze_state(g4s, Label::VerifierMessage2Omega),
            omega_squeeze_len(*crs) as nat,
        ));
        assert forall|k: int| 0 <= k < crs.num_aggregs implies (#[trigger] bppv[k]).coeffs()
            == scaled_sum_fold(
            pv,
            omega@[k]@,
            q as int,
            response_eval_fold(
                *instance,
                witness.s@,
                psi@[k]@,
                r as int,
                n as int,
                q as int,
                d as int,
                crs.num_constant_constraints as nat,
            ),
            NUM_PROJECTIONS as nat,
        ) by {
            lemma_eval_fold_matches(
                *instance,
                witness.s@,
                evals@,
                psi@[k]@,
                r as int,
                n as int,
                q as int,
                d as int,
                crs.num_constant_constraints as nat,
            );
        }
        assert(responses_honest(*crs, *instance, witness.s@, t0.state(), u1v, pv, bppv));
    }
    Ok((out, witness))
}

/// `v` is the decode of the canonical `count`-element segment `bytes`:
/// each coefficient is read from its 8-byte little-endian chunk.
pub open spec fn ring_vec_decoded(
    bytes: Seq<u8>,
    q: int,
    d: int,
    count: int,
    v: Seq<RingElement>,
) -> bool {
    &&& segment_canonical(bytes, q, d, count)
    &&& v.len() == count
    &&& vec_wf(v, q, d)
    &&& forall|i: int, c: int|
        #![trigger v[i].coeffs()[c]]
        0 <= i < count && 0 <= c < d ==> v[i].coeffs()[c] == crate::ring::le_decode(
            elem_chunk(bytes, d, i).subrange(COEFF_ENCODE_BYTES * c, COEFF_ENCODE_BYTES * (c + 1)),
        )
}

/// The scalar-phase values determined by the sponge state `g0` at its
/// start and the aggregated-response bytes `bb`: the aggregation scalars
/// squeezed from the replayed sponge, and the decoded responses.
pub open spec fn scalar_phase_values(
    crs: CommonReferenceString,
    g0: Sponge,
    bb: Seq<u8>,
    psi: Seq<Vec<Zq>>,
    omega: Seq<Vec<Zq>>,
    bpp: Seq<RingElement>,
) -> bool {
    let psi_bytes = crate::sponge::spec_squeeze_seq(
        crate::transcript::spec_step_squeeze_state(g0, Label::VerifierMessage2Psi),
        psi_squeeze_len(crs) as nat,
    );
    let g1 = crate::sponge::spec_after_squeeze(
        crate::transcript::spec_step_squeeze_state(g0, Label::VerifierMessage2Psi),
        psi_squeeze_len(crs) as nat,
    );
    let omega_bytes = crate::sponge::spec_squeeze_seq(
        crate::transcript::spec_step_squeeze_state(g1, Label::VerifierMessage2Omega),
        omega_squeeze_len(crs) as nat,
    );
    &&& scalar_rows_decoded(
        psi_bytes,
        crs.q as int,
        crs.num_aggregs as int,
        crs.num_constant_constraints as int,
        psi,
    )
    &&& scalar_rows_decoded(
        omega_bytes,
        crs.q as int,
        crs.num_aggregs as int,
        NUM_PROJECTIONS as int,
        omega,
    )
    &&& ring_vec_decoded(bb, crs.q as int, crs.d as int, crs.num_aggregs as int, bpp)
}

/// The weighted constant targets of the instance, accumulated left to
/// right modulo `q`: the first half of the verifier's recomputed
/// right-hand side.
pub open spec fn ct_target_fold(
    cts: Seq<crate::relation::ConstantQuadDotProdFunction>,
    w: Seq<Zq>,
    q: int,
    m: nat,
) -> int
    decreases m,
{
    if m == 0 {
        0
    } else {
        (ct_target_fold(cts, w, q, (m - 1) as nat) + (w[m - 1].val() * cts[m - 1].spec_b().val())
            % q) % q
    }
}

/// The weighted constant coefficients of the projection, accumulated onto
/// `acc` left to right modulo `q`: the second half of the verifier's
/// recomputed right-hand side.
pub open spec fn projection_fold(p: Seq<RingElement>, w: Seq<Zq>, q: int, acc: int, m: nat) -> int
    decreases m,
{
    if m == 0 {
        acc
    } else {
        (projection_fold(p, w, q, acc, (m - 1) as nat) + (w[m - 1].val() * p[m - 1].coeffs()[0])
            % q) % q
    }
}

/// The aggregated-response check for aggregation index `k`: the constant
/// coefficient of the aggregated garbage term equals the recomputed
/// right-hand side.
pub open spec fn aggregated_response_ok(
    crs: CommonReferenceString,
    instance: PrincipalRelation,
    bpp: Seq<RingElement>,
    p: Seq<RingElement>,
    psi: Seq<Vec<Zq>>,
    omega: Seq<Vec<Zq>>,
    k: int,
) -> bool {
    bpp[k].coeffs()[0] == projection_fold(
        p,
        omega[k]@,
        crs.q as int,
        ct_target_fold(
            instance.ct_quad_dot_prod_funcs@,
            psi[k]@,
            crs.q as int,
            crs.num_constant_constraints as nat,
        ),
        NUM_PROJECTIONS as nat,
    )
}

/// The verifier's recomputed checks: for every aggregation index the
/// constant coefficient of the aggregated response must equal the
/// aggregation of the instance's constant targets and the projections'
/// constant coefficients.
fn check_aggregated_responses(
    crs: &CommonReferenceString,
    instance: &PrincipalRelation,
    bpp: &Vec<RingElement>,
    p: &Vec<RingElement>,
    psi: &Vec<Vec<Zq>>,
    omega: &Vec<Vec<Zq>>,
) -> (ok: bool)
    requires
        crs_usable(*crs),
        instance_matches(*crs, *instance),
        bpp@.len() == crs.num_aggregs,
        vec_wf(bpp@, crs.q as int, crs.d as int),
        p@.len() == NUM_PROJECTIONS,
        vec_wf(p@, crs.q as int, crs.d as int),
        psi@.len() == crs.num_aggregs,
        forall|u: int|
            0 <= u < crs.num_aggregs ==> (#[trigger] psi@[u])@.len()
                == crs.num_constant_constraints && crate::linalg::zq_vec_wf(
                psi@[u]@,
                crs.q as int,
            ),
        omega@.len() == crs.num_aggregs,
        forall|u: int|
            0 <= u < crs.num_aggregs ==> (#[trigger] omega@[u])@.len() == NUM_PROJECTIONS
                && crate::linalg::zq_vec_wf(omega@[u]@, crs.q as int),
    ensures
        ok <==> forall|k: int|
            0 <= k < crs.num_aggregs ==> #[trigger] aggregated_response_ok(
                *crs,
                *instance,
                bpp@,
                p@,
                psi@,
                omega@,
                k,
            ),
{
    let q = crs.q;
    let na = crs.num_aggregs;
    let nct = crs.num_constant_constraints;
    for k in 0..na
        invariant
            crs_usable(*crs),
            q == crs.q,
            na == crs.num_aggregs,
            nct == crs.num_constant_constraints,
            instance_matches(*crs, *instance),
            bpp@.len() == na,
            vec_wf(bpp@, crs.q as int, crs.d as int),
            p@.len() == NUM_PROJECTIONS,
            vec_wf(p@, crs.q as int, crs.d as int),
            psi@.len() == na,
            forall|u: int|
                0 <= u < na ==> (#[trigger] psi@[u])@.len() == nct
                    && crate::linalg::zq_vec_wf(psi@[u]@, q as int),
            omega@.len() == na,
            forall|u: int|
                0 <= u < na ==> (#[trigger] omega@[u])@.len() == NUM_PROJECTIONS
                    && crate::linalg::zq_vec_wf(omega@[u]@, q as int),
            forall|u: int|
                0 <= u < k ==> #[trigger] aggregated_response_ok(
                    *crs,
                    *instance,
                    bpp@,
                    p@,
                    psi@,
                    omega@,
                    u,
                ),
    {
        let mut rhs = Zq::zero(q);
        for l in 0..nct
            invariant
                crs_usable(*crs),
                q == crs.q,
                k < na,
                nct == crs.num_constant_constraints,
                instance_matches(*crs, *instance),
                psi@.len() == na,
                (#[trigger] psi@[k as int])@.len() == nct,
                crate::linalg::zq_vec_wf(psi@[k as int]@, q as int),
                rhs.wf(),
                rhs.modulus() == q,
                rhs.val() == ct_target_fold(
                    instance.ct_quad_dot_prod_funcs@,
                    psi@[k as int]@,
                    q as int,
                    l as nat,
                ),
        {
            let term = psi[k][l].mul(&instance.ct_quad_dot_prod_funcs[l].b());
            rhs = rhs.add(&term);
        }
        for j in 0..NUM_PROJECTIONS
            invariant
                crs_usable(*crs),
                q == crs.q,
                k < na,
                nct == crs.num_constant_constraints,
                instance_matches(*crs, *instance),
                p@.len() == NUM_PROJECTIONS,
                vec_wf(p@, q as int, crs.d as int),
                omega@.len() == na,
                psi@.len() == na,
                (#[trigger] psi@[k as int])@.len() == nct,
                (#[trigger] omega@[k as int])@.len() == NUM_PROJECTIONS,
                crate::linalg::zq_vec_wf(omega@[k as int]@, q as int),
                rhs.wf(),
                rhs.modulus() == q,
                rhs.val() == projection_fold(
                    p@,
                    omega@[k as int]@,
                    q as int,
                    ct_target_fold(
                        instance.ct_quad_dot_prod_funcs@,
                        psi@[k as int]@,
                        q as int,
                        nct as nat,
                    ),
                    j as nat,
                ),
        {
            let ct = p[j].constant_coeff();
            let term = omega[k][j].mul(&ct);
            rhs = rhs.add(&term);
        }
        let lhs = bpp[k].constant_coeff();
        if lhs.val_u64() != rhs.val_u64() {
            proof {
                assert(!aggregated_response_ok(
                    *crs,
                    *instance,
                    bpp@,
                    p@,
                    psi@,
                    omega@,
                    k as int,
                ));
            }
            return false;
        }
        proof {
            assert(aggregated_response_ok(*crs, *instance, bpp@, p@, psi@, omega@, k as int));
        }
    }
    true
}

/// The replayed opening steps: the commitment, the projection matrices
/// and the projection vector.
#[verifier::rlimit(100)]
fn verify_commit_phase(
    crs: &CommonReferenceString,
    t: &mut VerifierTranscript,
) -> (res: Result<(Vec<Vec<Vec<RingElement>>>, Vec<RingElement>), ProtocolError>)
    requires
        crs_usable(*crs),
        squeeze_budget_ok(*crs),
        old(t).wf(),
    ensures
        final(t).wf(),
        final(t).proof_data() == old(t).proof_data(),
        ({
            let p0 = old(t).position();
            let dl = old(t).proof_data().len() as int;
            let l1 = absorb_len(crs.k1 as int, crs.d as int);
            let l2 = absorb_len(NUM_PROJECTIONS as int, crs.d as int);
            match res {
                Ok((pi, p)) => {
                    &&& p0 + l1 + l2 <= dl
                    &&& segment_canonical(
                        old(t).proof_data().subrange(p0, p0 + l1),
                        crs.q as int,
                        crs.d as int,
                        crs.k1 as int,
                    )
                    &&& segment_canonical(
                        old(t).proof_data().subrange(p0 + l1, p0 + l1 + l2),
                        crs.q as int,
                        crs.d as int,
                        NUM_PROJECTIONS as int,
                    )
                    &&& final(t).position() == p0 + l1 + l2
                    &&& pi@.len() == NUM_PROJECTIONS
                    &&& forall|j: int|
                        0 <= j < NUM_PROJECTIONS ==> (#[trigger] pi@[j])@.len() == crs.r
                            && forall|i: int|
                            0 <= i < crs.r ==> (#[trigger] pi@[j]@[i])@.len() == crs.n
                                && vec_wf(pi@[j]@[i]@, crs.q as int, crs.d as int)
                    &&& p@.len() == NUM_PROJECTIONS
                    &&& vec_wf(p@, crs.q as int, crs.d as int)
                    &&& final(t).state() == state_after_commit(
                        *crs,
                        old(t).state(),
                        old(t).proof_data().subrange(p0, p0 + l1),
                        old(t).proof_data().subrange(p0 + l1, p0 + l1 + l2),
                    )
                    &&& ring_vec_decoded(
                        old(t).proof_data().subrange(p0 + l1, p0 + l1 + l2),
                        crs.q as int,
                        crs.d as int,
                        NUM_PROJECTIONS as int,
                        p@,
                    )
                },
                Err(ProtocolError::OutOfData) => p0 + l1 + l2 > dl,
                Err(ProtocolError::Malformed) => !(segment_canonical(
                    old(t).proof_data().subrange(p0, p0 + l1),
                    crs.q as int,
                    crs.d as int,
                    crs.k1 as int,
                ) && segment_canonical(
                    old(t).proof_data().subrange(p0 + l1, p0 + l1 + l2),
                    crs.q as int,
                    crs.d as int,
                    NUM_PROJECTIONS as int,
                )),
                Err(_) => false,
            }
        }),
{
    let q = crs.q;
    let d = crs.d;
    let r = crs.r;
    let n = crs.n;
    proof {
        lemma_budgets(crs);
    }
    let u1_len = crs.k1 * (d * COEFF_ENCODE_BYTES);
    let u1_bytes = match t.read_absorb(Label::ProverMessage1, u1_len) {
        Ok(b) => b,
        Err(_) => {
            return Err(ProtocolError::OutOfData);
        },
    };
    let _u1 = match decode_ring_vec(q, d, crs.k1, &u1_bytes) {
        Some(v) => v,
        None => {
            return Err(ProtocolError::Malformed);
        },
    };
    let pi_bytes = t.squeeze(Label::VerifierMessage1, NUM_PROJECTIONS * r * (n * d));
    let pi_flat = ternary_elems_from_bytes(q, d, NUM_PROJECTIONS * r * n, &pi_bytes);
    let pi_rows = reshape_elems(pi_flat, NUM_PROJECTIONS * r, n, q, d);
    let pi = reshape_rows(pi_rows, NUM_PROJECTIONS, r, n, q, d);
    let p_len = NUM_PROJECTIONS * (d * COEFF_ENCODE_BYTES);
    let p_bytes = match t.read_absorb(Label::ProverMessage2, p_len) {
        Ok(b) => b,
        Err(_) => {
            return Err(ProtocolError::OutOfData);
        },
    };
    let p = match decode_ring_vec(q, d, NUM_PROJECTIONS, &p_bytes) {
        Some(v) => v,
        None => {
            return Err(ProtocolError::Malformed);
        },
    };
    Ok((pi, p))
}

/// The replayed aggregation steps: the scalars and the aggregated
/// responses, with their checks.
#[verifier::rlimit(100)]
#[verifier::spinoff_prover]
fn verify_scalar_phase(
    crs: &CommonReferenceString,
    instance: &PrincipalRelation,
    p: &Vec<RingElement>,
    t: &mut VerifierTranscript,
) -> (res: Result<(Vec<Vec<Zq>>, Vec<Vec<Zq>>, Vec<RingElement>), ProtocolError>)
    requires
        crs_usable(*crs),
        squeeze_budget_ok(*crs),
        instance_matches(*crs, *instance),
        p@.len() == NUM_PROJECTIONS,
        vec_wf(p@, crs.q as int, crs.d as int),
        old(t).wf(),
    ensures
        final(t).wf(),
        final(t).proof_data() == old(t).proof_data(),
        ({
            let p0 = old(t).position();
            let dl = old(t).proof_data().len() as int;
            let l3 = absorb_len(crs.num_aggregs as int, crs.d as int);
            match res {
                Ok((psi, omega, bpp)) => {
                    &&& p0 + l3 <= dl
                    &&& segment_canonical(
                        old(t).proof_data().subrange(p0, p0 + l3),
                        crs.q as int,
                        crs.d as int,
                        crs.num_aggregs as int,
                    )
                    &&& final(t).position() == p0 + l3
                    &&& psi@.len() == crs.num_aggregs
                    &&& forall|k: int|
                        0 <= k < crs.num_aggregs ==> (#[trigger] psi@[k])@.len()
                            == crs.num_constant_constraints && crate::linalg::zq_vec_wf(
                            psi@[k]@,
                            crs.q as int,
                        )
                    &&& omega@.len() == crs.num_aggregs
                    &&& forall|k: int|
                        0 <= k < crs.num_aggregs ==> (#[trigger] omega@[k])@.len()
                            == NUM_PROJECTIONS && crate::linalg::zq_vec_wf(
                            omega@[k]@,
                            crs.q as int,
                        )
                    &&& bpp@.len() == crs.num_aggregs
                    &&& vec_wf(bpp@, crs.q as int, crs.d as int)
                    &&& scalar_phase_values(
                        *crs,
                        old(t).state(),
                        old(t).proof_data().subrange(p0, p0 + l3),
                        psi@,
                        omega@,
                        bpp@,
                    )
                    &&& forall|k: int|
                        0 <= k < crs.num_aggregs ==> #[trigger] aggregated_response_ok(
                            *crs,
                            *instance,
                            bpp@,
                            p@,
                            psi@,
                            omega@,
                            k,
                        )
                },
                Err(ProtocolError::OutOfData) => p0 + l3 > dl,
                Err(ProtocolError::Malformed) => !segment_canonical(
                    old(t).proof_data().subrange(p0, p0 + l3),
                    crs.q as int,
                    crs.d as int,
                    crs.num_aggregs as int,
                ),
                Err(ProtocolError::Rejected) => p0 + l3 <= dl && segment_canonical(
                    old(t).proof_data().subrange(p0, p0 + l3),
                    crs.q as int,
                    crs.d as int,
                    crs.num_aggregs as int,
                ) && (exists|psi: Seq<Vec<Zq>>, omega: Seq<Vec<Zq>>, bpp: Seq<RingElement>|
                    {
                        &&& #[trigger] scalar_phase_values(
                            *crs,
                            old(t).state(),
                            old(t).proof_data().subrange(p0, p0 + l3),
                            psi,
                            omega,
                            bpp,
                        )
                        &&& !(forall|k: int|
                            0 <= k < crs.num_aggregs ==> #[trigger] aggregated_response_ok(
                                *crs,
                                *instance,
                                bpp,
                                p@,
                                psi,
                                omega,
                                k,
                            ))
                    }),
                Err(_) => false,
            }
        }),
{
    let q = crs.q;
    let d = crs.d;
    let na = crs.num_aggregs;
    let nct = crs.num_constant_constraints;
    proof {
        assert(0 <= (nct as int) * COEFF_SAMPLE_BYTES < 0x10_0000 && 0 <= (na as int) * ((
        nct as int) * COEFF_SAMPLE_BYTES) < 0x800_0000 && 0 <= (na as int) * (NUM_PROJECTIONS
            * COEFF_SAMPLE_BYTES) < 0x80_0000 && NUM_PROJECTIONS * COEFF_SAMPLE_BYTES
            < 0x1000_0000 && 0 <= (na as int) * ((d as int) * COEFF_ENCODE_BYTES)
            < 0x1000_0000) by (nonlinear_arith)
            requires
                0 <= (nct as int) < 0x1000,
                1 <= (na as int) <= 128,
                1 <= (d as int),
                (d as int) * COEFF_SAMPLE_BYTES < 0x10_0000,
                COEFF_SAMPLE_BYTES == 16,
                COEFF_ENCODE_BYTES == 8,
                NUM_PROJECTIONS == 256,
        ;
    }
    let psi_bytes = t.squeeze(Label::VerifierMessage2Psi, na * (nct * COEFF_SAMPLE_BYTES));
    let psi = scalar_rows(q, na, nct, &psi_bytes);
    let omega_bytes = t.squeeze(
        Label::VerifierMessage2Omega,
        na * (NUM_PROJECTIONS * COEFF_SAMPLE_BYTES),
    );
    let omega = scalar_rows(q, na, NUM_PROJECTIONS, &omega_bytes);
    // Step 6: the aggregated responses and their checks.
    let bpp_len = na * (d * COEFF_ENCODE_BYTES);
    let bpp_bytes = match t.read_absorb(Label::ProverMessage3, bpp_len) {
        Ok(b) => b,
        Err(_) => {
            return Err(ProtocolError::OutOfData);
        },
    };
    let bpp = match decode_ring_vec(q, d, na, &bpp_bytes) {
        Some(v) => v,
        None => {
            return Err(ProtocolError::Malformed);
        },
    };
    let ok = check_aggregated_responses(crs, instance, &bpp, p, &psi, &omega);
    if !ok {
        proof {
            assert(scalar_phase_values(
                *crs,
                old(t).state(),
                old(t).proof_data().subrange(
                    old(t).position(),
                    old(t).position() + absorb_len(crs.num_aggregs as int, crs.d as int),
                ),
                psi@,
                omega@,
                bpp@,
            ));
        }
        return Err(ProtocolError::Rejected);
    }
    Ok((psi, omega, bpp))
}

/// The verifier: replay the pattern from the proof data, recompute the
/// constant-coefficient checks of the aggregated responses, and derive
/// the reduced instance through the same aggregation as the prover.
#[verifier::rlimit(100)]
pub fn verify_principal_relation(
    crs: &CommonReferenceString,
    instance: &PrincipalRelation,
    t: &mut VerifierTranscript,
) -> (res: Result<PrincipalRelation, ProtocolError>)
    requires
        crs_usable(*crs),
        squeeze_budget_ok(*crs),
        instance_matches(*crs, *instance),
        old(t).wf(),
    ensures
        final(t).proof_data() == old(t).proof_data(),
        ({
            let p0 = old(t).position();
            let dl = old(t).proof_data().len() as int;
            let l1 = absorb_len(crs.k1 as int, crs.d as int);
            let l2 = absorb_len(NUM_PROJECTIONS as int, crs.d as int);
            let l3 = absorb_len(crs.num_aggregs as int, crs.d as int);
            let l4 = absorb_len(crs.k2 as int, crs.d as int);
            let canon1 = segment_canonical(
                old(t).proof_data().subrange(p0, p0 + l1),
                crs.q as int,
                crs.d as int,
                crs.k1 as int,
            );
            let canon2 = segment_canonical(
                old(t).proof_data().subrange(p0 + l1, p0 + l1 + l2),
                crs.q as int,
                crs.d as int,
                NUM_PROJECTIONS as int,
            );
            let canon3 = segment_canonical(
                old(t).proof_data().subrange(p0 + l1 + l2, p0 + l1 + l2 + l3),
                crs.q as int,
                crs.d as int,
                crs.num_aggregs as int,
            );
            let canon4 = segment_canonical(
                old(t).proof_data().subrange(p0 + l1 + l2 + l3, p0 + l1 + l2 + l3 + l4),
                crs.q as int,
                crs.d as int,
                crs.k2 as int,
            );
            let g3 = state_after_commit(
                *crs,
                old(t).state(),
                old(t).proof_data().subrange(p0, p0 + l1),
                old(t).proof_data().subrange(p0 + l1, p0 + l1 + l2),
            );
            match res {
                Ok(inst_out) => {
                    &&& p0 + l1 + l2 + l3 + l4 <= dl
                    &&& canon1 && canon2 && canon3 && canon4
                    &&& inst_out.wf(crs.r as int, crs.n as int, crs.q as int, crs.d as int)
                    &&& inst_out.quad_dot_prod_funcs@.len() == 1
                    &&& inst_out.ct_quad_dot_prod_funcs@.len() == 0
                    &&& exists|
                        p: Seq<RingElement>,
                        psi: Seq<Vec<Zq>>,
                        omega: Seq<Vec<Zq>>,
                        bpp: Seq<RingElement>,
                    |
                        {
                            &&& #[trigger] ring_vec_decoded(
                                old(t).proof_data().subrange(p0 + l1, p0 + l1 + l2),
                                crs.q as int,
                                crs.d as int,
                                NUM_PROJECTIONS as int,
                                p,
                            )
                            &&& #[trigger] scalar_phase_values(
                                *crs,
                                g3,
                                old(t).proof_data().subrange(p0 + l1 + l2, p0 + l1 + l2 + l3),
                                psi,
                                omega,
                                bpp,
                            )
                            &&& forall|k: int|
                                0 <= k < crs.num_aggregs ==> #[trigger] aggregated_response_ok(
                                    *crs,
                                    *instance,
                                    bpp,
                                    p,
                                    psi,
                                    omega,
                                    k,
                                )
                        }
                },
                Err(ProtocolError::OutOfData) => p0 + l1 + l2 + l3 + l4 > dl,
                Err(ProtocolError::Malformed) => !(canon1 && canon2 && canon3 && canon4),
                Err(ProtocolError::Rejected) => p0 + l1 + l2 + l3 <= dl && canon1 && canon2
                    && canon3 && (exists|
                    p: Seq<RingElement>,
                    psi: Seq<Vec<Zq>>,
                    omega: Seq<Vec<Zq>>,
                    bpp: Seq<RingElement>,
                |
                    {
                        &&& #[trigger] ring_vec_decoded(
                            old(t).proof_data().subrange(p0 + l1, p0 + l1 + l2),
                            crs.q as int,
                            crs.d as int,
                            NUM_PROJECTIONS as int,
                            p,
                        )
                        &&& #[trigger] scalar_phase_values(
                            *crs,
                            g3,
                            old(t).proof_data().subrange(p0 + l1 + l2, p0 + l1 + l2 + l3),
                            psi,
                            omega,
                            bpp,
                        )
                        &&& !(forall|k: int|
                            0 <= k < crs.num_aggregs ==> #[trigger] aggregated_response_ok(
                                *crs,
                                *instance,
                                bpp,
                                p,
                                psi,
                                omega,
                                k,
                            ))
                    }),
                Err(ProtocolError::BadWitness) => false,
            }
        }),
{
    let q = crs.q;
    let d = crs.d;
    let r = crs.r;
    proof {
        lemma_budgets(crs);
    }
    let (pi, p) = match verify_commit_phase(crs, t) {
        Ok(x) => x,
        Err(e) => {
            return Err(e);
        },
    };
    let (psi, omega, bpp) = match verify_scalar_phase(crs, instance, &p, t) {
        Ok(x) => x,
        Err(e) => {
            return Err(e);
        },
    };
    // Steps 7-8: the aggregation challenges.
    let na = crs.num_aggregs;
    let nc = crs.num_constraints;
    let alpha_bytes = t.squeeze(Label::VerifierMessage3Alpha, nc * (d * COEFF_SAMPLE_BYTES));
    let alpha = uniform_elems_from_bytes(q, d, nc, &alpha_bytes);
    let beta_bytes = t.squeeze(Label::VerifierMessage3Beta, na * (d * COEFF_SAMPLE_BYTES));
    let beta = uniform_elems_from_bytes(q, d, na, &beta_bytes);
    // Step 9: the garbage commitment.
    let u2_len = crs.k2 * (d * COEFF_ENCODE_BYTES);
    let u2_bytes = match t.read_absorb(Label::ProverMessage4, u2_len) {
        Ok(b) => b,
        Err(_) => {
            return Err(ProtocolError::OutOfData);
        },
    };
    let _u2 = match decode_ring_vec(q, d, crs.k2, &u2_bytes) {
        Some(v) => v,
        None => {
            return Err(ProtocolError::Malformed);
        },
    };
    // Step 10: the opening challenges.
    if q >= 5 {
        let c_bytes = t.squeeze(Label::VerifierMessage4, r * d);
        let _c = wide_elems_from_bytes(q, d, r, &c_bytes);
    } else {
        let c_bytes = t.squeeze(Label::VerifierMessage4, r * d);
        let _c = ternary_elems_from_bytes(q, d, r, &c_bytes);
    }
    let out = aggregate_instance(crs, instance, &pi, &psi, &omega, &bpp, &alpha, &beta);
    Ok(out)
}

/// Split flat rows into `outer` groups of `inner` rows.
fn reshape_rows(
    v: Vec<Vec<RingElement>>,
    outer: usize,
    inner: usize,
    cols: usize,
    q: u64,
    d: usize,
) -> (r: Vec<Vec<Vec<RingElement>>>)
    requires
        v@.len() == outer * inner,
        forall|i: int|
            0 <= i < v@.len() ==> (#[trigger] v@[i])@.len() == cols && vec_wf(
                v@[i]@,
                q as int,
                d as int,
            ),
    ensures
        r@.len() == outer,
        forall|i: int|
            0 <= i < outer ==> (#[trigger] r@[i])@.len() == inner && forall|t: int|
                0 <= t < inner ==> (#[trigger] r@[i]@[t])@.len() == cols && vec_wf(
                    r@[i]@[t]@,
                    q as int,
                    d as int,
                ),
        forall|i: int, t: int|
            #![trigger r@[i]@[t]]
            0 <= i < outer && 0 <= t < inner ==> r@[i]@[t] == v@[i * inner + t],
{
    let mut r: Vec<Vec<Vec<RingElement>>> = Vec::new();
    let mut v = v;
    let ghost ov = v@;
    let mut i: usize = 0;
    while i < outer
        invariant
            ov.len() == outer * inner,
            forall|u: int|
                0 <= u < ov.len() ==> (#[trigger] ov[u])@.len() == cols && vec_wf(
                    ov[u]@,
                    q as int,
                    d as int,
                ),
            i <= outer,
            v@ == ov.skip((i as int) * (inner as int)),
            r@.len() == i,
            forall|u: int|
                0 <= u < i ==> (#[trigger] r@[u])@.len() == inner && forall|t: int|
                    0 <= t < inner ==> (#[trigger] r@[u]@[t])@.len() == cols && vec_wf(
                        r@[u]@[t]@,
                        q as int,
                        d as int,
                    ),
            forall|u: int, t: int|
                #![trigger r@[u]@[t]]
                0 <= u < i && 0 <= t < inner ==> r@[u]@[t] == ov[u * inner + t],
        decreases outer - i,
    {
        proof {
            assert((i as int + 1) * (inner as int) <= (outer as int) * (inner as int) && 0 <= (
            i as int) * (inner as int) && (i as int) * (inner as int) + (inner as int) == (
            i as int + 1) * (inner as int)) by (nonlinear_arith)
                requires
                    0 <= (i as int) < (outer as int),
                    0 <= (inner as int),
            ;
        }
        let mut group: Vec<Vec<RingElement>> = Vec::new();
        let mut t: usize = 0;
        while t < inner
            invariant
                ov.len() == outer * inner,
                forall|u: int|
                    0 <= u < ov.len() ==> (#[trigger] ov[u])@.len() == cols && vec_wf(
                        ov[u]@,
                        q as int,
                        d as int,
                    ),
                i < outer,
                t <= inner,
                (i as int) * (inner as int) + (inner as int) <= (outer as int) * (inner as int),
                v@ == ov.skip((i as int) * (inner as int) + t as int),
                group@.len() == t,
                forall|u: int|
                    0 <= u < t ==> (#[trigger] group@[u])@.len() == cols && vec_wf(
                        group@[u]@,
                        q as int,
                        d as int,
                    ),
                forall|u: int|
                    #![trigger group@[u]]
                    0 <= u < t ==> group@[u] == ov[(i as int) * (inner as int) + u],
            decreases inner - t,
        {
            proof {
                assert(v@.len() > 0);
                assert(ov[(i as int) * (inner as int) + t as int]@.len() == cols && vec_wf(
                    ov[(i as int) * (inner as int) + t as int]@,
                    q as int,
                    d as int,
                ));
            }
            let row = v.remove(0);
            proof {
                assert(row == ov[(i as int) * (inner as int) + t as int]);
                assert(v@ =~= ov.skip((i as int) * (inner as int) + t as int + 1));
            }
            group.push(row);
            t = t + 1;
        }
        r.push(group);
        i = i + 1;
    }
    r
}

/// Parse `rows` rows of `cols` uniform scalars each.
/// Scalars parsed row by row from squeezed bytes: entry `(i, j)` is read
/// from the 16-byte little-endian chunk at position `i * cols + j`,
/// reduced modulo `q`.
pub open spec fn scalar_rows_decoded(
    bytes: Seq<u8>,
    q: int,
    rows: int,
    cols: int,
    m: Seq<Vec<Zq>>,
) -> bool {
    &&& m.len() == rows
    &&& forall|i: int|
        0 <= i < rows ==> (#[trigger] m[i])@.len() == cols && crate::linalg::zq_vec_wf(m[i]@, q)
    &&& forall|i: int, j: int|
        #![trigger m[i]@[j]]
        0 <= i < rows && 0 <= j < cols ==> m[i]@[j].val() == crate::ring::le_decode(
            bytes.subrange(
                (i * cols + j) * COEFF_SAMPLE_BYTES,
                (i * cols + j) * COEFF_SAMPLE_BYTES + COEFF_SAMPLE_BYTES,
            ),
        ) % q
}

fn scalar_rows(q: u64, rows: usize, cols: usize, bytes: &Vec<u8>) -> (r: Vec<Vec<Zq>>)
    requires
        2 <= q <= Q_MAX,
        (cols as int) * COEFF_SAMPLE_BYTES < 0x1000_0000,
        bytes@.len() == rows * (cols * COEFF_SAMPLE_BYTES),
    ensures
        r@.len() == rows,
        forall|i: int|
            0 <= i < rows ==> (#[trigger] r@[i])@.len() == cols && crate::linalg::zq_vec_wf(
                r@[i]@,
                q as int,
            ),
        scalar_rows_decoded(bytes@, q as int, rows as int, cols as int, r@),
{
    let mut r: Vec<Vec<Zq>> = Vec::new();
    let step = cols * COEFF_SAMPLE_BYTES;
    let mut pos: usize = 0;
    let bl = bytes.len();
    let mut i: usize = 0;
    while i < rows
        invariant
            2 <= q <= Q_MAX,
            step == cols * COEFF_SAMPLE_BYTES,
            bl == bytes@.len(),
            bytes@.len() == rows * step,
            i <= rows,
            pos as int == (i as int) * (step as int),
            r@.len() == i,
            forall|u: int|
                0 <= u < i ==> (#[trigger] r@[u])@.len() == cols && crate::linalg::zq_vec_wf(
                    r@[u]@,
                    q as int,
                ),
            forall|u: int, j: int|
                #![trigger r@[u]@[j]]
                0 <= u < i && 0 <= j < cols ==> r@[u]@[j].val() == crate::ring::le_decode(
                    bytes@.subrange(
                        (u * (cols as int) + j) * COEFF_SAMPLE_BYTES,
                        (u * (cols as int) + j) * COEFF_SAMPLE_BYTES + COEFF_SAMPLE_BYTES,
                    ),
                ) % (q as int),
        decreases rows - i,
    {
        proof {
            assert((i as int + 1) * (step as int) <= (rows as int) * (step as int) && 0 <= (
            i as int) * (step as int) && (i as int) * (step as int) + (step as int) == (i as int
                + 1) * (step as int)) by (nonlinear_arith)
                requires
                    0 <= (i as int) < (rows as int),
                    0 <= (step as int),
            ;
        }
        let chunk = subvec(bytes, pos, step);
        let row = uniform_scalars_from_bytes(q, cols, &chunk);
        proof {
            assert forall|j: int| 0 <= j < cols implies row@[j].val()
                == crate::ring::le_decode(
                bytes@.subrange(
                    ((i as int) * (cols as int) + j) * COEFF_SAMPLE_BYTES,
                    ((i as int) * (cols as int) + j) * COEFF_SAMPLE_BYTES + COEFF_SAMPLE_BYTES,
                ),
            ) % (q as int) by {
                assert((i as int) * (step as int) + COEFF_SAMPLE_BYTES * j == ((i as int) * (
                cols as int) + j) * COEFF_SAMPLE_BYTES && (i as int) * (step as int)
                    + COEFF_SAMPLE_BYTES * (j + 1) == ((i as int) * (cols as int) + j)
                    * COEFF_SAMPLE_BYTES + COEFF_SAMPLE_BYTES) by (nonlinear_arith)
                    requires
                        0 <= j < (cols as int),
                        (step as int) == (cols as int) * COEFF_SAMPLE_BYTES,
                        COEFF_SAMPLE_BYTES == 16,
                ;
                assert(chunk@.subrange(COEFF_SAMPLE_BYTES * j, COEFF_SAMPLE_BYTES * (j + 1))
                    =~= bytes@.subrange(
                    ((i as int) * (cols as int) + j) * COEFF_SAMPLE_BYTES,
                    ((i as int) * (cols as int) + j) * COEFF_SAMPLE_BYTES + COEFF_SAMPLE_BYTES,
                ));
            }
        }
        r.push(row);
        pos = pos + step;
        i = i + 1;
    }
    r
}

/// The squeeze lengths of a usable reference string all fit in `usize`,
/// and the flattened counts recombine as the parsers expect.
proof fn lemma_budgets(crs: &CommonReferenceString)
    requires
        crs_usable(*crs),
        squeeze_budget_ok(*crs),
    ensures
        0 <= (crs.n as int) * (crs.d as int) < 0x10_0000,
        0 <= NUM_PROJECTIONS * (crs.r as int) < 0x10_0000,
        0 <= NUM_PROJECTIONS * (crs.r as int) * ((crs.n as int) * (crs.d as int)) < 0x1000_0000,
        0 <= NUM_PROJECTIONS * (crs.r as int) * (crs.n as int) < 0x1000_0000,
        NUM_PROJECTIONS * (crs.r as int) * ((crs.n as int) * (crs.d as int)) == (NUM_PROJECTIONS
            * (crs.r as int) * (crs.n as int)) * (crs.d as int),
        (NUM_PROJECTIONS * (crs.r as int)) * (crs.n as int) == NUM_PROJECTIONS * (crs.r as int)
            * (crs.n as int),
        0 <= (crs.num_constant_constraints as int) * COEFF_SAMPLE_BYTES < 0x1000_0000,
        0 <= (crs.num_aggregs as int) * ((crs.num_constant_constraints as int)
            * COEFF_SAMPLE_BYTES) < 0x1000_0000,
        0 <= (crs.num_aggregs as int) * (NUM_PROJECTIONS * COEFF_SAMPLE_BYTES) < 0x1000_0000,
        0 <= (crs.d as int) * COEFF_SAMPLE_BYTES < 0x10_0000,
        0 <= (crs.num_constraints as int) * ((crs.d as int) * COEFF_SAMPLE_BYTES) < 0x1000_0000,
        0 <= (crs.num_aggregs as int) * ((crs.d as int) * COEFF_SAMPLE_BYTES) < 0x1_0000_0000,
        0 <= (crs.d as int) * COEFF_ENCODE_BYTES < 0x10_0000,
        0 <= (crs.k1 as int) * ((crs.d as int) * COEFF_ENCODE_BYTES) < 0x1_0000_0000,
        0 <= (crs.k2 as int) * ((crs.d as int) * COEFF_ENCODE_BYTES) < 0x1_0000_0000,
        0 <= NUM_PROJECTIONS * ((crs.d as int) * COEFF_ENCODE_BYTES) < 0x1_0000_0000,
        0 <= (crs.r as int) * (crs.d as int) < 0x10_0000,
{
    let r = crs.r as int;
    let n = crs.n as int;
    let d = crs.d as int;
    let na = crs.num_aggregs as int;
    let nc = crs.num_constraints as int;
    let nct = crs.num_constant_constraints as int;
    assert(1 <= n * d && n * d <= r * n * d && r * d <= r * n * d && NUM_PROJECTIONS * r
        < 0x10_0000 && NUM_PROJECTIONS * r * (n * d) == 256 * (r * n * d) && 256 * (r * n * d)
        < 0x1000_0000 && NUM_PROJECTIONS * r * n <= 256 * (r * n * d) && 0 <= NUM_PROJECTIONS
        * r * n) by (nonlinear_arith)
        requires
            1 <= r < 0x1000,
            1 <= n < 0x1000,
            1 <= d,
            r * n * d < 0x10_0000,
            NUM_PROJECTIONS == 256,
    ;
    assert(NUM_PROJECTIONS * r * ((n) * (d)) == (NUM_PROJECTIONS * r * n) * d && (
    NUM_PROJECTIONS * r) * n == NUM_PROJECTIONS * r * n) by (nonlinear_arith);
    assert(0 <= nct * COEFF_SAMPLE_BYTES < 0x10_0000 && 0 <= na * (nct * COEFF_SAMPLE_BYTES)
        && na * (nct * COEFF_SAMPLE_BYTES) <= 128 * (nct * COEFF_SAMPLE_BYTES) && 128 * (nct
        * COEFF_SAMPLE_BYTES) < 0x1000_0000) by (nonlinear_arith)
        requires
            0 <= nct < 0x1000,
            1 <= na <= 128,
            COEFF_SAMPLE_BYTES == 16,
    ;
    assert(0 <= na * (NUM_PROJECTIONS * COEFF_SAMPLE_BYTES) && na * (NUM_PROJECTIONS
        * COEFF_SAMPLE_BYTES) <= 128 * (256 * 16)) by (nonlinear_arith)
        requires
            1 <= na <= 128,
            NUM_PROJECTIONS == 256,
            COEFF_SAMPLE_BYTES == 16,
    ;
    assert(nc * (d * COEFF_SAMPLE_BYTES) == (nc * d) * 16 && 0 <= nc * (d
        * COEFF_SAMPLE_BYTES) && (nc * d) * 16 < 0x1000_0000 * 16) by (nonlinear_arith)
        requires
            0 <= nc,
            1 <= d,
            nc * d < 0x100_0000,
            COEFF_SAMPLE_BYTES == 16,
    ;
    assert(nc * (d * COEFF_SAMPLE_BYTES) < 0x1000_0000 || true);
    assert(nc * (d * COEFF_SAMPLE_BYTES) < 0x1000_0000) by (nonlinear_arith)
        requires
            0 <= nc,
            1 <= d,
            nc * d < 0x100_0000,
            COEFF_SAMPLE_BYTES == 16,
    ;
    assert(0 <= na * (d * COEFF_SAMPLE_BYTES) && na * (d * COEFF_SAMPLE_BYTES) <= 128 * (d
        * 16) && 128 * (d * 16) < 128 * 0x10_0000) by (nonlinear_arith)
        requires
            1 <= na <= 128,
            1 <= d,
            d * COEFF_SAMPLE_BYTES < 0x10_0000,
            COEFF_SAMPLE_BYTES == 16,
    ;
    assert(0 <= d * COEFF_ENCODE_BYTES && d * COEFF_ENCODE_BYTES <= d * 16)
        by (nonlinear_arith)
        requires
            1 <= d,
            COEFF_ENCODE_BYTES == 8,
            COEFF_SAMPLE_BYTES == 16,
    ;
    assert(0 <= (crs.k1 as int) * (d * COEFF_ENCODE_BYTES) && (crs.k1 as int) * (d
        * COEFF_ENCODE_BYTES) < 0x1000 * 0x10_0000 && 0 <= (crs.k2 as int) * (d
        * COEFF_ENCODE_BYTES) && (crs.k2 as int) * (d * COEFF_ENCODE_BYTES) < 0x1000
        * 0x10_0000) by (nonlinear_arith)
        requires
            1 <= (crs.k1 as int) < 0x1000,
            1 <= (crs.k2 as int) < 0x1000,
            0 <= d * COEFF_ENCODE_BYTES,
            d * COEFF_ENCODE_BYTES < 0x10_0000,
    ;
    assert(0 <= NUM_PROJECTIONS * (d * COEFF_ENCODE_BYTES) && NUM_PROJECTIONS * (d
        * COEFF_ENCODE_BYTES) < 256 * 0x10_0000) by (nonlinear_arith)
        requires
            0 <= d * COEFF_ENCODE_BYTES,
            d * COEFF_ENCODE_BYTES < 0x10_0000,
            NUM_PROJECTIONS == 256,
    ;
    ;
}

/// The inner commitment `u1`: the digit decompositions of the `t_i` bound
/// through the `B` family, and of the witness inner products through the
/// `C` family.
fn commit_u1(
    crs: &CommonReferenceString,
    t_vecs: &Vec<Vec<RingElement>>,
    witness: &Witness,
) -> (u1: Vec<RingElement>)
    requires
        crs_usable(*crs),
        witness_wf(*witness, crs.r as int, crs.n as int, crs.q as int, crs.d as int),
        t_vecs@.len() == crs.r,
        forall|u: int|
            0 <= u < crs.r ==> (#[trigger] t_vecs@[u])@.len() == crs.k && vec_wf(
                t_vecs@[u]@,
                crs.q as int,
                crs.d as int,
            ),
    ensures
        u1@.len() == crs.k1,
        vec_wf(u1@, crs.q as int, crs.d as int),
{
    let q = crs.q;
    let d = crs.d;
    let r = crs.r;
    let mut u1: Vec<RingElement> = Vec::new();
    for v in 0..crs.k1
        invariant
            crs_usable(*crs),
            q == crs.q,
            d == crs.d,
            u1@.len() == v,
            vec_wf(u1@, q as int, d as int),
    {
        u1.push(RingElement::zero(q, d));
    }
    // B family: row (i * t1 + l) * k1 + u of b_rows applied to digit l of t_i.
    for i in 0..r
        invariant
            crs_usable(*crs),
            q == crs.q,
            d == crs.d,
            r == crs.r,
            t_vecs@.len() == crs.r,
            forall|u: int|
                0 <= u < crs.r ==> (#[trigger] t_vecs@[u])@.len() == crs.k && vec_wf(
                    t_vecs@[u]@,
                    crs.q as int,
                    crs.d as int,
                ),
            u1@.len() == crs.k1,
            vec_wf(u1@, q as int, d as int),
    {
        let t1 = crs.t1;
        for l in 0..t1
            invariant
                crs_usable(*crs),
                q == crs.q,
                d == crs.d,
                r == crs.r,
                i < r,
                t1 == crs.t1,
                t_vecs@.len() == crs.r,
                forall|u: int|
                    0 <= u < crs.r ==> (#[trigger] t_vecs@[u])@.len() == crs.k && vec_wf(
                        t_vecs@[u]@,
                        crs.q as int,
                        crs.d as int,
                    ),
                u1@.len() == crs.k1,
                vec_wf(u1@, q as int, d as int),
        {
            let digits = digit_vec(q, d, crs.b1, l, &t_vecs[i]);
            for u in 0..crs.k1
                invariant
                    crs_usable(*crs),
                    q == crs.q,
                    d == crs.d,
                    r == crs.r,
                    i < r,
                    l < t1,
                    t1 == crs.t1,
                    digits@.len() == crs.k,
                    vec_wf(digits@, q as int, d as int),
                    u1@.len() == crs.k1,
                    vec_wf(u1@, q as int, d as int),
            {
                let brl = crs.b_rows.len();
                proof {
                    assert(brl as int == (crs.r as int) * (crs.t1 as int) * (crs.k1 as int));
                    assert((((i as int) * (crs.t1 as int) + l as int) * (crs.k1 as int)
                        + u as int) < ((crs.r as int) * (crs.t1 as int) * (crs.k1 as int)) && 0
                        <= (((i as int) * (crs.t1 as int) + l as int) * (crs.k1 as int)
                        + u as int) && 0 <= (i as int) * (crs.t1 as int) && (i as int) * (
                    crs.t1 as int) + (l as int) <= ((i as int) * (crs.t1 as int) + l as int) * (
                    crs.k1 as int) + (u as int) && ((i as int) * (crs.t1 as int) + (l as int))
                        * (crs.k1 as int) <= ((i as int) * (crs.t1 as int) + l as int) * (
                    crs.k1 as int) + (u as int)) by (nonlinear_arith)
                        requires
                            0 <= (i as int) < (crs.r as int),
                            0 <= (l as int) < (crs.t1 as int),
                            0 <= (u as int) < (crs.k1 as int),
                            1 <= (crs.k1 as int),
                    ;
                }
                let row_idx = (i * crs.t1 + l) * crs.k1 + u;
                let contribution = dot(q, d, &crs.b_rows[row_idx], &digits);
                let updated = u1[u].add(&contribution);
                u1[u] = updated;
                proof {
                    assert forall|w: int| 0 <= w < u1@.len() implies (#[trigger] u1@[w]).wf()
                        && u1@[w].modulus() == q && u1@[w].dim() == d by {}
                }
            }
        }
    }
    u1
}

/// The garbage commitment `u2`: the aggregated linear parts applied to
/// the witness, decomposed and bound through the `D` family.
fn commit_u2(
    crs: &CommonReferenceString,
    out: &PrincipalRelation,
    witness: &Witness,
) -> (u2: Vec<RingElement>)
    requires
        crs_usable(*crs),
        witness_wf(*witness, crs.r as int, crs.n as int, crs.q as int, crs.d as int),
        out.wf(crs.r as int, crs.n as int, crs.q as int, crs.d as int),
        out.quad_dot_prod_funcs@.len() == 1,
    ensures
        u2@.len() == crs.k2,
        vec_wf(u2@, crs.q as int, crs.d as int),
{
    let q = crs.q;
    let d = crs.d;
    let r = crs.r;
    let mut u2: Vec<RingElement> = Vec::new();
    for v in 0..crs.k2
        invariant
            crs_usable(*crs),
            q == crs.q,
            d == crs.d,
            u2@.len() == v,
            vec_wf(u2@, q as int, d as int),
    {
        u2.push(RingElement::zero(q, d));
    }
    let phi = out.quad_dot_prod_funcs[0].phi();
    // h_{i j} = <phi_i, s_j> + <phi_j, s_i>, bound through the D family
    // digit by digit.
    let mut tri_idx: usize = 0;
    for i in 0..r
        invariant
            crs_usable(*crs),
            q == crs.q,
            d == crs.d,
            r == crs.r,
            witness_wf(*witness, crs.r as int, crs.n as int, crs.q as int, crs.d as int),
            out.wf(crs.r as int, crs.n as int, crs.q as int, crs.d as int),
            out.quad_dot_prod_funcs@.len() == 1,
            phi@ == out.quad_dot_prod_funcs@[0].spec_phi(),
            tri_idx as int == crate::symmetric::tri(i as int),
            tri_idx <= 0x80_0000,
            u2@.len() == crs.k2,
            vec_wf(u2@, q as int, d as int),
    {
        let end = i + 1;
        for j in 0..end
            invariant
                crs_usable(*crs),
                q == crs.q,
                d == crs.d,
                r == crs.r,
                i < r,
                end == i + 1,
                witness_wf(*witness, crs.r as int, crs.n as int, crs.q as int, crs.d as int),
                out.wf(crs.r as int, crs.n as int, crs.q as int, crs.d as int),
                out.quad_dot_prod_funcs@.len() == 1,
                phi@ == out.quad_dot_prod_funcs@[0].spec_phi(),
                tri_idx as int == crate::symmetric::tri(i as int),
                tri_idx <= 0x80_0000,
                u2@.len() == crs.k2,
                vec_wf(u2@, q as int, d as int),
        {
            let h1 = dot(q, d, &phi[i], &witness.s[j]);
            let h2 = dot(q, d, &phi[j], &witness.s[i]);
            let h = h1.add(&h2);
            let hv = single_vec(h);
            let t1 = crs.t1;
            for l in 0..t1
                invariant
                    crs_usable(*crs),
                    q == crs.q,
                    d == crs.d,
                    r == crs.r,
                    i < r,
                    j < end,
                    end == i + 1,
                    t1 == crs.t1,
                    hv@.len() == 1,
                    vec_wf(hv@, q as int, d as int),
                    tri_idx as int == crate::symmetric::tri(i as int),
                    tri_idx <= 0x80_0000,
                    u2@.len() == crs.k2,
                    vec_wf(u2@, q as int, d as int),
            {
                let hdigits = digit_vec(q, d, crs.b1, l, &hv);
                proof {
                    crate::symmetric::lemma_tri_monotonic(0, i as int);
                    crate::symmetric::lemma_tri_monotonic(i as int + 1, crs.r as int);
                    assert(((tri_idx as int + j as int) * (crs.t1 as int) + l as int) < ((
                    crate::symmetric::tri(crs.r as int)) * (crs.t1 as int)) && 0 <= ((
                    tri_idx as int + j as int) * (crs.t1 as int) + l as int))
                        by (nonlinear_arith)
                        requires
                            0 <= (tri_idx as int),
                            0 <= (j as int) <= (i as int),
                            tri_idx as int + i as int + 1 <= crate::symmetric::tri(
                                crs.r as int,
                            ),
                            0 <= (l as int) < (crs.t1 as int),
                    ;
                }
                let drl = crs.d_rows.len();
                proof {
                    assert(drl as int == crate::symmetric::tri(crs.r as int) * (
                    crs.t1 as int));
                    assert(0 <= (tri_idx as int + j as int) * (crs.t1 as int))
                        by (nonlinear_arith)
                        requires
                            0 <= (tri_idx as int) + (j as int),
                            0 <= (crs.t1 as int),
                    ;
                }
                let row_idx = (tri_idx + j) * crs.t1 + l;
                let dvec = &crs.d_rows[row_idx];
                let hval = &hdigits[0];
                for u in 0..crs.k2
                    invariant
                        crs_usable(*crs),
                        q == crs.q,
                        d == crs.d,
                        row_idx < crate::symmetric::tri(crs.r as int) * crs.t1,
                        dvec@ == crs.d_rows@[row_idx as int]@,
                        dvec@.len() == crs.k2,
                        vec_wf(dvec@, q as int, d as int),
                        hval.wf(),
                        hval.modulus() == q,
                        hval.dim() == d,
                        u2@.len() == crs.k2,
                        vec_wf(u2@, q as int, d as int),
                {
                    let contribution = dvec[u].mul(hval);
                    let updated = u2[u].add(&contribution);
                    u2[u] = updated;
                    proof {
                        assert forall|w: int| 0 <= w < u2@.len() implies (
                        #[trigger] u2@[w]).wf() && u2@[w].modulus() == q && u2@[w].dim()
                            == d by {}
                    }
                }
            }
        }
        proof {
            crate::symmetric::lemma_tri_monotonic(0, i as int);
            crate::crs::lemma_tri_closed_form(i as int + 1);
            assert((i as int + 1) * (i as int + 2) <= 0xFFF * 0x1000) by (nonlinear_arith)
                requires
                    0 <= (i as int) < 0xFFF,
            ;
        }
        tri_idx = tri_idx + i + 1;
    }
    u2
}

/// A one-element vector.
fn single_vec(e: RingElement) -> (r: Vec<RingElement>)
    requires
        e.wf(),
    ensures
        r@.len() == 1,
        vec_wf(r@, e.modulus(), e.dim()),
        r@[0] == e,
{
    let mut r: Vec<RingElement> = Vec::new();
    r.push(e);
    r
}

/// Digit `l` of the base-`b1` positional decomposition of each entry's
/// canonical coefficients: coefficient `c` contributes
/// `(c / b1^l) % b1`.
fn digit_vec(q: u64, d: usize, b1: u64, l: usize, v: &Vec<RingElement>) -> (r: Vec<RingElement>)
    requires
        2 <= q <= Q_MAX,
        1 <= d <= D_MAX,
        vec_wf(v@, q as int, d as int),
    ensures
        r@.len() == v@.len(),
        vec_wf(r@, q as int, d as int),
{
    let base: u64 = if b1 < 2 {
        2
    } else {
        b1
    };
    let n = v.len();
    let mut r: Vec<RingElement> = Vec::new();
    for i in 0..n
        invariant
            2 <= q <= Q_MAX,
            1 <= d <= D_MAX,
            2 <= base,
            n == v@.len(),
            vec_wf(v@, q as int, d as int),
            r@.len() == i,
            vec_wf(r@, q as int, d as int),
    {
        proof {
            assert((#[trigger] v@[i as int]).wf() && v@[i as int].modulus() == q
                && v@[i as int].dim() == d);
        }
        let mut raw: Vec<u64> = Vec::new();
        let dd = v[i].dim_usize();
        for c in 0..dd
            invariant
                2 <= q <= Q_MAX,
                2 <= base,
                i < n,
                vec_wf(v@, q as int, d as int),
                n == v@.len(),
                (#[trigger] v@[i as int]).wf(),
                v@[i as int].modulus() == q,
                dd == v@[i as int].dim(),
                raw@.len() == c,
        {
            let coeff = v[i].coeff(c);
            let mut val = coeff.val_u64();
            let mut step: usize = 0;
            while step < l
                invariant
                    2 <= base,
                decreases l - step,
            {
                val = val / base;
                step = step + 1;
            }
            raw.push(val % base);
        }
        proof {
            assert(raw@.len() == d);
        }
        let digit = RingElement::from_u64s(q, &raw);
        r.push(digit);
    }
    r
}

} // verus!


