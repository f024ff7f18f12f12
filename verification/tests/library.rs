//! End-to-end tests of the library: the packed symmetric matrices, the ring
//! arithmetic, the parameter derivation, and the full prove/verify round of
//! the principal-relation argument.

use lova::argument::{PrincipalArgument, ProtocolParameters};
use lova::challenge::WeightedTernaryChallengeSet;
use lova::crs::CommonReferenceString;
use lova::linalg;
use lova::protocol;
use lova::reduction::{Reduction, Relation};
use lova::relation::{PrincipalRelation, QuadDotProdFunction, Witness};
use lova::ring::RingElement;
use lova::sample;
use lova::sponge::Sponge;
use lova::symmetric::{lower_triang_indices, lowertriang_from_vec, vec_from_lowertriang};
use lova::transcript::{ProverTranscript, VerifierTranscript};
use lova::zq::Zq;
use lova::SymmetricMatrix;

const Q: u64 = 3329;
const D: usize = 1;

fn elem(v: u64) -> RingElement {
    RingElement::from_u64s(Q, &vec![v])
}

fn seeded_sponge(tag: u64) -> Sponge {
    let mut g = Sponge::new(tag);
    g.absorb_bytes(&vec![1, 2, 3, 4]);
    g
}

#[test]
fn test_lowertriang_vec() {
    let n: usize = 100;
    let dim = (n * (n + 1)) / 2;
    let x: Vec<usize> = (0..dim).collect();
    let mat = lowertriang_from_vec(x.clone(), n);

    assert_eq!(mat.len(), n);
    for i in 0..mat.len() {
        assert_eq!(mat[i].len(), i + 1);
    }
    assert_eq!(x, vec_from_lowertriang(mat.clone()));
    assert_eq!(mat, lowertriang_from_vec(vec_from_lowertriang(mat.clone()), n));
}

#[test]
fn test_lower_triang_indices() {
    let idx = lower_triang_indices(4);
    assert_eq!(idx.len(), 10);
    assert_eq!(idx[0], (0, 0));
    assert_eq!(idx[1], (1, 0));
    assert_eq!(idx[2], (1, 1));
    assert_eq!(idx[9], (3, 3));
}

#[test]
fn test_symmetric_matrix_accessors() {
    let mut m: SymmetricMatrix<u64> = SymmetricMatrix::zero(3, 0);
    assert_eq!(m.size(), 3);
    m.at_mut(0, 2, 7);
    assert_eq!(*m.at(2, 0), 7);
    assert_eq!(*m.at(0, 2), 7);
    m.at_mut(1, 1, 5);
    assert_eq!(m.diag(), vec![0, 5, 0]);
}

#[test]
fn test_ring_arithmetic() {
    // (1 + 2X)(3 + 4X) mod (X^2 + 1) over Z_17: 3 + 10X + 8X^2 == -5 + 10X.
    let a = RingElement::from_u64s(17, &vec![1, 2]);
    let b = RingElement::from_u64s(17, &vec![3, 4]);
    let c = a.mul(&b);
    assert_eq!(c.coeff(0).val_u64(), 12);
    assert_eq!(c.coeff(1).val_u64(), 10);
    // Multiplication commutes on this example.
    assert!(c.equals(&b.mul(&a)));
    // Norms over centered representatives: 16 == -1, so its square is 1.
    let e = RingElement::from_u64s(17, &vec![16, 3]);
    assert_eq!(e.norm_sq(), 1 + 9);
    assert_eq!(e.linf_norm(), 3);
}

#[test]
fn test_ring_codec_roundtrip() {
    let e = RingElement::from_u64s(Q, &vec![5]);
    let bytes = e.to_bytes();
    let back = RingElement::from_bytes(Q, D, &bytes).expect("canonical bytes decode");
    assert!(back.equals(&e));
    // A coefficient at or above the modulus is rejected.
    let mut bad = bytes.clone();
    bad[0] = 0xff;
    bad[1] = 0xff;
    assert!(RingElement::from_bytes(Q, D, &bad).is_none());
}

#[test]
fn test_zq_inverse() {
    let x = Zq::new(17, 5);
    let inv = x.inverse().expect("5 is a unit modulo 17");
    assert_eq!((inv.val_u64() * 5) % 17, 1);
    let zero = Zq::zero(17);
    assert!(zero.inverse().is_none());
}

#[test]
fn test_inner_products() {
    // The parallel pairwise inner products equal the serial ones.
    let q: u64 = 7681;
    let d: usize = 64;
    let mut g = seeded_sponge(11);
    let mut s: Vec<Vec<RingElement>> = Vec::new();
    for _ in 0..3 {
        s.push(sample::sample_uniform_vec(q, d, 2, &mut g));
    }
    let serial = linalg::inner_products_serial(q, d, &s, 2);
    let parallel = linalg::inner_products(q, d, &s, 2);
    assert_eq!(serial, parallel);
}

#[test]
fn test_inner_products_mat() {
    // The packed column inner products equal the full Gram matrix.
    let q: u64 = 7681;
    let rows: usize = 101;
    let colcount: usize = 42;
    let mut cols: Vec<Vec<Zq>> = Vec::new();
    for i in 0..colcount {
        let mut col: Vec<Zq> = Vec::new();
        for j in 0..rows {
            col.push(Zq::new(q, (i as u64 * 31 + j as u64 * 17 + 3) % q));
        }
        cols.push(col);
    }
    let packed = linalg::inner_products_mat(q, &cols);
    let gram = linalg::zq_gram_matrix(q, &cols);
    for i in 0..colcount {
        for j in 0..colcount {
            assert_eq!(packed.at(i, j).val_u64(), gram[i][j].val_u64());
        }
    }
}

#[test]
fn test_sample_uniform() {
    let m = 10;
    let n = 20;
    let mut g = seeded_sponge(3);
    let a = sample::sample_uniform_mat(Q, D, m, n, &mut g);
    assert_eq!(a.len(), m);
    for row in &a {
        assert_eq!(row.len(), n);
    }
}

#[test]
fn test_parameter_derivation() {
    // r = 1, n = 1, norm bound squared 2, over the toy ring with d = 1.
    let seed: Vec<u8> = vec![42; 32];
    let crs = CommonReferenceString::new(1, 1, 2, 1, 0, Q, D, &seed).expect("derivable");
    assert_eq!(crs.b, 3);
    assert_eq!(crs.t1, 7);
    assert_eq!(crs.b1, 3);
    assert_eq!(crs.t2, 2);
    assert_eq!(crs.b2, 3);
    assert_eq!(crs.k, 1);
    assert_eq!(crs.k1, 2);
    assert_eq!(crs.k2, 2);
    assert_eq!(crs.num_aggregs, 11);
}

#[test]
fn test_parameter_derivation_rejects_large_bound() {
    // Against q = 3329 the ceiling 2_000_000 beta_sq < 30 q^2 fails for
    // beta_sq = 200.
    let seed: Vec<u8> = vec![42; 32];
    let res = CommonReferenceString::new(1, 1, 200, 1, 0, Q, D, &seed);
    assert!(res.is_err());
}

#[test]
fn test_parameter_derivation_deterministic() {
    // Identical inputs and seed give byte-identical public matrices.
    let seed: Vec<u8> = vec![9; 32];
    let c1 = CommonReferenceString::new(2, 2, 8, 1, 1, Q, D, &seed).expect("derivable");
    let c2 = CommonReferenceString::new(2, 2, 8, 1, 1, Q, D, &seed).expect("derivable");
    assert_eq!(c1.a_mat.len(), c2.a_mat.len());
    for (r1, r2) in c1.a_mat.iter().zip(c2.a_mat.iter()) {
        for (e1, e2) in r1.iter().zip(r2.iter()) {
            assert!(e1.equals(e2));
        }
    }
    for (r1, r2) in c1.b_rows.iter().zip(c2.b_rows.iter()) {
        for (e1, e2) in r1.iter().zip(r2.iter()) {
            assert!(e1.equals(e2));
        }
    }
    for (r1, r2) in c1.c_rows.iter().zip(c2.c_rows.iter()) {
        for (e1, e2) in r1.iter().zip(r2.iter()) {
            assert!(e1.equals(e2));
        }
    }
    for (r1, r2) in c1.d_rows.iter().zip(c2.d_rows.iter()) {
        for (e1, e2) in r1.iter().zip(r2.iter()) {
            assert!(e1.equals(e2));
        }
    }
}

#[test]
fn test_next_norm_bound_value() {
    let seed: Vec<u8> = vec![42; 32];
    let crs = CommonReferenceString::new(1, 1, 2, 1, 0, Q, D, &seed).expect("derivable");
    // gamma1 = 9*7*1*1*1 + 9*2*1*1 = 81; gamma2 = 9*7*1*1 = 63;
    // numerator = 639*1*2 + 2*9*81*63 = 93132; denominator = 288*9 = 2592.
    let (num, den) = crs.next_norm_bound_sq(1);
    assert_eq!(num, 93132);
    assert_eq!(den, 2592);
    // The bound never drops below the challenge-amplified witness term.
    assert!(num >= 639 * 1 * 2);
}

fn toy_instance(b_val: u64) -> (PrincipalRelation, Witness) {
    let one = elem(1);
    let phi = vec![vec![one.clone()]];
    let c = QuadDotProdFunction::new_linear(phi, elem(b_val)).expect("well-shaped");
    let instance = PrincipalRelation::new(vec![c], Vec::new());
    let witness = Witness::new(vec![vec![elem(1)]]);
    (instance, witness)
}

fn instances_equal(a: &PrincipalRelation, b: &PrincipalRelation) -> bool {
    if a.quad_dot_prod_funcs.len() != b.quad_dot_prod_funcs.len() {
        return false;
    }
    for (ca, cb) in a.quad_dot_prod_funcs.iter().zip(b.quad_dot_prod_funcs.iter()) {
        if !ca.b().equals(cb.b()) {
            return false;
        }
        let pa = ca.phi();
        let pb = cb.phi();
        if pa.len() != pb.len() {
            return false;
        }
        for (ra, rb) in pa.iter().zip(pb.iter()) {
            if ra.len() != rb.len() {
                return false;
            }
            for (ea, eb) in ra.iter().zip(rb.iter()) {
                if !ea.equals(eb) {
                    return false;
                }
            }
        }
        match (ca.a(), cb.a()) {
            (None, None) => {},
            (Some(ma), Some(mb)) => {
                if ma.size() != mb.size() {
                    return false;
                }
                for i in 0..ma.size() {
                    for j in 0..ma.size() {
                        if !ma.at(i, j).equals(mb.at(i, j)) {
                            return false;
                        }
                    }
                }
            },
            _ => {
                return false;
            },
        }
    }
    a.ct_quad_dot_prod_funcs.len() == b.ct_quad_dot_prod_funcs.len()
}

#[test]
fn test_prove_verify_roundtrip() {
    // The concrete completeness scenario: r = 1, n = 1, norm bound squared
    // 2, the single linear constraint dot([1], [1]) == 1.
    let seed: Vec<u8> = vec![7; 32];
    let crs = CommonReferenceString::new(1, 1, 2, 1, 0, Q, D, &seed).expect("derivable");
    let (instance, witness) = toy_instance(1);
    assert!(instance.is_valid_witness(&witness, 1, 1, Q, D));
    assert!(crs.is_wellformed_instance(&instance));
    assert!(crs.is_wellformed_witness(&witness));

    let mut merlin = ProverTranscript::new(protocol::PROTOCOL_DOMAIN);
    let (inst_p, wit_p) = protocol::prove_principal_relation(&crs, &instance, witness, &mut merlin)
        .expect("honest prover succeeds");
    // The reduced output witness satisfies the reduced output instance.
    assert!(inst_p.is_valid_witness(&wit_p, 1, 1, Q, D));

    let proof = merlin.into_proof();
    let mut arthur = VerifierTranscript::new(protocol::PROTOCOL_DOMAIN, proof);
    let inst_v = protocol::verify_principal_relation(&crs, &instance, &mut arthur)
        .expect("honest proof verifies");
    // Prover- and verifier-derived reduced instances are identical.
    assert!(instances_equal(&inst_p, &inst_v));
}

#[test]
fn test_soundness_smoke() {
    // The same witness against the target mutated to 2: the satisfaction
    // predicate fails, and the reduced output witness does not satisfy the
    // reduced output instance.
    let seed: Vec<u8> = vec![7; 32];
    let crs = CommonReferenceString::new(1, 1, 2, 1, 0, Q, D, &seed).expect("derivable");
    let (instance, witness) = toy_instance(2);
    assert!(!instance.is_valid_witness(&witness, 1, 1, Q, D));

    let mut merlin = ProverTranscript::new(protocol::PROTOCOL_DOMAIN);
    let (inst_p, wit_p) = protocol::prove_principal_relation(&crs, &instance, witness, &mut merlin)
        .expect("the prover runs on a shape-valid witness");
    assert!(!inst_p.is_valid_witness(&wit_p, 1, 1, Q, D));
}

#[test]
fn test_verifier_rejects_truncated_proof() {
    let seed: Vec<u8> = vec![7; 32];
    let crs = CommonReferenceString::new(1, 1, 2, 1, 0, Q, D, &seed).expect("derivable");
    let (instance, witness) = toy_instance(1);
    let mut merlin = ProverTranscript::new(protocol::PROTOCOL_DOMAIN);
    protocol::prove_principal_relation(&crs, &instance, witness, &mut merlin)
        .expect("honest prover succeeds");
    let mut proof = merlin.into_proof();
    proof.truncate(4);
    let mut arthur = VerifierTranscript::new(protocol::PROTOCOL_DOMAIN, proof);
    let res = protocol::verify_principal_relation(&crs, &instance, &mut arthur);
    assert!(res.is_err());
}

#[test]
fn test_bad_witness_rejected_by_prover() {
    let seed: Vec<u8> = vec![7; 32];
    let crs = CommonReferenceString::new(1, 1, 2, 1, 0, Q, D, &seed).expect("derivable");
    let (instance, _) = toy_instance(1);
    // A witness of the wrong shape: two vectors instead of one.
    let witness = Witness::new(vec![vec![elem(1)], vec![elem(1)]]);
    let mut merlin = ProverTranscript::new(protocol::PROTOCOL_DOMAIN);
    let res = protocol::prove_principal_relation(&crs, &instance, witness, &mut merlin);
    assert!(res.is_err());
}

#[test]
fn test_ternary_challenge_mapping() {
    assert_eq!(WeightedTernaryChallengeSet::byte_size(5), 5);
    let e0 = WeightedTernaryChallengeSet::try_from_random_bytes(17, 4, &vec![0, 1, 2, 3])
        .expect("four bytes for dimension four");
    assert_eq!(e0.coeff(0).val_u64(), 0);
    assert_eq!(e0.coeff(1).val_u64(), 1);
    assert_eq!(e0.coeff(2).val_u64(), 16);
    assert_eq!(e0.coeff(3).val_u64(), 0);
    assert!(WeightedTernaryChallengeSet::try_from_random_bytes(17, 4, &vec![0]).is_none());
}

#[test]
fn test_witness_norm_check() {
    let seed: Vec<u8> = vec![7; 32];
    let crs = CommonReferenceString::new(1, 1, 2, 1, 0, Q, D, &seed).expect("derivable");
    // Norm 1 <= 2 passes; norm 4 > 2 fails.
    assert!(crs.is_wellformed_witness(&Witness::new(vec![vec![elem(1)]])));
    assert!(!crs.is_wellformed_witness(&Witness::new(vec![vec![elem(2)]])));
}

#[test]
fn test_reduction_completeness_self_test() {
    let seed: Vec<u8> = vec![7; 32];
    let crs = CommonReferenceString::new(1, 1, 2, 1, 0, Q, D, &seed).expect("derivable");
    let pp = ProtocolParameters::new(crs).expect("usable");
    let mut g = seeded_sponge(0x11);
    let ok = <PrincipalArgument as Reduction<
        ProtocolParameters,
        ProtocolParameters,
        ProtocolParameters,
    >>::test_completeness(&pp, &pp, &pp, &(), &mut g);
    assert!(ok);
}

#[test]
fn test_reduction_soundness_self_test() {
    let seed: Vec<u8> = vec![7; 32];
    let crs = CommonReferenceString::new(1, 1, 2, 1, 0, Q, D, &seed).expect("derivable");
    let pp = ProtocolParameters::new(crs).expect("usable");
    let mut g = seeded_sponge(0x12);
    let ok = <PrincipalArgument as Reduction<
        ProtocolParameters,
        ProtocolParameters,
        ProtocolParameters,
    >>::test_soundness(&pp, &pp, &pp, &(), &mut g);
    assert!(ok);
}

#[test]
fn test_generated_instances_match_their_labels() {
    let seed: Vec<u8> = vec![9; 32];
    let crs = CommonReferenceString::new(2, 2, 8, 2, 1, Q, D, &seed).expect("derivable");
    let pp = ProtocolParameters::new(crs).expect("usable");
    let mut g = seeded_sponge(0x13);
    let (i1, x1, w1) = pp.generate_satisfied_instance(&(), &mut g);
    assert!(pp.is_satisfied(&i1, &x1, &w1));
    let (i2, x2, w2) = pp.generate_unsatisfied_instance(&(), &mut g);
    assert!(!pp.is_satisfied(&i2, &x2, &w2));
}

#[test]
fn test_instance_validator_rejects_wrong_phi_length() {
    // A constraint that is internally consistent for n = 2 does not fit a
    // reference string declaring n = 1.
    let seed: Vec<u8> = vec![7; 32];
    let crs = CommonReferenceString::new(1, 1, 2, 1, 0, Q, D, &seed).expect("derivable");
    let phi = vec![vec![elem(1), elem(1)]];
    let c = QuadDotProdFunction::new_linear(phi, elem(1)).expect("well-shaped for n = 2");
    let instance = PrincipalRelation::new(vec![c], Vec::new());
    assert!(!crs.is_wellformed_instance(&instance));
}
