//! A lattice-based succinct argument of knowledge over a cyclotomic polynomial
//! ring: parameter derivation for a common reference string, the principal
//! relation (quadratic dot-product constraints over norm-bounded witness
//! vectors), the fixed absorb/squeeze transcript protocol, the honest prover,
//! the replaying verifier, and a generic reduction interface with
//! completeness/soundness self-tests.

pub mod argument;
pub mod challenge;
pub mod crs;
pub mod derive;
pub mod linalg;
pub mod protocol;
pub mod r1cs;
pub mod reduction;
pub mod random;
pub mod relation;
pub mod ring;
pub mod sample;
pub mod sponge;
pub mod symmetric;
pub mod transcript;
pub mod zq;

pub use symmetric::SymmetricMatrix;
pub use zq::Zq;
