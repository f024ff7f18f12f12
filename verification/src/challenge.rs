//! Challenge distributions: deterministic maps from random bytes to low-norm
//! ring elements.
//!
//! The weighted ternary set draws each coefficient from `{-1, 0, 1}` with
//! `Pr[0] = 1/2`, `Pr[1] = Pr[-1] = 1/4`; it keeps the norm growth of the
//! projection step small. The main challenge set draws each coefficient
//! from `{-2, ..., 2}` with `Pr[0] = 46/128`, `Pr[+-1] = 31/128`,
//! `Pr[+-2] = 10/128`; it is the wider distribution of the final opening
//! challenges, with known per-coefficient variance and an operator-norm
//! threshold used by the parameter deriver.

use vstd::prelude::*;

use crate::ring::{D_MAX, RingElement};
use crate::zq::{Q_MAX, Zq};

verus! {

/// The ternary value a byte maps to, as a canonical residue: the low two
/// bits give `0, 1, -1, 0` in that order.
pub open spec fn ternary_of_byte(b: u8, q: int) -> int {
    let v = b & 3;
    if v == 0 || v == 3 {
        0
    } else if v == 1 {
        1
    } else {
        q - 1
    }
}

/// The five-valued main-challenge value a byte maps to, as a canonical
/// residue: the low seven bits split `0..128` into bands of mass
/// `46, 31, 31, 10, 10` for `0, 1, -1, 2, -2`.
pub open spec fn wide_of_byte(b: u8, q: int) -> int {
    let v = b & 0x7f;
    if v < 46 {
        0
    } else if v < 77 {
        1
    } else if v < 108 {
        q - 1
    } else if v < 118 {
        2
    } else {
        q - 2
    }
}

/// Challenge set over `{-1, 0, 1}` with `Pr[0] = 1/2`,
/// `Pr[1] = Pr[-1] = 1/4`.
pub struct WeightedTernaryChallengeSet {}

impl WeightedTernaryChallengeSet {
    /// Bytes consumed per sampled base-ring scalar.
    pub fn scalar_byte_size() -> (r: usize)
        ensures
            r == 1,
    {
        1
    }

    /// Bytes consumed per sampled ring element of dimension `d`.
    pub fn byte_size(d: usize) -> (r: usize)
        ensures
            r == d,
    {
        d
    }

    /// The scalar a one-byte string maps to; `None` unless exactly one byte
    /// is given.
    pub fn try_scalar_from_random_bytes(q: u64, bytes: &Vec<u8>) -> (r: Option<Zq>)
        requires
            2 <= q <= Q_MAX,
        ensures
            match r {
                Some(s) => bytes@.len() == 1 && s.wf() && s.modulus() == q && s.val()
                    == ternary_of_byte(bytes@[0], q as int),
                None => bytes@.len() != 1,
            },
    {
        if bytes.len() != 1 {
            return None;
        }
        let v = bytes[0] & 3;
        if v == 0 || v == 3 {
            Some(Zq::zero(q))
        } else if v == 1 {
            Some(Zq::one(q))
        } else {
            let one = Zq::one(q);
            let m = one.neg();
            proof {
                vstd::arithmetic::div_mod::lemma_small_mod((q - 1) as nat, q as nat);
            }
            Some(m)
        }
    }

    /// The ring element a `d`-byte string maps to, one ternary coefficient
    /// per byte; `None` unless exactly `d` bytes are given.
    pub fn try_from_random_bytes(q: u64, d: usize, bytes: &Vec<u8>) -> (r: Option<RingElement>)
        requires
            2 <= q <= Q_MAX,
            1 <= d <= D_MAX,
        ensures
            match r {
                Some(e) => bytes@.len() == d && e.wf() && e.modulus() == q && e.dim() == d
                    && forall|i: int|
                    0 <= i < d ==> #[trigger] e.coeffs()[i] == ternary_of_byte(
                        bytes@[i],
                        q as int,
                    ),
                None => bytes@.len() != d,
            },
    {
        if bytes.len() != d {
            return None;
        }
        let mut raw: Vec<u64> = Vec::new();
        for i in 0..d
            invariant
                2 <= q <= Q_MAX,
                d == bytes@.len(),
                raw@.len() == i,
                forall|k: int|
                    0 <= k < i ==> #[trigger] raw@[k] as int == ternary_of_byte(
                        bytes@[k],
                        q as int,
                    ),
                forall|k: int| 0 <= k < i ==> #[trigger] raw@[k] < q,
        {
            let v = bytes[i] & 3;
            let c: u64 = if v == 0 || v == 3 {
                0
            } else if v == 1 {
                1
            } else {
                q - 1
            };
            raw.push(c);
        }
        let e = RingElement::from_u64s(q, &raw);
        proof {
            assert forall|i: int| 0 <= i < d implies #[trigger] e.coeffs()[i] == ternary_of_byte(
                bytes@[i],
                q as int,
            ) by {
                assert(e.coeffs()[i] == raw@[i] as int % q as int);
                vstd::arithmetic::div_mod::lemma_small_mod(raw@[i] as nat, q as nat);
            }
        }
        Some(e)
    }
}

/// The wider challenge set of the final opening step, over `{-2, ..., 2}`.
pub struct MainChallengeSet {}

impl MainChallengeSet {
    /// Per-coefficient variance of the distribution, as a fraction:
    /// `(2*31 + 8*10) / 128 == 71/64`. Summed over the 64 coefficients of
    /// a ring of dimension 64 this gives the challenge variance sum `71`.
    pub fn variance_num() -> (r: u64)
        ensures
            r == 71,
    {
        71
    }

    /// Denominator of the per-coefficient variance.
    pub fn variance_den() -> (r: u64)
        ensures
            r == 64,
    {
        64
    }

    /// Operator-norm threshold of the distribution: a sampled challenge
    /// exceeds operator norm 15 only with negligible probability, and the
    /// parameter deriver prices norm growth with this constant.
    pub fn operator_norm_threshold() -> (r: u64)
        ensures
            r == 15,
    {
        15
    }

    /// Bytes consumed per sampled ring element of dimension `d`.
    pub fn byte_size(d: usize) -> (r: usize)
        ensures
            r == d,
    {
        d
    }

    /// The ring element a `d`-byte string maps to, one five-valued
    /// coefficient per byte; `None` unless exactly `d` bytes are given.
    pub fn try_from_random_bytes(q: u64, d: usize, bytes: &Vec<u8>) -> (r: Option<RingElement>)
        requires
            5 <= q <= Q_MAX,
            1 <= d <= D_MAX,
        ensures
            match r {
                Some(e) => bytes@.len() == d && e.wf() && e.modulus() == q && e.dim() == d
                    && forall|i: int|
                    0 <= i < d ==> #[trigger] e.coeffs()[i] == wide_of_byte(bytes@[i], q as int),
                None => bytes@.len() != d,
            },
    {
        if bytes.len() != d {
            return None;
        }
        let mut raw: Vec<u64> = Vec::new();
        for i in 0..d
            invariant
                5 <= q <= Q_MAX,
                d == bytes@.len(),
                raw@.len() == i,
                forall|k: int|
                    0 <= k < i ==> #[trigger] raw@[k] as int == wide_of_byte(bytes@[k], q as int),
                forall|k: int| 0 <= k < i ==> #[trigger] raw@[k] < q,
        {
            let v = bytes[i] & 0x7f;
            let c: u64 = if v < 46 {
                0
            } else if v < 77 {
                1
            } else if v < 108 {
                q - 1
            } else if v < 118 {
                2
            } else {
                q - 2
            };
            raw.push(c);
        }
        let e = RingElement::from_u64s(q, &raw);
        proof {
            assert forall|i: int| 0 <= i < d implies #[trigger] e.coeffs()[i] == wide_of_byte(
                bytes@[i],
                q as int,
            ) by {
                assert(e.coeffs()[i] == raw@[i] as int % q as int);
                vstd::arithmetic::div_mod::lemma_small_mod(raw@[i] as nat, q as nat);
            }
        }
        Some(e)
    }
}

} // verus!
