//! The base ring: integers modulo a public modulus `q`.
//!
//! A scalar carries its modulus, so that values from different rings can
//! never be combined: every operation requires both operands to agree on
//! `q`. Values are kept canonical, in `0 .. q`. The modulus is capped at
//! `2^31` so that products and running sums fit comfortably in the machine
//! integers the executable code uses.

use vstd::prelude::*;

verus! {

/// Largest admitted modulus, `2^31`.
pub const Q_MAX: u64 = 0x8000_0000;

/// A base-ring scalar: a canonical residue `v` modulo `q`.
#[derive(Clone, Copy, Debug, PartialEq, Eq, Structural)]
pub struct Zq {
    q: u64,
    v: u64,
}

impl Zq {
    pub closed spec fn modulus(self) -> int {
        self.q as int
    }

    pub closed spec fn val(self) -> int {
        self.v as int
    }

    /// Valid scalar: admitted modulus, canonical value.
    pub open spec fn wf(self) -> bool {
        2 <= self.modulus() <= Q_MAX && 0 <= self.val() < self.modulus()
    }

    /// The canonical residue of `v` modulo `q`.
    pub fn new(q: u64, v: u64) -> (r: Zq)
        requires
            2 <= q <= Q_MAX,
        ensures
            r.wf(),
            r.modulus() == q,
            r.val() == v as int % q as int,
    {
        Zq { q, v: v % q }
    }

    pub fn modulus_u64(&self) -> (r: u64)
        ensures
            r == self.modulus(),
    {
        self.q
    }

    pub fn val_u64(&self) -> (r: u64)
        ensures
            r == self.val(),
    {
        self.v
    }

    pub fn zero(q: u64) -> (r: Zq)
        requires
            2 <= q <= Q_MAX,
        ensures
            r.wf(),
            r.modulus() == q,
            r.val() == 0,
    {
        Zq { q, v: 0 }
    }

    pub fn one(q: u64) -> (r: Zq)
        requires
            2 <= q <= Q_MAX,
        ensures
            r.wf(),
            r.modulus() == q,
            r.val() == 1,
    {
        Zq { q, v: 1 }
    }

    pub fn add(&self, other: &Zq) -> (r: Zq)
        requires
            self.wf(),
            other.wf(),
            self.modulus() == other.modulus(),
        ensures
            r.wf(),
            r.modulus() == self.modulus(),
            r.val() == (self.val() + other.val()) % self.modulus(),
    {
        Zq { q: self.q, v: (self.v + other.v) % self.q }
    }

    pub fn neg(&self) -> (r: Zq)
        requires
            self.wf(),
        ensures
            r.wf(),
            r.modulus() == self.modulus(),
            r.val() == (self.modulus() - self.val()) % self.modulus(),
            (r.val() + self.val()) % self.modulus() == 0,
    {
        let r = Zq { q: self.q, v: (self.q - self.v) % self.q };
        proof {
            let q = self.modulus();
            if self.val() == 0 {
                vstd::arithmetic::div_mod::lemma_mod_self_0(q);
                vstd::arithmetic::div_mod::lemma_small_mod(0, q as nat);
                assert(r.val() == 0);
            } else {
                assert(r.val() == (q - self.val()) % q);
                vstd::arithmetic::div_mod::lemma_small_mod((q - self.val()) as nat, q as nat);
                vstd::arithmetic::div_mod::lemma_mod_self_0(q);
            }
        }
        r
    }

    pub fn sub(&self, other: &Zq) -> (r: Zq)
        requires
            self.wf(),
            other.wf(),
            self.modulus() == other.modulus(),
        ensures
            r.wf(),
            r.modulus() == self.modulus(),
            r.val() % self.modulus() == (self.val() - other.val()) % self.modulus(),
    {
        let r = Zq { q: self.q, v: (self.v + (self.q - other.v)) % self.q };
        proof {
            let q = self.modulus();
            let a = self.val();
            let b = other.val();
            assert(r.val() == (a + (q - b)) % q);
            assert((a + (q - b)) % q == (a - b) % q) by {
                vstd::arithmetic::div_mod::lemma_mod_add_multiples_vanish(a - b, q);
                assert(a + (q - b) == q + (a - b));
            }
            vstd::arithmetic::div_mod::lemma_mod_twice(a - b, q);
        }
        r
    }

    pub fn mul(&self, other: &Zq) -> (r: Zq)
        requires
            self.wf(),
            other.wf(),
            self.modulus() == other.modulus(),
        ensures
            r.wf(),
            r.modulus() == self.modulus(),
            r.val() == (self.val() * other.val()) % self.modulus(),
    {
        proof {
            assert(self.val() * other.val() < 0x4000_0000_0000_0000) by (nonlinear_arith)
                requires
                    0 <= self.val() < 0x8000_0000,
                    0 <= other.val() < 0x8000_0000,
            ;
        }
        let prod: u64 = self.v * other.v;
        Zq { q: self.q, v: prod % self.q }
    }

    /// `w` inverts this value modulo `q`.
    pub open spec fn is_inverse(self, w: int) -> bool {
        (self.val() * w) % self.modulus() == 1
    }

    /// The multiplicative inverse, if the value is a unit modulo `q`; found
    /// by exhaustive search, which keeps the contract exact in both
    /// directions (the moduli this library is exercised with are small).
    pub fn inverse(&self) -> (r: Option<Zq>)
        requires
            self.wf(),
        ensures
            match r {
                Some(w) => w.wf() && w.modulus() == self.modulus() && self.is_inverse(w.val()),
                None => forall|w: int| 0 <= w < self.modulus() ==> !#[trigger] self.is_inverse(w),
            },
    {
        let mut i: u64 = 0;
        while i < self.q
            invariant
                self.wf(),
                i <= self.q,
                forall|w: int| 0 <= w < i ==> !#[trigger] self.is_inverse(w),
            decreases self.q - i,
        {
            proof {
                assert(self.val() * i < 0x4000_0000_0000_0000) by (nonlinear_arith)
                    requires
                        0 <= self.val() < 0x8000_0000,
                        0 <= i < 0x8000_0000,
                ;
            }
            let prod: u64 = self.v * i;
            if prod % self.q == 1 {
                return Some(Zq { q: self.q, v: i });
            }
            proof {
                assert(!self.is_inverse(i as int));
            }
            i = i + 1;
        }
        None
    }

    /// The centered representative: the integer of least magnitude congruent
    /// to this value, with ties at `q/2` resolved upward.
    pub open spec fn centered(self) -> int {
        if 2 * self.val() <= self.modulus() {
            self.val()
        } else {
            self.val() - self.modulus()
        }
    }

    /// The square of the centered representative, the scalar's contribution
    /// to a squared L2 norm.
    pub fn centered_sq(&self) -> (r: u64)
        requires
            self.wf(),
        ensures
            r == self.centered() * self.centered(),
            r <= self.modulus() * self.modulus(),
    {
        if 2 * self.v <= self.q {
            proof {
                assert(self.val() * self.val() <= self.modulus() * self.modulus()
                    <= 0x4000_0000_0000_0000) by (nonlinear_arith)
                    requires
                        0 <= self.val() <= self.modulus() <= 0x8000_0000,
                ;
            }
            self.v * self.v
        } else {
            let m: u64 = self.q - self.v;
            proof {
                assert(self.centered() == -(m as int));
                assert((-(m as int)) * (-(m as int)) == m as int * m as int) by (nonlinear_arith);
                assert(m as int * m as int <= self.modulus() * self.modulus()
                    <= 0x4000_0000_0000_0000) by (nonlinear_arith)
                    requires
                        0 <= m as int <= self.modulus() <= 0x8000_0000,
                ;
            }
            m * m
        }
    }
}

} // verus!
