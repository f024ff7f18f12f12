//! Elements of the cyclotomic quotient ring `Z_q[X] / (X^d + 1)`.
//!
//! An element carries its modulus `q` and its `d` coefficients, kept
//! canonical in `0 .. q`. The mathematical model of an element is its
//! coefficient sequence as unbounded integers; the ring operations are
//! specified through integer polynomial arithmetic (`poly_add`, `poly_mul`,
//! ...) followed by coefficient-wise reduction modulo `q`. Multiplication is
//! negacyclic: `X^d == -1`.

use vstd::arithmetic::div_mod::{
    lemma_add_mod_noop, lemma_mod_add_multiples_vanish, lemma_mod_bound, lemma_mod_twice,
    lemma_mul_mod_noop_right, lemma_small_mod,
};
use vstd::prelude::*;

use crate::zq::{Q_MAX, Zq};

verus! {

/// Coefficient-wise sum of two equal-length integer polynomials.
pub open spec fn poly_add(a: Seq<int>, b: Seq<int>) -> Seq<int> {
    Seq::new(a.len(), |i: int| a[i] + b[i])
}

/// Coefficient-wise negation.
pub open spec fn poly_neg(a: Seq<int>) -> Seq<int> {
    Seq::new(a.len(), |i: int| -a[i])
}

/// Scaling by an integer.
pub open spec fn poly_scale(c: int, a: Seq<int>) -> Seq<int> {
    Seq::new(a.len(), |i: int| c * a[i])
}

/// Coefficient-wise reduction modulo `q`.
pub open spec fn poly_reduce(a: Seq<int>, q: int) -> Seq<int> {
    Seq::new(a.len(), |i: int| a[i] % q)
}

/// The coefficient of `X^j` in `b` viewed negacyclically: for `j` in
/// `-d .. 0`, `X^j == -X^(j+d)` modulo `X^d + 1`.
pub open spec fn nega_term(b: Seq<int>, j: int) -> int {
    if j >= 0 {
        b[j]
    } else {
        -b[j + b.len()]
    }
}

/// The first `n` summands of coefficient `k` of the negacyclic product:
/// `sum_{i < n} a[i] * X^i * b  restricted to  X^k`.
pub open spec fn conv_sum(a: Seq<int>, b: Seq<int>, k: int, n: nat) -> int
    decreases n,
{
    if n == 0 {
        0
    } else {
        conv_sum(a, b, k, (n - 1) as nat) + a[n - 1] * nega_term(b, k - (n - 1))
    }
}

/// The negacyclic product of two equal-length integer polynomials, not yet
/// reduced modulo `q`.
pub open spec fn poly_mul(a: Seq<int>, b: Seq<int>) -> Seq<int> {
    Seq::new(a.len(), |k: int| conv_sum(a, b, k, a.len()))
}

/// The conjugation automorphism `X -> X^(-1) == -X^(d-1)`: coefficient `k`
/// of the image is `a[0]` for `k == 0` and `-a[d - k]` otherwise.
pub open spec fn poly_conjugate(a: Seq<int>) -> Seq<int> {
    Seq::new(a.len(), |k: int| if k == 0 { a[0] } else { -a[a.len() - k] })
}

/// Two integers are congruent modulo `q`.
pub open spec fn int_cong(x: int, y: int, q: int) -> bool {
    x % q == y % q
}

/// Two integer polynomials are congruent modulo `q`, coefficient by
/// coefficient.
pub open spec fn poly_cong(x: Seq<int>, y: Seq<int>, q: int) -> bool {
    x.len() == y.len() && forall|i: int| 0 <= i < x.len() ==> int_cong(x[i], y[i], q)
}

/// The integer read from a little-endian byte sequence.
pub open spec fn le_decode(s: Seq<u8>) -> int
    decreases s.len(),
{
    if s.len() == 0 {
        0
    } else {
        s[0] + 256 * le_decode(s.skip(1))
    }
}

/// Largest admitted structural dimension.
pub const D_MAX: usize = 0x80_0000;

/// Number of bytes a sampled coefficient is read from.
pub const COEFF_SAMPLE_BYTES: usize = 16;

/// Number of bytes a coefficient is written to in the canonical encoding.
pub const COEFF_ENCODE_BYTES: usize = 8;

/// An element of `Z_q[X] / (X^d + 1)`, with canonical coefficients.
#[derive(Debug, PartialEq, Eq)]
pub struct RingElement {
    q: u64,
    c: Vec<u64>,
}

impl RingElement {
    pub closed spec fn modulus(self) -> int {
        self.q as int
    }

    /// The coefficient sequence, as unbounded integers; index 0 is the
    /// constant coefficient.
    pub closed spec fn coeffs(self) -> Seq<int> {
        self.c@.map_values(|x: u64| x as int)
    }

    /// The structural dimension `d`.
    pub open spec fn dim(self) -> int {
        self.coeffs().len() as int
    }

    /// Valid element: admitted modulus, at least one coefficient, all
    /// coefficients canonical.
    pub open spec fn wf(self) -> bool {
        &&& 2 <= self.modulus() <= Q_MAX
        &&& 1 <= self.dim() <= D_MAX
        &&& forall|i: int| 0 <= i < self.dim() ==> 0 <= #[trigger] self.coeffs()[i] < self.modulus()
    }

    /// Two elements of one ring are equal exactly when their canonical
    /// coefficients agree.
    pub open spec fn same_ring(self, other: RingElement) -> bool {
        self.modulus() == other.modulus() && self.dim() == other.dim()
    }

    /// The raw stored coefficient agrees with the model and is canonical.
    proof fn lemma_raw_coeff(self, i: int)
        requires
            self.wf(),
            0 <= i < self.dim(),
        ensures
            self.coeffs()[i] == self.c@[i] as int,
            0 <= self.c@[i] < self.modulus(),
    {
        assert(self.coeffs()[i] == self.c@[i] as int);
    }

    pub fn modulus_u64(&self) -> (r: u64)
        ensures
            r == self.modulus(),
    {
        self.q
    }

    pub fn dim_usize(&self) -> (r: usize)
        ensures
            r == self.dim(),
    {
        self.c.len()
    }

    /// The `i`-th coefficient as a base-ring scalar.
    pub fn coeff(&self, i: usize) -> (r: Zq)
        requires
            self.wf(),
            i < self.dim(),
        ensures
            r.wf(),
            r.modulus() == self.modulus(),
            r.val() == self.coeffs()[i as int],
    {
        proof {
            self.lemma_raw_coeff(i as int);
            lemma_small_mod(self.coeffs()[i as int] as nat, self.modulus() as nat);
        }
        Zq::new(self.q, self.c[i])
    }

    /// The constant coefficient, the base-ring projection of the element.
    pub fn constant_coeff(&self) -> (r: Zq)
        requires
            self.wf(),
        ensures
            r.wf(),
            r.modulus() == self.modulus(),
            r.val() == self.coeffs()[0],
    {
        proof {
            self.lemma_raw_coeff(0);
            lemma_small_mod(self.coeffs()[0] as nat, self.modulus() as nat);
        }
        Zq::new(self.q, self.c[0])
    }

    /// Decide well-formedness: admitted modulus, admitted dimension,
    /// canonical coefficients.
    pub fn wf_check(&self) -> (ok: bool)
        ensures
            ok <==> self.wf(),
    {
        if self.q < 2 || self.q > Q_MAX {
            return false;
        }
        let d = self.c.len();
        if d < 1 || d > D_MAX {
            return false;
        }
        for i in 0..d
            invariant
                d == self.c@.len(),
                forall|k: int| 0 <= k < i ==> #[trigger] self.c@[k] < self.q,
        {
            if self.c[i] >= self.q {
                proof {
                    assert(self.coeffs()[i as int] == self.c@[i as int] as int);
                }
                return false;
            }
        }
        proof {
            assert forall|k: int| 0 <= k < d implies 0 <= #[trigger] self.coeffs()[k]
                < self.modulus() by {
                assert(self.coeffs()[k] == self.c@[k] as int);
            }
        }
        true
    }

    /// Decide equality of two elements: same modulus, same canonical
    /// coefficients.
    pub fn equals(&self, other: &RingElement) -> (r: bool)
        ensures
            r <==> (self.modulus() == other.modulus() && self.coeffs() == other.coeffs()),
    {
        if self.q != other.q {
            return false;
        }
        if self.c.len() != other.c.len() {
            proof {
                assert(self.coeffs().len() != other.coeffs().len());
            }
            return false;
        }
        let n = self.c.len();
        for i in 0..n
            invariant
                n == self.c@.len() == other.c@.len(),
                forall|k: int| 0 <= k < i ==> self.c@[k] == other.c@[k],
        {
            if self.c[i] != other.c[i] {
                proof {
                    assert(self.coeffs()[i as int] == self.c@[i as int] as int);
                    assert(other.coeffs()[i as int] == other.c@[i as int] as int);
                }
                return false;
            }
        }
        proof {
            assert forall|k: int| 0 <= k < n implies self.coeffs()[k] == other.coeffs()[k] by {
                assert(self.coeffs()[k] == self.c@[k] as int);
                assert(other.coeffs()[k] == other.c@[k] as int);
            }
            assert(self.coeffs() =~= other.coeffs());
        }
        true
    }

    /// Build an element from raw coefficients, reducing each modulo `q`.
    pub fn from_u64s(q: u64, raw: &Vec<u64>) -> (r: RingElement)
        requires
            2 <= q <= Q_MAX,
            1 <= raw@.len() <= D_MAX,
        ensures
            r.wf(),
            r.modulus() == q,
            r.dim() == raw@.len(),
            forall|i: int| 0 <= i < raw@.len() ==> r.coeffs()[i] == raw@[i] as int % q as int,
    {
        let mut c: Vec<u64> = Vec::new();
        let d = raw.len();
        for i in 0..d
            invariant
                d == raw@.len(),
                2 <= q <= Q_MAX,
                c@.len() == i,
                forall|k: int| 0 <= k < i ==> c@[k] == raw@[k] as int % q as int,
                forall|k: int| 0 <= k < i ==> #[trigger] c@[k] < q,
        {
            c.push(raw[i] % q);
        }
        RingElement { q, c }
    }

    /// The zero element of dimension `d`.
    pub fn zero(q: u64, d: usize) -> (r: RingElement)
        requires
            2 <= q <= Q_MAX,
            1 <= d <= D_MAX,
        ensures
            r.wf(),
            r.modulus() == q,
            r.dim() == d,
            forall|i: int| 0 <= i < d ==> r.coeffs()[i] == 0,
    {
        let mut c: Vec<u64> = Vec::new();
        for i in 0..d
            invariant
                c@.len() == i,
                forall|k: int| 0 <= k < i ==> c@[k] == 0,
        {
            c.push(0);
        }
        RingElement { q, c }
    }

    /// The constant polynomial with value `s`.
    pub fn from_scalar(s: &Zq, d: usize) -> (r: RingElement)
        requires
            s.wf(),
            1 <= d <= D_MAX,
        ensures
            r.wf(),
            r.modulus() == s.modulus(),
            r.dim() == d,
            r.coeffs()[0] == s.val(),
            forall|i: int| 1 <= i < d ==> r.coeffs()[i] == 0,
    {
        let q = s.modulus_u64();
        let mut c: Vec<u64> = Vec::new();
        c.push(s.val_u64());
        for i in 1..d
            invariant
                s.wf(),
                c@.len() == i,
                i >= 1,
                c@[0] == s.val(),
                forall|k: int| 1 <= k < i ==> #[trigger] c@[k] == 0,
        {
            c.push(0);
        }
        let e = RingElement { q, c };
        proof {
            assert forall|i: int| 0 <= i < d implies #[trigger] e.coeffs()[i] == (if i == 0 {
                s.val()
            } else {
                0int
            }) by {
                assert(e.coeffs()[i] == e.c@[i] as int);
            }
        }
        e
    }

    /// The multiplicative unit.
    pub fn one(q: u64, d: usize) -> (r: RingElement)
        requires
            2 <= q <= Q_MAX,
            1 <= d <= D_MAX,
        ensures
            r.wf(),
            r.modulus() == q,
            r.dim() == d,
            r.coeffs()[0] == 1,
            forall|i: int| 1 <= i < d ==> r.coeffs()[i] == 0,
    {
        let s = Zq::one(q);
        RingElement::from_scalar(&s, d)
    }

    /// The indeterminate `X` (for `d >= 2`; for `d == 1`, `X == -1`).
    pub fn x(q: u64, d: usize) -> (r: RingElement)
        requires
            2 <= q <= Q_MAX,
            1 <= d <= D_MAX,
        ensures
            r.wf(),
            r.modulus() == q,
            r.dim() == d,
            d >= 2 ==> r.coeffs()[1] == 1 && r.coeffs()[0] == 0,
            d == 1 ==> r.coeffs()[0] == q - 1,
    {
        let mut c: Vec<u64> = Vec::new();
        if d == 1 {
            c.push(q - 1);
        } else {
            c.push(0);
            c.push(1);
            for i in 2..d
                invariant
                    c@.len() == i,
                    i >= 2,
                    c@[0] == 0,
                    c@[1] == 1,
                    forall|k: int| 2 <= k < i ==> #[trigger] c@[k] == 0,
            {
                c.push(0);
            }
        }
        let e = RingElement { q, c };
        proof {
            assert forall|i: int| 0 <= i < d implies 0 <= #[trigger] e.coeffs()[i] < q by {
                assert(e.coeffs()[i] == e.c@[i] as int);
            }
            assert(e.coeffs()[0] == e.c@[0] as int);
            if d >= 2 {
                assert(e.coeffs()[1] == e.c@[1] as int);
            }
        }
        e
    }

    /// Coefficient-wise sum.
    pub fn add(&self, other: &RingElement) -> (r: RingElement)
        requires
            self.wf(),
            other.wf(),
            self.same_ring(*other),
        ensures
            r.wf(),
            r.modulus() == self.modulus(),
            r.dim() == self.dim(),
            r.coeffs() == poly_reduce(poly_add(self.coeffs(), other.coeffs()), self.modulus()),
    {
        let d = self.c.len();
        let mut c: Vec<u64> = Vec::new();
        for i in 0..d
            invariant
                self.wf(),
                other.wf(),
                self.same_ring(*other),
                d == self.dim(),
                c@.len() == i,
                forall|k: int| #![auto]
                    0 <= k < i ==> c@[k] as int == (self.coeffs()[k] + other.coeffs()[k])
                        % self.modulus(),
                forall|k: int| 0 <= k < i ==> #[trigger] c@[k] < self.modulus(),
        {
            proof {
                self.lemma_raw_coeff(i as int);
                other.lemma_raw_coeff(i as int);
            }
            c.push((self.c[i] + other.c[i]) % self.q);
        }
        let r = RingElement { q: self.q, c };
        proof {
            assert forall|k: int| 0 <= k < d implies r.coeffs()[k] == poly_reduce(
                poly_add(self.coeffs(), other.coeffs()),
                self.modulus(),
            )[k] by {
                assert(r.coeffs()[k] == r.c@[k] as int);
            }
            assert(r.coeffs() =~= poly_reduce(
                poly_add(self.coeffs(), other.coeffs()),
                self.modulus(),
            ));
        }
        r
    }

    /// Coefficient-wise negation.
    pub fn neg(&self) -> (r: RingElement)
        requires
            self.wf(),
        ensures
            r.wf(),
            r.modulus() == self.modulus(),
            r.dim() == self.dim(),
            r.coeffs() == poly_reduce(poly_neg(self.coeffs()), self.modulus()),
    {
        let d = self.c.len();
        let mut c: Vec<u64> = Vec::new();
        for i in 0..d
            invariant
                self.wf(),
                d == self.dim(),
                c@.len() == i,
                forall|k: int| #![auto]
                    0 <= k < i ==> c@[k] as int == (-self.coeffs()[k]) % self.modulus(),
                forall|k: int| 0 <= k < i ==> #[trigger] c@[k] < self.modulus(),
        {
            proof {
                self.lemma_raw_coeff(i as int);
            }
            let v = (self.q - self.c[i]) % self.q;
            proof {
                let q = self.modulus();
                let x = self.coeffs()[i as int];
                assert((q - x) % q == (-x) % q) by {
                    lemma_mod_add_multiples_vanish(-x, q);
                }
            }
            c.push(v);
        }
        let r = RingElement { q: self.q, c };
        proof {
            assert forall|k: int| 0 <= k < d implies r.coeffs()[k] == poly_reduce(
                poly_neg(self.coeffs()),
                self.modulus(),
            )[k] by {
                assert(r.coeffs()[k] == r.c@[k] as int);
            }
            assert(r.coeffs() =~= poly_reduce(poly_neg(self.coeffs()), self.modulus()));
        }
        r
    }

    /// Difference: `self - other`, coefficient-wise.
    pub fn sub(&self, other: &RingElement) -> (r: RingElement)
        requires
            self.wf(),
            other.wf(),
            self.same_ring(*other),
        ensures
            r.wf(),
            r.modulus() == self.modulus(),
            r.dim() == self.dim(),
            r.coeffs() == poly_reduce(
                poly_add(self.coeffs(), poly_neg(other.coeffs())),
                self.modulus(),
            ),
    {
        let d = self.c.len();
        let mut c: Vec<u64> = Vec::new();
        for i in 0..d
            invariant
                self.wf(),
                other.wf(),
                self.same_ring(*other),
                d == self.dim(),
                c@.len() == i,
                forall|k: int| #![auto]
                    0 <= k < i ==> c@[k] as int == (self.coeffs()[k] - other.coeffs()[k])
                        % self.modulus(),
                forall|k: int| 0 <= k < i ==> #[trigger] c@[k] < self.modulus(),
        {
            proof {
                self.lemma_raw_coeff(i as int);
                other.lemma_raw_coeff(i as int);
            }
            let v = (self.c[i] + (self.q - other.c[i])) % self.q;
            proof {
                let q = self.modulus();
                let x = self.coeffs()[i as int];
                let y = other.coeffs()[i as int];
                assert((x + (q - y)) % q == (x - y) % q) by {
                    lemma_mod_add_multiples_vanish(x - y, q);
                    assert(x + (q - y) == q + (x - y));
                }
            }
            c.push(v);
        }
        let r = RingElement { q: self.q, c };
        proof {
            assert forall|k: int| 0 <= k < d implies r.coeffs()[k] == poly_reduce(
                poly_add(self.coeffs(), poly_neg(other.coeffs())),
                self.modulus(),
            )[k] by {
                assert(r.coeffs()[k] == r.c@[k] as int);
            }
            assert(r.coeffs() =~= poly_reduce(
                poly_add(self.coeffs(), poly_neg(other.coeffs())),
                self.modulus(),
            ));
        }
        r
    }

    /// Multiplication by a base-ring scalar.
    pub fn scalar_mul(&self, s: &Zq) -> (r: RingElement)
        requires
            self.wf(),
            s.wf(),
            s.modulus() == self.modulus(),
        ensures
            r.wf(),
            r.modulus() == self.modulus(),
            r.dim() == self.dim(),
            r.coeffs() == poly_reduce(poly_scale(s.val(), self.coeffs()), self.modulus()),
    {
        let d = self.c.len();
        let sv = s.val_u64();
        let mut c: Vec<u64> = Vec::new();
        for i in 0..d
            invariant
                self.wf(),
                s.wf(),
                s.modulus() == self.modulus(),
                sv == s.val(),
                d == self.dim(),
                c@.len() == i,
                forall|k: int| #![auto]
                    0 <= k < i ==> c@[k] as int == (s.val() * self.coeffs()[k]) % self.modulus(),
                forall|k: int| 0 <= k < i ==> #[trigger] c@[k] < self.modulus(),
        {
            proof {
                self.lemma_raw_coeff(i as int);
                assert(s.val() * self.coeffs()[i as int] <= 0x4000_0000_0000_0000)
                    by (nonlinear_arith)
                    requires
                        0 <= s.val() < 0x8000_0000,
                        0 <= self.coeffs()[i as int] < 0x8000_0000,
                ;
            }
            let v = (sv * self.c[i]) % self.q;
            c.push(v);
        }
        let r = RingElement { q: self.q, c };
        proof {
            assert forall|k: int| 0 <= k < d implies r.coeffs()[k] == poly_reduce(
                poly_scale(s.val(), self.coeffs()),
                self.modulus(),
            )[k] by {
                assert(r.coeffs()[k] == r.c@[k] as int);
            }
            assert(r.coeffs() =~= poly_reduce(poly_scale(s.val(), self.coeffs()), self.modulus()));
        }
        r
    }

    /// Negacyclic product. Zero coefficients on either side are skipped, so
    /// sparse operands multiply quickly; the result is the same.
    pub fn mul(&self, other: &RingElement) -> (r: RingElement)
        requires
            self.wf(),
            other.wf(),
            self.same_ring(*other),
        ensures
            r.wf(),
            r.modulus() == self.modulus(),
            r.dim() == self.dim(),
            r.coeffs() == poly_reduce(poly_mul(self.coeffs(), other.coeffs()), self.modulus()),
    {
        let d = self.c.len();
        let q = self.q;
        let ghost a = self.coeffs();
        let ghost b = other.coeffs();
        let ghost qi = self.modulus();
        let mut c: Vec<u64> = Vec::new();
        for k in 0..d
            invariant
                self.wf(),
                other.wf(),
                self.same_ring(*other),
                q == self.modulus(),
                a == self.coeffs(),
                b == other.coeffs(),
                qi == q as int,
                d == self.dim(),
                c@.len() == k,
                forall|t: int| #![auto]
                    0 <= t < k ==> c@[t] as int == conv_sum(a, b, t, a.len() as nat) % qi,
                forall|t: int| 0 <= t < k ==> #[trigger] c@[t] < q,
        {
            let mut acc: u128 = 0;
            for i in 0..d
                invariant
                    self.wf(),
                    other.wf(),
                    self.same_ring(*other),
                    q == self.modulus(),
                    a == self.coeffs(),
                    b == other.coeffs(),
                    qi == q as int,
                    d == self.dim(),
                    k < d,
                    acc as int % qi == conv_sum(a, b, k as int, i as nat) % qi,
                    acc <= (i as u128) * 0x4000_0000_0000_0000,
            {
                let ghost acc0 = acc as int;
                let ghost term = a[i as int] * nega_term(b, k as int - i as int);
                proof {
                    self.lemma_raw_coeff(i as int);
                    if i <= k {
                        other.lemma_raw_coeff(k as int - i as int);
                    } else {
                        other.lemma_raw_coeff(k as int - i as int + d as int);
                    }
                }
                let ai = self.c[i];
                if ai != 0 {
                    let bb: u64 = if i <= k {
                        other.c[k - i]
                    } else {
                        (q - other.c[k + d - i]) % q
                    };
                    proof {
                        let nt = nega_term(b, k as int - i as int);
                        if i <= k {
                            assert(bb as int % qi == nt % qi) by {
                                lemma_small_mod(bb as nat, qi as nat);
                            }
                        } else {
                            let y = b[k as int - i as int + d as int];
                            assert(bb as int == (qi - y) % qi);
                            assert((qi - y) % qi == (-y) % qi) by {
                                lemma_mod_add_multiples_vanish(-y, qi);
                            }
                            lemma_mod_twice(-y, qi);
                            assert(bb as int % qi == nt % qi);
                        }
                        assert(ai as int * bb as int <= 0x4000_0000_0000_0000)
                            by (nonlinear_arith)
                            requires
                                0 <= (ai as int) < 0x8000_0000,
                                0 <= (bb as int) < 0x8000_0000,
                        ;
                        assert(acc + (ai as u128 * bb as u128) <= (i as u128 + 1)
                            * 0x4000_0000_0000_0000) by (nonlinear_arith)
                            requires
                                acc <= (i as u128) * 0x4000_0000_0000_0000,
                                ai as u128 * bb as u128 <= 0x4000_0000_0000_0000,
                        ;
                        assert((i as u128 + 1) * 0x4000_0000_0000_0000 < u128::MAX)
                            by (nonlinear_arith)
                            requires
                                i as u128 + 1 <= 0x1_0000_0000_0000_0000u128,
                        ;
                    }
                    acc = acc + (ai as u128) * (bb as u128);
                    proof {
                        let nt = nega_term(b, k as int - i as int);
                        assert(ai as int * bb as int % qi == term % qi) by {
                            lemma_mul_mod_noop_right(ai as int, bb as int, qi);
                            lemma_mul_mod_noop_right(ai as int, nt, qi);
                        }
                        assert(acc as int == acc0 + ai as int * bb as int);
                        lemma_add_mod_noop(acc0, ai as int * bb as int, qi);
                        lemma_add_mod_noop(
                            conv_sum(a, b, k as int, i as nat),
                            term,
                            qi,
                        );
                        assert(acc as int % qi == conv_sum(a, b, k as int, (i + 1) as nat)
                            % qi);
                    }
                } else {
                    proof {
                        assert(a[i as int] == 0);
                        assert(term == 0) by (nonlinear_arith)
                            requires
                                term == a[i as int] * nega_term(b, k as int - i as int),
                                a[i as int] == 0,
                        ;
                        assert(conv_sum(a, b, k as int, (i + 1) as nat) == conv_sum(
                            a,
                            b,
                            k as int,
                            i as nat,
                        ));
                        assert(acc <= (i as u128 + 1) * 0x4000_0000_0000_0000)
                            by (nonlinear_arith)
                            requires
                                acc <= (i as u128) * 0x4000_0000_0000_0000,
                        ;
                    }
                }
            }
            let ck = (acc % (q as u128)) as u64;
            proof {
                lemma_mod_bound(acc as int, qi);
                assert(ck as int == acc as int % qi);
                assert(ck as int == conv_sum(a, b, k as int, a.len() as nat) % qi);
            }
            c.push(ck);
        }
        let r = RingElement { q: self.q, c };
        proof {
            assert forall|t: int| 0 <= t < d implies r.coeffs()[t] == poly_reduce(
                poly_mul(a, b),
                qi,
            )[t] by {
                assert(r.coeffs()[t] == r.c@[t] as int);
                lemma_mod_bound(conv_sum(a, b, t, a.len() as nat), qi);
            }
            assert(r.coeffs() =~= poly_reduce(poly_mul(a, b), qi));
            assert forall|t: int| 0 <= t < d implies 0 <= #[trigger] r.coeffs()[t] < qi by {
                assert(r.coeffs()[t] == r.c@[t] as int);
            }
        }
        r
    }

    /// The conjugation automorphism `X -> X^(-1)`.
    pub fn conjugate(&self) -> (r: RingElement)
        requires
            self.wf(),
        ensures
            r.wf(),
            r.modulus() == self.modulus(),
            r.dim() == self.dim(),
            r.coeffs() == poly_reduce(poly_conjugate(self.coeffs()), self.modulus()),
    {
        let d = self.c.len();
        let mut c: Vec<u64> = Vec::new();
        for k in 0..d
            invariant
                self.wf(),
                d == self.dim(),
                c@.len() == k,
                forall|t: int| #![auto]
                    0 <= t < k ==> c@[t] as int == poly_conjugate(self.coeffs())[t]
                        % self.modulus(),
                forall|t: int| 0 <= t < k ==> #[trigger] c@[t] < self.modulus(),
        {
            let v: u64 = if k == 0 {
                proof {
                    self.lemma_raw_coeff(0);
                    lemma_small_mod(self.coeffs()[0] as nat, self.modulus() as nat);
                }
                self.c[0]
            } else {
                proof {
                    self.lemma_raw_coeff(d - k);
                }
                let w = (self.q - self.c[d - k]) % self.q;
                proof {
                    let q = self.modulus();
                    let x = self.coeffs()[d - k];
                    assert((q - x) % q == (-x) % q) by {
                        lemma_mod_add_multiples_vanish(-x, q);
                    }
                }
                w
            };
            c.push(v);
        }
        let r = RingElement { q: self.q, c };
        proof {
            assert forall|t: int| 0 <= t < d implies r.coeffs()[t] == poly_reduce(
                poly_conjugate(self.coeffs()),
                self.modulus(),
            )[t] by {
                assert(r.coeffs()[t] == r.c@[t] as int);
            }
            assert(r.coeffs() =~= poly_reduce(poly_conjugate(self.coeffs()), self.modulus()));
        }
        r
    }
}

/// The representative of least magnitude of a canonical residue `x` modulo
/// `q`, with ties at `q/2` resolved upward.
pub open spec fn centered_rep(x: int, q: int) -> int {
    if 2 * x <= q {
        x
    } else {
        x - q
    }
}

/// The magnitude of an integer.
pub open spec fn abs_int(x: int) -> int {
    if x < 0 {
        -x
    } else {
        x
    }
}

/// Sum of the squared centered representatives of the first `n` entries.
pub open spec fn norm_sq_sum(a: Seq<int>, q: int, n: nat) -> int
    decreases n,
{
    if n == 0 {
        0
    } else {
        norm_sq_sum(a, q, (n - 1) as nat) + centered_rep(a[n - 1], q) * centered_rep(
            a[n - 1],
            q,
        )
    }
}

/// Largest magnitude of a centered representative among the first `n`
/// entries.
pub open spec fn linf_max(a: Seq<int>, q: int, n: nat) -> int
    decreases n,
{
    if n == 0 {
        0
    } else {
        let prev = linf_max(a, q, (n - 1) as nat);
        let cur = abs_int(centered_rep(a[n - 1], q));
        if cur > prev {
            cur
        } else {
            prev
        }
    }
}

impl RingElement {
    /// The squared L2 norm of the coefficient vector, over centered
    /// representatives.
    pub open spec fn l2_norm_sq(self) -> int {
        norm_sq_sum(self.coeffs(), self.modulus(), self.coeffs().len())
    }

    /// The L-infinity norm of the coefficient vector, over centered
    /// representatives.
    pub open spec fn spec_linf_norm(self) -> int {
        linf_max(self.coeffs(), self.modulus(), self.coeffs().len())
    }

    /// The squared L2 norm, computed exactly.
    pub fn norm_sq(&self) -> (r: u128)
        requires
            self.wf(),
        ensures
            r == self.l2_norm_sq(),
    {
        let d = self.c.len();
        let mut acc: u128 = 0;
        for i in 0..d
            invariant
                self.wf(),
                d == self.dim(),
                acc == norm_sq_sum(self.coeffs(), self.modulus(), i as nat),
                acc <= (i as u128) * 0x4000_0000_0000_0000,
        {
            let s = self.coeff(i);
            let t = s.centered_sq();
            proof {
                assert(s.centered() == centered_rep(self.coeffs()[i as int], self.modulus()));
                assert(t <= 0x4000_0000_0000_0000) by (nonlinear_arith)
                    requires
                        t as int == s.centered() * s.centered(),
                        t as int <= s.modulus() * s.modulus(),
                        0 <= s.modulus() <= 0x8000_0000,
                ;
                assert(acc + t as u128 <= (i as u128 + 1) * 0x4000_0000_0000_0000)
                    by (nonlinear_arith)
                    requires
                        acc <= (i as u128) * 0x4000_0000_0000_0000,
                        t as u128 <= 0x4000_0000_0000_0000,
                ;
                assert((i as u128 + 1) * 0x4000_0000_0000_0000 < u128::MAX)
                    by (nonlinear_arith)
                    requires
                        i as u128 + 1 <= 0x1_0000_0000_0000_0000u128,
                ;
            }
            acc = acc + (t as u128);
        }
        acc
    }

    /// The L-infinity norm, computed exactly.
    pub fn linf_norm(&self) -> (r: u64)
        requires
            self.wf(),
        ensures
            r == self.spec_linf_norm(),
    {
        let d = self.c.len();
        let mut best: u64 = 0;
        for i in 0..d
            invariant
                self.wf(),
                d == self.dim(),
                best == linf_max(self.coeffs(), self.modulus(), i as nat),
        {
            proof {
                self.lemma_raw_coeff(i as int);
            }
            let x = self.c[i];
            let cur: u64 = if 2 * x <= self.q {
                x
            } else {
                self.q - x
            };
            proof {
                let xc = centered_rep(self.coeffs()[i as int], self.modulus());
                assert(cur as int == abs_int(xc));
            }
            if cur > best {
                best = cur;
            }
        }
        best
    }
}

/// `256^n`, the place value of byte `n` in a little-endian encoding.
pub open spec fn pow256(n: nat) -> int
    decreases n,
{
    if n == 0 {
        1
    } else {
        256 * pow256((n - 1) as nat)
    }
}

pub proof fn lemma_pow256_positive(n: nat)
    ensures
        pow256(n) >= 1,
    decreases n,
{
    if n > 0 {
        lemma_pow256_positive((n - 1) as nat);
    }
}

pub proof fn lemma_pow256_monotonic(a: nat, b: nat)
    requires
        a <= b,
    ensures
        pow256(a) <= pow256(b),
    decreases b,
{
    if a < b {
        lemma_pow256_monotonic(a, (b - 1) as nat);
        lemma_pow256_positive((b - 1) as nat);
    }
}

/// Small powers of 256 the byte codecs rely on.
proof fn lemma_pow256_consts()
    ensures
        pow256(8) == 0x1_0000_0000_0000_0000,
        pow256(16) == 0x1_0000_0000_0000_0000_0000_0000_0000_0000,
        pow256(15) == 0x100_0000_0000_0000_0000_0000_0000_0000,
{
    reveal_with_fuel(pow256, 17);
    assert(pow256(16) == 256 * pow256(15));
}

/// `le_decode` of a sequence extended by one byte at the top.
pub proof fn lemma_le_decode_snoc(s: Seq<u8>, b: u8)
    ensures
        le_decode(s.push(b)) == le_decode(s) + pow256(s.len()) * b,
    decreases s.len(),
{
    if s.len() == 0 {
        assert(s.push(b).skip(1) =~= Seq::<u8>::empty());
        assert(le_decode(Seq::<u8>::empty()) == 0);
        assert(le_decode(s.push(b)) == b);
        assert(pow256(0) == 1);
    } else {
        assert(s.push(b).skip(1) =~= s.skip(1).push(b));
        lemma_le_decode_snoc(s.skip(1), b);
        let p = pow256((s.len() - 1) as nat);
        assert(le_decode(s.push(b)) == s[0] + 256 * (le_decode(s.skip(1)) + p * b));
        assert(pow256(s.len()) == 256 * p);
        assert(256 * (le_decode(s.skip(1)) + p * b) == 256 * le_decode(s.skip(1)) + 256 * (p
            * b)) by (nonlinear_arith);
        assert(256 * (p * b) == (256 * p) * b) by (nonlinear_arith);
    }
}

/// A little-endian byte sequence decodes to a value below `256^len`.
pub proof fn lemma_le_decode_bounds(s: Seq<u8>)
    ensures
        0 <= le_decode(s) < pow256(s.len()),
    decreases s.len(),
{
    if s.len() == 0 {
        assert(pow256(0) == 1);
    } else {
        lemma_le_decode_bounds(s.skip(1));
        let p = pow256((s.len() - 1) as nat);
        assert(pow256(s.len()) == 256 * p);
        assert(s[0] + 256 * le_decode(s.skip(1)) < 256 * p) by (nonlinear_arith)
            requires
                0 <= (s[0] as int) < 256,
                0 <= le_decode(s.skip(1)) <= p - 1,
        ;
        assert(0 <= 256 * le_decode(s.skip(1))) by (nonlinear_arith)
            requires
                0 <= le_decode(s.skip(1)),
        ;
    }
}

impl RingElement {
    /// The canonical byte encoding: each coefficient as
    /// `COEFF_ENCODE_BYTES` little-endian bytes, in coefficient order.
    pub fn to_bytes(&self) -> (r: Vec<u8>)
        requires
            self.wf(),
        ensures
            r@.len() == COEFF_ENCODE_BYTES * self.dim(),
            forall|i: int|
                0 <= i < self.dim() ==> le_decode(
                    #[trigger] r@.subrange(
                        COEFF_ENCODE_BYTES * i,
                        COEFF_ENCODE_BYTES * (i + 1),
                    ),
                ) == self.coeffs()[i],
    {
        let d = self.c.len();
        let mut r: Vec<u8> = Vec::new();
        for i in 0..d
            invariant
                self.wf(),
                d == self.dim(),
                r@.len() == COEFF_ENCODE_BYTES * i,
                forall|t: int|
                    0 <= t < i ==> le_decode(
                        #[trigger] r@.subrange(
                            COEFF_ENCODE_BYTES * t,
                            COEFF_ENCODE_BYTES * (t + 1),
                        ),
                    ) == self.coeffs()[t],
        {
            proof {
                self.lemma_raw_coeff(i as int);
            }
            let ghost r0 = r@;
            let ghost x = self.coeffs()[i as int];
            let mut t: u64 = self.c[i];
            for k in 0..COEFF_ENCODE_BYTES
                invariant
                    r@.len() == r0.len() + k,
                    r@.subrange(0, r0.len() as int) == r0,
                    le_decode(r@.skip(r0.len() as int)) + pow256(k as nat) * t == x,
                    t as int == x / pow256(k as nat),
                    0 <= x < 0x8000_0000,
            {
                let ghost sofar = r@.skip(r0.len() as int);
                let ghost pk = pow256(k as nat);
                let b: u8 = (t % 256) as u8;
                r.push(b);
                let t2 = t / 256;
                proof {
                    assert(r@.subrange(0, r0.len() as int) =~= r0);
                    assert(r@.skip(r0.len() as int) =~= sofar.push(b));
                    lemma_le_decode_snoc(sofar, b);
                    assert(pow256((k + 1) as nat) == 256 * pk);
                    vstd::arithmetic::div_mod::lemma_fundamental_div_mod(t as int, 256);
                    assert(pk * t == pk * (256 * (t2 as int) + b as int)) by (nonlinear_arith)
                        requires
                            t as int == 256 * (t2 as int) + (b as int),
                            pk == pk,
                    ;
                    assert(pk * (256 * (t2 as int) + b as int) == (256 * pk) * (t2 as int) + pk
                        * (b as int)) by (nonlinear_arith);
                    assert(le_decode(sofar.push(b)) + (256 * pk) * (t2 as int) == x);
                    assert(pk > 0) by {
                        lemma_pow256_positive(k as nat);
                    }
                    vstd::arithmetic::div_mod::lemma_div_denominator(x, pk, 256);
                }
                t = t2;
            }
            proof {
                let p8 = pow256(COEFF_ENCODE_BYTES as nat);
                assert(p8 == 0x1_0000_0000_0000_0000) by {
                    lemma_pow256_consts();
                }
                assert(t as int == x / p8);
                assert(x / p8 == 0) by {
                    vstd::arithmetic::div_mod::lemma_basic_div(x, p8);
                }
                assert(le_decode(r@.skip(r0.len() as int)) == x);
                assert forall|tt: int| 0 <= tt < i + 1 implies le_decode(
                    #[trigger] r@.subrange(
                        COEFF_ENCODE_BYTES * tt,
                        COEFF_ENCODE_BYTES * (tt + 1),
                    ),
                ) == self.coeffs()[tt] by {
                    if tt < i {
                        assert(r@.subrange(
                            COEFF_ENCODE_BYTES * tt,
                            COEFF_ENCODE_BYTES * (tt + 1),
                        ) =~= r0.subrange(
                            COEFF_ENCODE_BYTES * tt,
                            COEFF_ENCODE_BYTES * (tt + 1),
                        ));
                    } else {
                        assert(r@.subrange(
                            COEFF_ENCODE_BYTES * tt,
                            COEFF_ENCODE_BYTES * (tt + 1),
                        ) =~= r@.skip(r0.len() as int));
                    }
                }
            }
        }
        r
    }

    /// Deterministic construction from a byte string: each coefficient is
    /// read from `COEFF_SAMPLE_BYTES` little-endian bytes and reduced modulo
    /// `q`, so a uniformly random byte string gives a near-uniform element.
    pub fn from_random_bytes(q: u64, d: usize, bytes: &Vec<u8>) -> (r: RingElement)
        requires
            2 <= q <= Q_MAX,
            1 <= d <= D_MAX,
            bytes@.len() == COEFF_SAMPLE_BYTES * d,
        ensures
            r.wf(),
            r.modulus() == q,
            r.dim() == d,
            forall|i: int|
                0 <= i < d ==> r.coeffs()[i] == le_decode(
                    #[trigger] bytes@.subrange(
                        COEFF_SAMPLE_BYTES * i,
                        COEFF_SAMPLE_BYTES * (i + 1),
                    ),
                ) % (q as int),
    {
        let mut c: Vec<u64> = Vec::new();
        for i in 0..d
            invariant
                2 <= q <= Q_MAX,
                d <= D_MAX,
                bytes@.len() == COEFF_SAMPLE_BYTES * d,
                c@.len() == i,
                forall|t: int|
                    0 <= t < i ==> #[trigger] c@[t] as int == le_decode(
                        bytes@.subrange(
                            COEFF_SAMPLE_BYTES * t,
                            COEFF_SAMPLE_BYTES * (t + 1),
                        ),
                    ) % (q as int),
                forall|t: int| 0 <= t < i ==> #[trigger] c@[t] < q,
        {
            let ghost chunk = bytes@.subrange(
                COEFF_SAMPLE_BYTES * i,
                COEFF_SAMPLE_BYTES * (i + 1),
            );
            proof {
                assert(i as int * COEFF_SAMPLE_BYTES + COEFF_SAMPLE_BYTES <= COEFF_SAMPLE_BYTES
                    * d as int) by (nonlinear_arith)
                    requires
                        0 <= (i as int) < (d as int),
                        COEFF_SAMPLE_BYTES == 16,
                ;
                assert(COEFF_SAMPLE_BYTES * d as int <= 0x1_0000_0000_0000) by (nonlinear_arith)
                    requires
                        0 <= (d as int) <= 0x1000_0000,
                        COEFF_SAMPLE_BYTES == 16,
                ;
            }
            let blen = bytes.len();
            let base = i * COEFF_SAMPLE_BYTES;
            let mut v: u128 = 0;
            let mut j: usize = COEFF_SAMPLE_BYTES;
            while j > 0
                invariant
                    2 <= q <= Q_MAX,
                    i < d <= D_MAX,
                    bytes@.len() == COEFF_SAMPLE_BYTES * d,
                    base == i * COEFF_SAMPLE_BYTES,
                    base + COEFF_SAMPLE_BYTES <= bytes@.len(),
                    blen == bytes@.len(),
                    chunk == bytes@.subrange(
                        COEFF_SAMPLE_BYTES * i as int,
                        COEFF_SAMPLE_BYTES * (i as int + 1),
                    ),
                    j <= COEFF_SAMPLE_BYTES,
                    v as int == le_decode(chunk.skip(j as int)),
                    v < pow256((COEFF_SAMPLE_BYTES - j) as nat),
                decreases j,
            {
                let ghost oldv = v as int;
                proof {
                    assert(chunk.skip(j as int - 1)[0] == chunk[j as int - 1]);
                    assert(chunk.skip(j as int - 1).skip(1) =~= chunk.skip(j as int));
                    assert(pow256((COEFF_SAMPLE_BYTES - (j - 1)) as nat) == 256 * pow256((COEFF_SAMPLE_BYTES - j) as nat));
                    lemma_pow256_consts();
                    lemma_pow256_monotonic(
                        (COEFF_SAMPLE_BYTES - j) as nat,
                        (COEFF_SAMPLE_BYTES - 1) as nat,
                    );
                    assert(256 * oldv + 256 <= 256 * pow256((COEFF_SAMPLE_BYTES - j) as nat)) by (nonlinear_arith)
                        requires
                            oldv < pow256((COEFF_SAMPLE_BYTES - j) as nat),
                    ;
                }
                proof {
                    assert(base + j <= blen);
                }
                let b = bytes[base + j - 1];
                v = v * 256 + (b as u128);
                j = j - 1;
                proof {
                    assert(chunk[j as int] == bytes@[base + j]);
                    assert(v as int == chunk[j as int] + 256 * le_decode(
                        chunk.skip(j as int + 1),
                    ));
                    assert(le_decode(chunk.skip(j as int)) == chunk[j as int] + 256
                        * le_decode(chunk.skip(j as int).skip(1)));
                    assert(chunk.skip(j as int).skip(1) =~= chunk.skip(j as int + 1));
                }
            }
            proof {
                assert(chunk.skip(0) =~= chunk);
            }
            let coeff = (v % (q as u128)) as u64;
            c.push(coeff);
            proof {
                vstd::arithmetic::div_mod::lemma_mod_bound(v as int, q as int);
            }
        }
        let r = RingElement { q, c };
        proof {
            assert forall|t: int| 0 <= t < d implies #[trigger] r.coeffs()[t] == le_decode(
                bytes@.subrange(COEFF_SAMPLE_BYTES * t, COEFF_SAMPLE_BYTES * (t + 1)),
            ) % (q as int) by {
                assert(r.coeffs()[t] == r.c@[t] as int);
            }
            assert forall|t: int| 0 <= t < d implies 0 <= #[trigger] r.coeffs()[t] < q by {
                assert(r.coeffs()[t] == r.c@[t] as int);
            }
        }
        r
    }
}

impl RingElement {
    /// Decode the canonical byte encoding: `None` unless the length is
    /// exactly `COEFF_ENCODE_BYTES * d` and every decoded coefficient is
    /// canonical (below `q`); otherwise the element those bytes encode.
    pub fn from_bytes(q: u64, d: usize, bytes: &Vec<u8>) -> (r: Option<RingElement>)
        requires
            2 <= q <= Q_MAX,
            1 <= d <= D_MAX,
        ensures
            match r {
                Some(e) => {
                    &&& bytes@.len() == COEFF_ENCODE_BYTES * d
                    &&& e.wf()
                    &&& e.modulus() == q
                    &&& e.dim() == d
                    &&& forall|i: int|
                        0 <= i < d ==> #[trigger] e.coeffs()[i] == le_decode(
                            bytes@.subrange(
                                COEFF_ENCODE_BYTES * i,
                                COEFF_ENCODE_BYTES * (i + 1),
                            ),
                        )
                },
                None => bytes@.len() != COEFF_ENCODE_BYTES * d || exists|i: int|
                    0 <= i < d && le_decode(
                        #[trigger] bytes@.subrange(
                            COEFF_ENCODE_BYTES * i,
                            COEFF_ENCODE_BYTES * (i + 1),
                        ),
                    ) >= q,
            },
    {
        proof {
            assert(d as int * COEFF_ENCODE_BYTES <= 0x400_0000) by (nonlinear_arith)
                requires
                    0 <= (d as int) <= 0x80_0000,
                    COEFF_ENCODE_BYTES == 8,
            ;
        }
        if bytes.len() != d * COEFF_ENCODE_BYTES {
            return None;
        }
        let mut c: Vec<u64> = Vec::new();
        for i in 0..d
            invariant
                2 <= q <= Q_MAX,
                d <= D_MAX,
                bytes@.len() == COEFF_ENCODE_BYTES * d,
                c@.len() == i,
                forall|t: int|
                    0 <= t < i ==> #[trigger] c@[t] as int == le_decode(
                        bytes@.subrange(
                            COEFF_ENCODE_BYTES * t,
                            COEFF_ENCODE_BYTES * (t + 1),
                        ),
                    ),
                forall|t: int| 0 <= t < i ==> #[trigger] c@[t] < q,
        {
            let ghost chunk = bytes@.subrange(
                COEFF_ENCODE_BYTES * i,
                COEFF_ENCODE_BYTES * (i + 1),
            );
            proof {
                assert(i as int * COEFF_ENCODE_BYTES + COEFF_ENCODE_BYTES <= COEFF_ENCODE_BYTES
                    * d as int) by (nonlinear_arith)
                    requires
                        0 <= (i as int) < (d as int),
                        COEFF_ENCODE_BYTES == 8,
                ;
            }
            let blen = bytes.len();
            let base = i * COEFF_ENCODE_BYTES;
            let mut v: u64 = 0;
            let mut j: usize = COEFF_ENCODE_BYTES;
            while j > 0
                invariant
                    i < d,
                    bytes@.len() == COEFF_ENCODE_BYTES * d,
                    blen == bytes@.len(),
                    base == i * COEFF_ENCODE_BYTES,
                    base + COEFF_ENCODE_BYTES <= blen,
                    chunk == bytes@.subrange(
                        COEFF_ENCODE_BYTES * i as int,
                        COEFF_ENCODE_BYTES * (i as int + 1),
                    ),
                    j <= COEFF_ENCODE_BYTES,
                    v as int == le_decode(chunk.skip(j as int)),
                    v < pow256((COEFF_ENCODE_BYTES - j) as nat),
                decreases j,
            {
                let ghost oldv = v as int;
                proof {
                    assert(chunk.skip(j as int - 1)[0] == chunk[j as int - 1]);
                    assert(chunk.skip(j as int - 1).skip(1) =~= chunk.skip(j as int));
                    assert(pow256((COEFF_ENCODE_BYTES - (j - 1)) as nat) == 256 * pow256(
                        (COEFF_ENCODE_BYTES - j) as nat,
                    ));
                    lemma_pow256_consts();
                    lemma_pow256_monotonic(
                        (COEFF_ENCODE_BYTES - j) as nat,
                        (COEFF_ENCODE_BYTES - 1) as nat,
                    );
                    assert(pow256(7) * 256 == pow256(8)) by {
                        assert(pow256(8) == 256 * pow256(7));
                    }
                    assert(256 * oldv + 256 <= 256 * pow256((COEFF_ENCODE_BYTES - j) as nat))
                        by (nonlinear_arith)
                        requires
                            oldv < pow256((COEFF_ENCODE_BYTES - j) as nat),
                    ;
                    assert(pow256(7) == 0x100_0000_0000_0000) by {
                        reveal_with_fuel(pow256, 9);
                    }
                }
                proof {
                    assert(base + j <= blen);
                }
                let b = bytes[base + j - 1];
                v = v * 256 + (b as u64);
                j = j - 1;
                proof {
                    assert(chunk[j as int] == bytes@[base + j]);
                    assert(v as int == chunk[j as int] + 256 * le_decode(
                        chunk.skip(j as int + 1),
                    ));
                    assert(le_decode(chunk.skip(j as int)) == chunk[j as int] + 256 * le_decode(
                        chunk.skip(j as int).skip(1),
                    ));
                    assert(chunk.skip(j as int).skip(1) =~= chunk.skip(j as int + 1));
                }
            }
            proof {
                assert(chunk.skip(0) =~= chunk);
            }
            if v >= q {
                proof {
                    assert(le_decode(
                        #[trigger] bytes@.subrange(
                            COEFF_ENCODE_BYTES * i as int,
                            COEFF_ENCODE_BYTES * (i as int + 1),
                        ),
                    ) >= q);
                }
                return None;
            }
            c.push(v);
        }
        let r = RingElement { q, c };
        proof {
            assert forall|t: int| 0 <= t < d implies #[trigger] r.coeffs()[t] == le_decode(
                bytes@.subrange(COEFF_ENCODE_BYTES * t, COEFF_ENCODE_BYTES * (t + 1)),
            ) by {
                assert(r.coeffs()[t] == r.c@[t] as int);
            }
            assert forall|t: int| 0 <= t < d implies 0 <= #[trigger] r.coeffs()[t] < q by {
                assert(r.coeffs()[t] == r.c@[t] as int);
            }
        }
        Some(r)
    }
}

impl Clone for RingElement {
    /// An exact copy: same modulus, same coefficients.
    fn clone(&self) -> (r: Self)
        ensures
            r.modulus() == self.modulus(),
            r.coeffs() == self.coeffs(),
            r.dim() == self.dim(),
    {
        let mut c: Vec<u64> = Vec::new();
        let d = self.c.len();
        for i in 0..d
            invariant
                d == self.c@.len(),
                c@ == self.c@.take(i as int),
        {
            c.push(self.c[i]);
            proof {
                assert(c@ =~= self.c@.take(i as int + 1));
            }
        }
        proof {
            assert(c@ =~= self.c@);
        }
        RingElement { q: self.q, c }
    }
}

} // verus!
