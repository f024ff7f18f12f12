//! Exact integer arithmetic for the parameter derivation.
//!
//! The parameter deriver rounds real-valued quantities: fourth roots,
//! `t`-th roots and base-`b` logarithms of rationals. Each rounding is
//! characterized exactly by integer power brackets (`floor(v^(1/t)) == x`
//! exactly when `x^t <= v < (x+1)^t`, and so on), so everything here is
//! computed and specified over integers, with no floating point anywhere.

use vstd::prelude::*;

verus! {

/// `base^e` over the integers.
pub open spec fn pow_int(base: int, e: nat) -> int
    decreases e,
{
    if e == 0 {
        1
    } else {
        base * pow_int(base, (e - 1) as nat)
    }
}

pub proof fn lemma_pow_int_positive(base: int, e: nat)
    requires
        base >= 1,
    ensures
        pow_int(base, e) >= 1,
    decreases e,
{
    if e > 0 {
        lemma_pow_int_positive(base, (e - 1) as nat);
        assert(base * pow_int(base, (e - 1) as nat) >= 1) by (nonlinear_arith)
            requires
                base >= 1,
                pow_int(base, (e - 1) as nat) >= 1,
        ;
    }
}

/// Raising the exponent never shrinks a power of a base at least 1.
pub proof fn lemma_pow_int_exp_monotonic(base: int, e1: nat, e2: nat)
    requires
        base >= 1,
        e1 <= e2,
    ensures
        pow_int(base, e1) <= pow_int(base, e2),
    decreases e2,
{
    if e1 < e2 {
        lemma_pow_int_exp_monotonic(base, e1, (e2 - 1) as nat);
        lemma_pow_int_positive(base, (e2 - 1) as nat);
        assert(pow_int(base, (e2 - 1) as nat) <= base * pow_int(base, (e2 - 1) as nat))
            by (nonlinear_arith)
            requires
                base >= 1,
                pow_int(base, (e2 - 1) as nat) >= 1,
        ;
    }
}

/// Growing the base never shrinks a power.
pub proof fn lemma_pow_int_base_monotonic(b1: int, b2: int, e: nat)
    requires
        1 <= b1 <= b2,
    ensures
        pow_int(b1, e) <= pow_int(b2, e),
    decreases e,
{
    if e > 0 {
        lemma_pow_int_base_monotonic(b1, b2, (e - 1) as nat);
        lemma_pow_int_positive(b1, (e - 1) as nat);
        assert(b1 * pow_int(b1, (e - 1) as nat) <= b2 * pow_int(b2, (e - 1) as nat))
            by (nonlinear_arith)
            requires
                1 <= b1 <= b2,
                1 <= pow_int(b1, (e - 1) as nat) <= pow_int(b2, (e - 1) as nat),
        ;
    }
}

/// `c * base^exp`, or `None` when the exact value exceeds `u128::MAX`.
pub fn checked_scaled_pow(c: u128, base: u128, exp: usize) -> (r: Option<u128>)
    requires
        c >= 1,
        base >= 1,
    ensures
        match r {
            Some(v) => v as int == c as int * pow_int(base as int, exp as nat),
            None => c as int * pow_int(base as int, exp as nat) > u128::MAX,
        },
{
    let mut acc: u128 = c;
    for i in 0..exp
        invariant
            c >= 1,
            base >= 1,
            acc as int == c as int * pow_int(base as int, i as nat),
            acc >= 1,
    {
        let ghost acc0 = acc as int;
        match acc.checked_mul(base) {
            Some(v) => {
                acc = v;
                proof {
                    assert(acc as int == acc0 * base as int);
                    assert(acc0 * base as int == c as int * (base as int * pow_int(
                        base as int,
                        i as nat,
                    ))) by (nonlinear_arith)
                        requires
                            acc0 == c as int * pow_int(base as int, i as nat),
                    ;
                    assert(acc >= 1) by (nonlinear_arith)
                        requires
                            acc as int == acc0 * (base as int),
                            acc0 >= 1,
                            base as int >= 1,
                    ;
                }
            },
            None => {
                proof {
                    let bi = base as int;
                    let e = exp as nat;
                    lemma_pow_int_exp_monotonic(bi, (i + 1) as nat, e);
                    lemma_pow_int_positive(bi, i as nat);
                    assert(c as int * pow_int(bi, (i + 1) as nat) == acc0 * bi)
                        by (nonlinear_arith)
                        requires
                            acc0 == c as int * pow_int(bi, i as nat),
                            pow_int(bi, (i + 1) as nat) == bi * pow_int(bi, i as nat),
                    ;
                    assert(acc0 * bi > u128::MAX);
                    assert(c as int * pow_int(bi, e) >= c as int * pow_int(bi, (i + 1) as nat))
                        by (nonlinear_arith)
                        requires
                            c as int >= 1,
                            pow_int(bi, e) >= pow_int(bi, (i + 1) as nat),
                    ;
                }
                return None;
            },
        }
    }
    Some(acc)
}

/// Is `c * base^exp <= bound`?
pub fn scaled_pow_le(c: u128, base: u128, exp: usize, bound: u128) -> (r: bool)
    requires
        c >= 1,
        base >= 1,
    ensures
        r <==> c as int * pow_int(base as int, exp as nat) <= bound,
{
    match checked_scaled_pow(c, base, exp) {
        Some(v) => v <= bound,
        None => false,
    }
}

/// Is `c * base^exp == bound`?
pub fn scaled_pow_eq(c: u128, base: u128, exp: usize, bound: u128) -> (r: bool)
    requires
        c >= 1,
        base >= 1,
    ensures
        r <==> c as int * pow_int(base as int, exp as nat) == bound,
{
    match checked_scaled_pow(c, base, exp) {
        Some(v) => v == bound,
        None => false,
    }
}

/// The floor of the `exp`-th root of `bound / c`: the largest `x` with
/// `c * x^exp <= bound`.
pub fn scaled_root_floor(c: u128, exp: usize, bound: u128) -> (x: u128)
    requires
        c >= 1,
        exp >= 1,
        c <= bound,
        bound < u128::MAX,
    ensures
        c as int * pow_int(x as int, exp as nat) <= bound,
        c as int * pow_int(x as int + 1, exp as nat) > bound,
{
    let mut lo: u128 = 0;
    let mut hi: u128 = bound + 1;
    proof {
        let e = exp as nat;
        assert(pow_int(0, e) == 0) by {
            assert(pow_int(0, e) == 0 * pow_int(0, (e - 1) as nat));
        }
        assert(c as int * pow_int(0, e) == 0) by (nonlinear_arith)
            requires
                pow_int(0, e) == 0,
        ;
        lemma_pow_int_ge_exp_value(bound as int + 1, e);
        assert(c as int * pow_int(bound as int + 1, e) >= 1 * pow_int(bound as int + 1, e))
            by (nonlinear_arith)
            requires
                c as int >= 1,
                pow_int(bound as int + 1, e) >= 0,
        ;
    }
    while hi - lo > 1
        invariant
            c >= 1,
            exp >= 1,
            lo < hi,
            hi <= bound + 1,
            c as int * pow_int(lo as int, exp as nat) <= bound,
            c as int * pow_int(hi as int, exp as nat) > bound,
        decreases hi - lo,
    {
        let mid = lo + (hi - lo) / 2;
        if scaled_pow_le(c, mid, exp, bound) {
            lo = mid;
        } else {
            hi = mid;
        }
    }
    lo
}

/// For `exp >= 1` and `v >= 1`, `v^exp >= v`.
proof fn lemma_pow_int_ge_exp_value(v: int, e: nat)
    requires
        v >= 1,
        e >= 1,
    ensures
        pow_int(v, e) >= v,
{
    lemma_pow_int_exp_monotonic(v, 1, e);
    assert(pow_int(v, 1) == v * pow_int(v, 0));
}

/// The largest `e` with `c * base^e <= bound` (the floor of the base-`base`
/// logarithm of `bound / c`).
pub fn scaled_max_pow_exp(c: u128, base: u128, bound: u128) -> (e: usize)
    requires
        c >= 1,
        base >= 2,
        c <= bound,
    ensures
        c as int * pow_int(base as int, e as nat) <= bound,
        c as int * pow_int(base as int, (e + 1) as nat) > bound,
        e < 130,
{
    let mut e: usize = 0;
    let mut acc: u128 = c;
    let mut can_step = match acc.checked_mul(base) {
        Some(v) => v <= bound,
        None => false,
    };
    while can_step
        invariant
            c >= 1,
            base >= 2,
            c <= bound,
            acc as int == c as int * pow_int(base as int, e as nat),
            acc <= bound,
            acc >= 1,
            acc as int >= pow_int(2, e as nat),
            e < 130,
            can_step <==> acc as int * base as int <= bound,
        decreases bound - acc,
    {
        let ghost acc0 = acc as int;
        let ghost e0 = e as nat;
        acc = acc * base;
        e = e + 1;
        can_step = match acc.checked_mul(base) {
            Some(v) => v <= bound,
            None => false,
        };
        proof {
            assert(acc as int == acc0 * base as int);
            assert(acc0 * base as int == c as int * (base as int * pow_int(
                base as int,
                e0,
            ))) by (nonlinear_arith)
                requires
                    acc0 == c as int * pow_int(base as int, e0),
            ;
            assert(acc as int >= 2 * acc0) by (nonlinear_arith)
                requires
                    acc as int == acc0 * (base as int),
                    base as int >= 2,
                    acc0 >= 1,
            ;
            assert(acc as int >= pow_int(2, (e0 + 1) as nat)) by (nonlinear_arith)
                requires
                    acc as int >= 2 * acc0,
                    acc0 >= pow_int(2, e0),
                    pow_int(2, (e0 + 1) as nat) == 2 * pow_int(2, e0),
            ;
            assert(e as nat == e0 + 1);
            lemma_exp_bounded(e as nat, acc as int);
        }
    }
    proof {
        let bi = base as int;
        let e0 = e as nat;
        assert(acc as int * bi > bound);
        assert(c as int * pow_int(bi, (e0 + 1) as nat) == acc as int * bi) by (nonlinear_arith)
            requires
                acc as int == c as int * pow_int(bi, e0),
                pow_int(bi, (e0 + 1) as nat) == bi * pow_int(bi, e0),
        ;
        lemma_exp_bounded(e as nat, acc as int);
    }
    e
}

/// A value below `2^128` bounds its exponent: if `2^e <= v <= u128::MAX`
/// then `e < 130`.
proof fn lemma_exp_bounded(e: nat, v: int)
    requires
        pow_int(2, e) <= v,
        v <= u128::MAX,
    ensures
        e < 130,
{
    if e >= 130 {
        lemma_pow_int_exp_monotonic(2, 130, e);
        lemma_pow_int_130();
    }
}

/// `2^130 > u128::MAX`.
proof fn lemma_pow_int_130()
    ensures
        pow_int(2, 130) > u128::MAX,
{
    lemma_pow_int_unfold_many();
    assert(pow_int(2, 130) == 4 * (pow_int(2, 64) * pow_int(2, 64))) by {
        lemma_pow_int_adds(2, 64, 64);
        assert(pow_int(2, 130) == 2 * pow_int(2, 129));
        assert(pow_int(2, 129) == 2 * pow_int(2, 128));
        lemma_pow_int_adds(2, 64, 64);
    }
    assert(pow_int(2, 64) == 0x1_0000_0000_0000_0000 ==> 4 * (pow_int(2, 64) * pow_int(2, 64))
        > u128::MAX) by (nonlinear_arith);
}

/// `pow_int(2, 64)` as a literal.
proof fn lemma_pow_int_unfold_many()
    ensures
        pow_int(2, 64) == 0x1_0000_0000_0000_0000,
{
    reveal_with_fuel(pow_int, 65);
}

/// `base^(e1 + e2) == base^e1 * base^e2`.
pub proof fn lemma_pow_int_adds(base: int, e1: nat, e2: nat)
    ensures
        pow_int(base, (e1 + e2) as nat) == pow_int(base, e1) * pow_int(base, e2),
    decreases e1,
{
    if e1 == 0 {
        assert(pow_int(base, e2) == 1 * pow_int(base, e2)) by (nonlinear_arith);
    } else {
        lemma_pow_int_adds(base, (e1 - 1) as nat, e2);
        assert(pow_int(base, (e1 + e2) as nat) == base * pow_int(base, (e1 + e2 - 1) as nat));
        assert(base * (pow_int(base, (e1 - 1) as nat) * pow_int(base, e2)) == (base * pow_int(
            base,
            (e1 - 1) as nat,
        )) * pow_int(base, e2)) by (nonlinear_arith);
    }
}

/// The smallest `a >= 1` with `q^a >= 2^128`; this is
/// `ceil(128 / log2(q))`, the number of aggregations that drives the
/// combined soundness error below `2^-128`.
pub fn min_exp_reaching_128_bits(q: u64) -> (a: usize)
    requires
        q >= 2,
    ensures
        1 <= a <= 128,
        pow_int(q as int, a as nat) > u128::MAX,
        forall|e: nat| 1 <= e < a ==> pow_int(q as int, e) <= u128::MAX,
{
    let mut a: usize = 1;
    let mut acc: u128 = q as u128;
    let mut can_step = acc.checked_mul(q as u128).is_some();
    proof {
        assert(pow_int(q as int, 1) == q as int * pow_int(q as int, 0));
        assert(pow_int(2, 1) == 2 * pow_int(2, 0));
    }
    while can_step
        invariant
            q >= 2,
            a >= 1,
            acc >= 1,
            a < 130,
            acc as int == pow_int(q as int, a as nat),
            acc as int >= pow_int(2, a as nat),
            forall|e: nat| 1 <= e < a ==> pow_int(q as int, e) <= u128::MAX,
            can_step <==> acc as int * q as int <= u128::MAX,
        decreases 130 - a,
    {
        let ghost acc0 = acc as int;
        let ghost a0 = a as nat;
        proof {
            lemma_exp_bounded(a as nat, acc as int);
        }
        acc = acc * (q as u128);
        a = a + 1;
        can_step = acc.checked_mul(q as u128).is_some();
        proof {
            assert(acc as int == acc0 * q as int);
            assert(acc0 * q as int == q as int * pow_int(q as int, a0)) by (nonlinear_arith)
                requires
                    acc0 == pow_int(q as int, a0),
            ;
            assert(acc as int >= 2 * acc0) by (nonlinear_arith)
                requires
                    acc as int == acc0 * (q as int),
                    q as int >= 2,
                    acc0 >= 1,
            ;
            assert(acc as int >= pow_int(2, (a0 + 1) as nat)) by (nonlinear_arith)
                requires
                    acc as int >= 2 * acc0,
                    acc0 >= pow_int(2, a0),
                    pow_int(2, (a0 + 1) as nat) == 2 * pow_int(2, a0),
            ;
            assert forall|e: nat| 1 <= e < a implies pow_int(q as int, e) <= u128::MAX by {
                if e == a0 + 1 {
                } else {
                    assert(1 <= e < a0 + 1);
                    if e == a0 {
                        assert(pow_int(q as int, a0) == acc0 <= u128::MAX);
                    }
                }
            }
            lemma_exp_bounded(a as nat, acc as int);
        }
    }
    proof {
        let qi = q as int;
        let a0 = a as nat;
        assert(acc as int * qi > u128::MAX);
        assert(pow_int(qi, (a0 + 1) as nat) == qi * pow_int(qi, a0));
        assert(qi * pow_int(qi, a0) == acc as int * qi) by (nonlinear_arith)
            requires
                acc as int == pow_int(qi, a0),
        ;
        lemma_exp_bounded(a as nat, acc as int);
        assert(a + 1 <= 130);
    }
    let r = a + 1;
    proof {
        if r > 128 {
            // q >= 2 means 128 steps always overflow, so the loop stops by
            // then: q^128 >= 2^128 > u128::MAX.
            assert(pow_int(2, 128) <= pow_int(q as int, 128)) by {
                lemma_pow_int_base_monotonic(2, q as int, 128);
            }
            assert(pow_int(2, 128) > u128::MAX) by {
                lemma_pow_int_unfold_many();
                lemma_pow_int_adds(2, 64, 64);
                assert(0x1_0000_0000_0000_0000 * 0x1_0000_0000_0000_0000 > u128::MAX)
                    by (nonlinear_arith);
            }
            assert(forall|e: nat| 1 <= e < r ==> pow_int(q as int, e) <= u128::MAX);
            assert(1 <= 128nat < r as nat);
            assert(false);
        }
    }
    r
}

} // verus!
