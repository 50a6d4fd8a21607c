//! Exact rational numbers for ghost code.
//!
//! The color conversions divide channel values, so their exact results are
//! rational numbers. This module gives the ghost representation `Rat` used
//! throughout the contracts, the arithmetic on it, and the lemmas that the
//! conversion proofs need. A `Rat` is meaningful when its denominator is
//! positive; two `Rat`s denote the same number when `rat_eq` holds.
use vstd::prelude::*;

verus! {

use vstd::arithmetic::div_mod::lemma_fundamental_div_mod;
use vstd::arithmetic::div_mod::lemma_fundamental_div_mod_converse;
use vstd::arithmetic::div_mod::lemma_div_is_ordered;

/// The rational number `n / d`; meaningful when `d > 0`.
pub ghost struct Rat {
    pub n: int,
    pub d: int,
}

/// The denominator is positive.
pub open spec fn rat_wf(a: Rat) -> bool {
    a.d > 0
}

/// The integer `x` as a rational.
pub open spec fn rat_of_int(x: int) -> Rat {
    Rat { n: x, d: 1 }
}

/// `a` and `b` denote the same rational number.
pub open spec fn rat_eq(a: Rat, b: Rat) -> bool {
    a.n * b.d == b.n * a.d
}

/// `a <= b` as rational numbers (for positive denominators).
pub open spec fn rat_le(a: Rat, b: Rat) -> bool {
    a.n * b.d <= b.n * a.d
}

/// `a < b` as rational numbers (for positive denominators).
pub open spec fn rat_lt(a: Rat, b: Rat) -> bool {
    a.n * b.d < b.n * a.d
}

pub open spec fn rat_add(a: Rat, b: Rat) -> Rat {
    Rat { n: a.n * b.d + b.n * a.d, d: a.d * b.d }
}

pub open spec fn rat_sub(a: Rat, b: Rat) -> Rat {
    Rat { n: a.n * b.d - b.n * a.d, d: a.d * b.d }
}

pub open spec fn rat_mul(a: Rat, b: Rat) -> Rat {
    Rat { n: a.n * b.n, d: a.d * b.d }
}

/// `a / b`; meaningful when `b.n > 0` (every divisor in this library is
/// positive).
pub open spec fn rat_div(a: Rat, b: Rat) -> Rat {
    Rat { n: a.n * b.d, d: a.d * b.n }
}

/// The absolute value.
pub open spec fn rat_abs(a: Rat) -> Rat {
    Rat { n: if a.n < 0 { -a.n } else { a.n }, d: a.d }
}

/// `a mod 2`, in `[0, 2)` for a positive denominator: `a - 2 * floor(a / 2)`.
pub open spec fn rat_mod2(a: Rat) -> Rat {
    Rat { n: a.n - 2 * (a.n / (2 * a.d)) * a.d, d: a.d }
}

/// The integer nearest to `a`, halves rounded up.
pub open spec fn rat_round(a: Rat) -> int {
    (2 * a.n + a.d) / (2 * a.d)
}

/// The numerator over `k` of the multiple of `1/k` nearest to `a`, halves
/// rounded up.
pub open spec fn rat_round_scaled(a: Rat, k: int) -> int {
    (2 * k * a.n + a.d) / (2 * a.d)
}

/// Fractions with cross-equal products have the same floor.
pub proof fn lemma_div_congr(n1: int, d1: int, n2: int, d2: int)
    requires
        d1 > 0,
        d2 > 0,
        n1 * d2 == n2 * d1,
    ensures
        n1 / d1 == n2 / d2,
{
    let q = n1 / d1;
    let r = n1 % d1;
    lemma_fundamental_div_mod(n1, d1);
    let r2 = n2 - q * d2;
    assert(r2 * d1 == r * d2) by (nonlinear_arith)
        requires
            n1 * d2 == n2 * d1,
            n1 == d1 * q + r,
            r2 == n2 - q * d2,
    ;
    assert(0 <= r2 < d2) by (nonlinear_arith)
        requires
            r2 * d1 == r * d2,
            0 <= r < d1,
            d1 > 0,
            d2 > 0,
    ;
    lemma_fundamental_div_mod_converse(n2, d2, q, r2);
}

/// Rounding is well defined on rational values: equal values round alike.
pub proof fn lemma_rat_round_congr(a: Rat, b: Rat)
    requires
        rat_wf(a),
        rat_wf(b),
        rat_eq(a, b),
    ensures
        rat_round(a) == rat_round(b),
{
    assert((2 * a.n + a.d) * (2 * b.d) == (2 * b.n + b.d) * (2 * a.d)) by (nonlinear_arith)
        requires
            a.n * b.d == b.n * a.d,
    ;
    lemma_div_congr(2 * a.n + a.d, 2 * a.d, 2 * b.n + b.d, 2 * b.d);
}

/// Rounding to the `1/k` grid is well defined on rational values.
pub proof fn lemma_rat_round_scaled_congr(a: Rat, b: Rat, k: int)
    requires
        rat_wf(a),
        rat_wf(b),
        rat_eq(a, b),
    ensures
        rat_round_scaled(a, k) == rat_round_scaled(b, k),
{
    assert((2 * k * a.n + a.d) * (2 * b.d) == (2 * k * b.n + b.d) * (2 * a.d)) by (nonlinear_arith)
        requires
            a.n * b.d == b.n * a.d,
    ;
    lemma_div_congr(2 * k * a.n + a.d, 2 * a.d, 2 * k * b.n + b.d, 2 * b.d);
}

pub proof fn lemma_rat_eq_trans(a: Rat, b: Rat, c: Rat)
    requires
        rat_wf(a),
        rat_wf(b),
        rat_wf(c),
        rat_eq(a, b),
        rat_eq(b, c),
    ensures
        rat_eq(a, c),
{
    assert(a.n * c.d == c.n * a.d) by (nonlinear_arith)
        requires
            a.n * b.d == b.n * a.d,
            b.n * c.d == c.n * b.d,
            b.d > 0,
    ;
}

/// Adding equal values to equal values gives equal values.
pub proof fn lemma_rat_add_congr(a: Rat, a2: Rat, b: Rat, b2: Rat)
    requires
        rat_wf(a),
        rat_wf(a2),
        rat_wf(b),
        rat_wf(b2),
        rat_eq(a, a2),
        rat_eq(b, b2),
    ensures
        rat_eq(rat_add(a, b), rat_add(a2, b2)),
{
    assert((a.n * b.d + b.n * a.d) * (a2.d * b2.d) == (a.n * b.d) * (a2.d * b2.d) + (b.n * a.d) * (
    a2.d * b2.d)) by (nonlinear_arith);
    assert((a.n * b.d) * (a2.d * b2.d) == (a.n * a2.d) * (b.d * b2.d)) by (nonlinear_arith);
    assert((b.n * a.d) * (a2.d * b2.d) == (b.n * b2.d) * (a.d * a2.d)) by (nonlinear_arith);
    assert((a2.n * b2.d + b2.n * a2.d) * (a.d * b.d) == (a2.n * b2.d) * (a.d * b.d) + (b2.n * a2.d)
        * (a.d * b.d)) by (nonlinear_arith);
    assert((a2.n * b2.d) * (a.d * b.d) == (a2.n * a.d) * (b.d * b2.d)) by (nonlinear_arith);
    assert((b2.n * a2.d) * (a.d * b.d) == (b2.n * b.d) * (a.d * a2.d)) by (nonlinear_arith);
}

/// Multiplying equal values by equal values gives equal values.
pub proof fn lemma_rat_mul_congr(a: Rat, a2: Rat, b: Rat, b2: Rat)
    requires
        rat_wf(a),
        rat_wf(a2),
        rat_wf(b),
        rat_wf(b2),
        rat_eq(a, a2),
        rat_eq(b, b2),
    ensures
        rat_eq(rat_mul(a, b), rat_mul(a2, b2)),
{
    assert((a.n * b.n) * (a2.d * b2.d) == (a2.n * b2.n) * (a.d * b.d)) by (nonlinear_arith)
        requires
            a.n * a2.d == a2.n * a.d,
            b.n * b2.d == b2.n * b.d,
    ;
}

/// Half-up rounding split into quotient and remainder parts, the form the
/// executable rounding computes: with `q = n / d` and `kr = k * (n % d)`,
/// rounding `k * n / d` half up gives `k * q + kr / d`, plus one when the
/// remainder of `kr` is at least half of `d`.
pub proof fn lemma_round_scaled_split(n: int, d: int, k: int)
    requires
        n >= 0,
        d >= 1,
        k >= 1,
    ensures
        ({
            let q = n / d;
            let kr = k * (n % d);
            rat_round_scaled(Rat { n: n, d: d }, k) == k * q + kr / d + (
            if 2 * (kr % d) >= d {
                1int
            } else {
                0int
            })
        }),
{
    let q = n / d;
    let r = n % d;
    lemma_fundamental_div_mod(n, d);
    let kr = k * r;
    assert(kr >= 0) by (nonlinear_arith)
        requires
            k >= 1,
            r >= 0,
            kr == k * r,
    ;
    let q2 = kr / d;
    let r2 = kr % d;
    lemma_fundamental_div_mod(kr, d);
    assert(2 * k * n + d == 2 * d * (k * q + q2) + (2 * r2 + d)) by (nonlinear_arith)
        requires
            n == d * q + r,
            kr == k * r,
            kr == d * q2 + r2,
    ;
    if 2 * r2 >= d {
        assert(2 * k * n + d == (k * q + q2 + 1) * (2 * d) + (2 * r2 - d)) by (nonlinear_arith)
            requires
                2 * k * n + d == 2 * d * (k * q + q2) + (2 * r2 + d),
        ;
        lemma_fundamental_div_mod_converse(2 * k * n + d, 2 * d, k * q + q2 + 1, 2 * r2 - d);
    } else {
        assert(2 * k * n + d == (k * q + q2) * (2 * d) + (2 * r2 + d)) by (nonlinear_arith)
            requires
                2 * k * n + d == 2 * d * (k * q + q2) + (2 * r2 + d),
        ;
        lemma_fundamental_div_mod_converse(2 * k * n + d, 2 * d, k * q + q2, 2 * r2 + d);
    }
}

/// A quotient stays at or below `b` when the dividend stays at or below
/// `b + 1/2` in units of the divisor: from `2n + d <= d * (2b + 1)` follows
/// `(2n + d) / (2d) <= b`.
pub proof fn lemma_half_up_div_bound(n: int, d: int, b: int)
    requires
        d > 0,
        b >= 0,
        2 * n + d <= d * (2 * b + 1),
    ensures
        (2 * n + d) / (2 * d) <= b,
{
    lemma_div_is_ordered(2 * n + d, d * (2 * b + 1), 2 * d);
    assert((d * (2 * b + 1)) * 2 == (2 * b + 1) * (2 * d)) by (nonlinear_arith);
    lemma_div_congr(d * (2 * b + 1), 2 * d, 2 * b + 1, 2);
    assert((2 * b + 1) / 2 == b);
}

} // verus!
