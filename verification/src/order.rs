//! The order of numbers, and what rounding keeps of it.

use crate::number::abs;
use crate::number::rounded;
use crate::number::signed;
use crate::number::Real;
use crate::rounding::binade;
use crate::rounding::div_even;
use crate::rounding::lemma_binade;
use crate::rounding::lemma_binade_bounds;
use crate::rounding::lemma_div_even_at_most;
use crate::rounding::lemma_div_even_by;
use crate::rounding::lemma_pow2_53;
use crate::rounding::mag_units;
use crate::rounding::nearest_mag;
use crate::rounding::BINADE;
use crate::rounding::INF_MAG;
use crate::rounding::UNIT_EXP;
use vstd::arithmetic::div_mod::lemma_fundamental_div_mod;
use vstd::arithmetic::mul::lemma_mul_inequality;
use vstd::arithmetic::power2::lemma_pow2_adds;
use vstd::arithmetic::power2::lemma_pow2_pos;
use vstd::arithmetic::power2::lemma_pow2_strictly_increases;
use vstd::arithmetic::power2::pow2;
use vstd::prelude::*;

verus! {

/// Rounding to whole numbers keeps the order.
proof fn lemma_div_even_monotone(n1: nat, n2: nat, m: nat)
    requires
        m > 0,
        n1 <= n2,
    ensures
        div_even(n1, m) <= div_even(n2, m),
{
    let q1 = n1 / m;
    let q2 = n2 / m;
    lemma_fundamental_div_mod(n1 as int, m as int);
    lemma_fundamental_div_mod(n2 as int, m as int);
    assert(q1 <= q2) by (nonlinear_arith)
        requires
            n1 == m * q1 + n1 % m,
            n2 == m * q2 + n2 % m,
            0 <= n1 % m < m,
            0 <= n2 % m < m,
            n1 <= n2,
            m > 0,
    ;
    if q1 == q2 {
        assert(n1 % m <= n2 % m);
    }
}

/// Rounding does not fall below a whole bound.
proof fn lemma_div_even_at_least(n: nat, m: nat, c: nat)
    requires
        m > 0,
        n >= c * m,
    ensures
        div_even(n, m) >= c,
{
    lemma_div_even_by(c * m, m, c, 0);
    lemma_div_even_monotone(c * m, n, m);
}

/// A larger quotient does not have a smaller nearest magnitude.
pub proof fn law_rounding_keeps_order(n1: nat, n2: nat, d: nat)
    requires
        d > 0,
        n1 <= n2,
    ensures
        nearest_mag(n1, d) <= nearest_mag(n2, d),
{
    let k1 = binade(n1, d);
    let k2 = binade(n2, d);
    lemma_binade_bounds(n1, d);
    lemma_binade_bounds(n2, d);
    lemma_pow2_53();
    lemma_pow2_pos(k1);
    lemma_pow2_pos(k2);
    let m1 = d * pow2(k1);
    let m2 = d * pow2(k2);
    assert(m1 > 0) by (nonlinear_arith)
        requires
            m1 == d * pow2(k1),
            d > 0,
            pow2(k1) > 0,
    ;
    assert(m2 > 0) by (nonlinear_arith)
        requires
            m2 == d * pow2(k2),
            d > 0,
            pow2(k2) > 0,
    ;
    if k1 == k2 {
        lemma_div_even_monotone(n1, n2, m1);
    } else {
        if k1 > k2 {
            if k2 + 53 < k1 + 52 {
                lemma_pow2_strictly_increases((k2 + 53) as nat, (k1 + 52) as nat);
            }
            assert(d * pow2((k2 + 53) as nat) <= d * pow2((k1 + 52) as nat)) by (nonlinear_arith)
                requires
                    pow2((k2 + 53) as nat) <= pow2((k1 + 52) as nat),
            ;
            assert(false);
        }
        lemma_pow2_adds(k1, 53);
        assert(d * pow2(k1 + 53) == 0x20_0000_0000_0000 * m1) by (nonlinear_arith)
            requires
                pow2(k1 + 53) == pow2(k1) * 0x20_0000_0000_0000,
                m1 == d * pow2(k1),
        ;
        lemma_div_even_at_most(n1, m1, 0x20_0000_0000_0000);
        lemma_pow2_adds(k2, 52);
        assert(d * pow2((k2 + 52) as nat) == 0x10_0000_0000_0000 * m2) by (nonlinear_arith)
            requires
                pow2((k2 + 52) as nat) == pow2(k2) * 0x10_0000_0000_0000,
                m2 == d * pow2(k2),
        ;
        lemma_div_even_at_least(n2, m2, 0x10_0000_0000_0000);
        assert(k1 * (BINADE as nat) + 0x20_0000_0000_0000 <= k2 * (BINADE as nat)
            + 0x10_0000_0000_0000) by (nonlinear_arith)
            requires
                k1 + 1 <= k2,
                BINADE == 0x10_0000_0000_0000,
        ;
    }
}

/// Larger magnitudes stand for larger values.
pub(crate) proof fn lemma_mag_units_order(b1: nat, b2: nat)
    requires
        b1 < b2,
    ensures
        mag_units(b1) < mag_units(b2),
{
    let s = BINADE as nat;
    lemma_pow2_53();
    if b2 >= s {
        let k2 = (b2 / s - 1) as nat;
        lemma_pow2_pos(k2);
        let p2 = pow2(k2);
        if b1 < s {
            assert((s + b2 % s) * p2 >= s) by (nonlinear_arith)
                requires
                    p2 >= 1,
                    s + b2 % s >= s,
            ;
        } else {
            let k1 = (b1 / s - 1) as nat;
            let p1 = pow2(k1);
            lemma_pow2_pos(k1);
            vstd::arithmetic::div_mod::lemma_div_is_ordered(b1 as int, b2 as int, s as int);
            if k1 == k2 {
                lemma_fundamental_div_mod(b1 as int, s as int);
                lemma_fundamental_div_mod(b2 as int, s as int);
                let (x, y) = (s + b1 % s, s + b2 % s);
                vstd::arithmetic::mul::lemma_mul_strict_inequality(x as int, y as int, p1 as int);
            } else {
                lemma_pow2_adds(1, k1);
                if k1 + 1 < k2 {
                    lemma_pow2_strictly_increases(k1 + 1, k2);
                }
                assert((s + b1 % s) * p1 < (s + b2 % s) * p2) by (nonlinear_arith)
                    requires
                        2 * p1 <= p2,
                        p1 > 0,
                        b1 % s < s,
                        b2 % s >= 0,
                        s > 0,
                ;
            }
        }
    }
}

/// Finite numbers are in the order of their values.
pub proof fn law_order_is_that_of_values(a: Real, b: Real)
    requires
        a.finite(),
        b.finite(),
    ensures
        a.lt(b) == (a.units() < b.units()),
        a.le(b) == (a.units() <= b.units()),
        a.same(b) == (a.units() == b.units()),
{
    let (m, n) = (a.mag(), b.mag());
    if m < n {
        lemma_mag_units_order(m, n);
    }
    if n < m {
        lemma_mag_units_order(n, m);
    }
    if m > 0 {
        lemma_mag_units_order(0, m);
    }
    if n > 0 {
        lemma_mag_units_order(0, n);
    }
}

/// The sign and the magnitude of a number are those that it was made of.
pub proof fn lemma_signed(neg: bool, mag: nat)
    requires
        mag <= INF_MAG,
    ensures
        signed(neg, mag).mag() == mag,
        signed(neg, mag).neg() == neg,
        signed(neg, mag).is_number(),
{
}

/// The place of a rounded value in the order of numbers.
proof fn lemma_rounded_rank(n: int, d: nat)
    requires
        d > 0,
    ensures
        rounded(n, d).is_number(),
        rounded(n, d).rank() == (if n < 0 { -(nearest_mag(abs(n), d) as int) } else { nearest_mag(abs(n), d) as int }),
{
    lemma_signed(n < 0, nearest_mag(abs(n), d));
}

/// Rounding keeps the order of signed values.
pub proof fn lemma_rounded_order(n1: int, n2: int, d: nat)
    requires
        d > 0,
        n1 <= n2,
    ensures
        rounded(n1, d).le(rounded(n2, d)),
{
    lemma_rounded_rank(n1, d);
    lemma_rounded_rank(n2, d);
    if n1 >= 0 {
        law_rounding_keeps_order(abs(n1), abs(n2), d);
    } else if n2 < 0 {
        law_rounding_keeps_order(abs(n2), abs(n1), d);
    }
}

/// A sum is the rounded exact sum, but for the sign of a zero.
proof fn lemma_sum_rank(a: Real, c: Real)
    requires
        a.finite(),
        c.finite(),
    ensures
        a.plus(c).is_number(),
        a.plus(c).rank() == rounded(a.units() + c.units(), 1).rank(),
{
    reveal(Real::spec_plus);
    lemma_rounded_rank(a.units() + c.units(), 1);
    crate::number::lemma_nearest_zero(1);
}

/// Adding the same number keeps the order.
pub proof fn law_plus_keeps_order(a: Real, b: Real, c: Real)
    requires
        c.finite(),
        a.le(b),
    ensures
        a.plus(c).le(b.plus(c)),
        c.plus(a).le(c.plus(b)),
{
    if a.finite() && b.finite() {
        law_order_is_that_of_values(a, b);
        lemma_rounded_order(a.units() + c.units(), b.units() + c.units(), 1);
    } else {
        reveal(Real::spec_plus);
    }
    if a.finite() {
        lemma_sum_rank(a, c);
        lemma_sum_rank(c, a);
    }
    if b.finite() {
        lemma_sum_rank(b, c);
        lemma_sum_rank(c, b);
    }
}

/// Sums do not depend on the order of their operands.
pub proof fn law_plus_commutes(a: Real, b: Real)
    ensures
        a.plus(b) == b.plus(a),
{
    reveal(Real::spec_plus);
}

/// Products do not depend on the order of their operands.
pub proof fn law_times_commutes(a: Real, b: Real)
    ensures
        a.times(b) == b.times(a),
{
    reveal(Real::spec_times);
    vstd::arithmetic::mul::lemma_mul_is_commutative(
        mag_units(a.mag()) as int,
        mag_units(b.mag()) as int,
    );
}

/// Multiplying by the same number that is not negative keeps the order.
pub proof fn law_times_keeps_order(a: Real, b: Real, c: Real)
    requires
        a.finite(),
        b.finite(),
        c.finite(),
        !c.neg(),
        a.le(b),
    ensures
        a.times(c).le(b.times(c)),
{
    reveal(Real::spec_times);
    let d = pow2(UNIT_EXP as nat);
    lemma_pow2_pos(UNIT_EXP as nat);
    let (x, y, z) = (mag_units(a.mag()), mag_units(b.mag()), mag_units(c.mag()));
    law_order_is_that_of_values(a, b);
    lemma_signed(a.neg(), nearest_mag(x * z, d));
    lemma_signed(b.neg(), nearest_mag(y * z, d));
    if !a.neg() && !b.neg() {
        lemma_mul_inequality(x as int, y as int, z as int);
        law_rounding_keeps_order(x * z, y * z, d);
    } else if a.neg() && b.neg() {
        lemma_mul_inequality(y as int, x as int, z as int);
        law_rounding_keeps_order(y * z, x * z, d);
    } else if !a.neg() && b.neg() {
        // Both are zero.
        if a.mag() > 0 {
            lemma_mag_units_order(0, a.mag());
        }
        if b.mag() > 0 {
            lemma_mag_units_order(0, b.mag());
        }
        assert(0 * z == 0);
        crate::number::lemma_nearest_zero(d);
    }
}

/// A whole number of units that has a magnitude of its own is its own nearest.
pub proof fn law_numbers_round_to_themselves(x: Real, d: nat)
    requires
        x.finite(),
        d > 0,
    ensures
        nearest_mag(mag_units(x.mag()) * d, d) == x.mag(),
{
    let b = x.mag();
    let s = BINADE as nat;
    crate::rounding::lemma_nearest_scale(mag_units(b), 1, d);
    assert(1 * d == d);
    lemma_pow2_53();
    if b < s {
        lemma_binade(b, 1, 0);
        lemma_div_even_by(b, 1, b, 0);
    } else {
        let k = (b / s - 1) as nat;
        let f = s + b % s;
        lemma_fundamental_div_mod(b as int, s as int);
        lemma_pow2_pos(k);
        lemma_pow2_adds(k, 53);
        lemma_pow2_adds(k, 52);
        let p = pow2(k);
        assert(f * p < 0x20_0000_0000_0000 * p) by (nonlinear_arith)
            requires
                f < 0x20_0000_0000_0000,
                p > 0,
        ;
        assert(f * p >= 0x10_0000_0000_0000 * p) by (nonlinear_arith)
            requires
                f >= 0x10_0000_0000_0000,
                p > 0,
        ;
        lemma_binade(f * p, 1, k);
        assert(1 * p == p);
        lemma_div_even_by(f * p, p, f, 0);
        assert(k * s + f == b) by (nonlinear_arith)
            requires
                k == b / s - 1,
                f == s + b % s,
                b == s * (b / s) + b % s,
        ;
    }
}

/// Adding zero gives the number back.
pub proof fn law_plus_zero(x: Real)
    requires
        x.finite(),
    ensures
        x.plus(Real { bits: 0 }).same(x),
{
    law_numbers_round_to_themselves(x, 1);
    lemma_sum_rank(x, Real { bits: 0 });
    lemma_rounded_rank(x.units(), 1);
    assert(mag_units(x.mag()) * 1 == mag_units(x.mag()));
    if x.mag() > 0 {
        lemma_mag_units_order(0, x.mag());
    }
}

/// The number nearest to a fraction.
pub open spec fn fraction(n: nat, d: nat) -> Real {
    signed(false, nearest_mag(n * pow2(UNIT_EXP as nat), d))
}

/// The bits of the number nearest to a fraction between two to the power of `-t - 1` and one.
pub proof fn lemma_fraction(n: nat, d: nat, t: nat, q: nat)
    requires
        0 < d,
        52 < t <= UNIT_EXP,
        d * 0x10_0000_0000_0000 <= n * pow2(t) < d * 0x20_0000_0000_0000,
        div_even(n * pow2(t), d) == q,
        (UNIT_EXP - t) * BINADE + q < INF_MAG,
    ensures
        fraction(n, d).bits == (UNIT_EXP - t) * BINADE + q,
{
    let k = (UNIT_EXP - t) as nat;
    let p = pow2(k);
    let m = n * pow2(t);
    lemma_pow2_pos(k);
    lemma_pow2_adds(t, k);
    assert(n * pow2(UNIT_EXP as nat) == m * p) by (nonlinear_arith)
        requires
            pow2(UNIT_EXP as nat) == pow2(t) * p,
            m == n * pow2(t),
    ;
    lemma_pow2_53();
    lemma_pow2_adds(k, 53);
    lemma_pow2_adds(k, 52);
    assert(m * p < d * pow2(k + 53)) by (nonlinear_arith)
        requires
            m < d * 0x20_0000_0000_0000,
            pow2(k + 53) == p * 0x20_0000_0000_0000,
            p > 0,
    ;
    assert(m * p >= d * pow2((k + 52) as nat)) by (nonlinear_arith)
        requires
            m >= d * 0x10_0000_0000_0000,
            pow2((k + 52) as nat) == p * 0x10_0000_0000_0000,
            p > 0,
    ;
    lemma_binade(m * p, d, k);
    crate::rounding::lemma_div_even_scale(m, d, p);
}

} // verus!
