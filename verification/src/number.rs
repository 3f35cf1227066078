//! Binary64 numbers, held as their bit patterns, with exactly rounded arithmetic.
//!
//! Every operation is stated over the exact value of its operands: the result is the nearest
//! binary64 number, ties to even. See the `rounding` module for magnitudes and units.

use crate::rounding::binade;
use crate::rounding::lemma_binade_bounds;
use crate::rounding::lemma_div_even_by;
use crate::rounding::lemma_nearest_scale;
use crate::rounding::lemma_pow2_53;
use crate::rounding::lemma_same_cell;
use crate::rounding::mag_units;
use crate::rounding::nearest_mag;
use crate::rounding::round_mag;
use crate::rounding::BINADE;
use crate::rounding::INF_MAG;
use crate::rounding::UNIT_EXP;
use vstd::arithmetic::mul::lemma_mul_is_associative;
use vstd::arithmetic::power2::lemma_pow2_adds;
use vstd::arithmetic::power2::lemma_pow2_pos;
use vstd::arithmetic::power2::lemma_pow2_strictly_increases;
use vstd::arithmetic::power2::pow2;
use vstd::prelude::*;

verus! {

/// The bit of the sign.
pub const SIGN: u64 = 0x8000_0000_0000_0000;

/// The bits of the number that is no number.
pub const NAN_BITS: u64 = 0x7ff8_0000_0000_0000;

/// A binary64 number. Two values are `==` when their bits are; `same` compares the numbers.
#[derive(Clone, Copy, Debug, PartialEq, Eq, Structural)]
pub struct Real {
    pub bits: u64,
}

/// The number with the given sign and magnitude.
pub open spec fn signed(neg: bool, mag: nat) -> Real {
    Real { bits: (if neg { mag + SIGN } else { mag as int }) as u64 }
}

/// The result of an undefined operation.
pub open spec fn nan() -> Real {
    Real { bits: NAN_BITS }
}

/// The number nearest to `n / d` units.
pub open spec fn rounded(n: int, d: nat) -> Real {
    signed(n < 0, nearest_mag(abs(n), d))
}

/// The distance from zero.
pub open spec fn abs(n: int) -> nat {
    (if n < 0 { -n } else { n }) as nat
}

impl Real {
    /// Whether the sign bit is set.
    pub open spec fn neg(self) -> bool {
        self.bits >= SIGN
    }

    /// The magnitude.
    pub open spec fn mag(self) -> nat {
        (if self.bits >= SIGN { self.bits - SIGN } else { self.bits as int }) as nat
    }

    /// Whether this is a number at all.
    pub open spec fn is_number(self) -> bool {
        self.mag() <= INF_MAG
    }

    /// Whether this is an infinity.
    pub open spec fn infinite(self) -> bool {
        self.mag() == INF_MAG
    }

    /// Whether this is a finite number.
    pub open spec fn finite(self) -> bool {
        self.mag() < INF_MAG
    }

    /// Whether this is a zero of either sign.
    pub open spec fn zero(self) -> bool {
        self.mag() == 0
    }

    /// The value of a finite number, in units.
    pub open spec fn units(self) -> int {
        if self.neg() {
            -(mag_units(self.mag()) as int)
        } else {
            mag_units(self.mag()) as int
        }
    }

    /// The place of a number in the order of all numbers; both zeros are at place 0.
    pub open spec fn rank(self) -> int {
        if self.neg() {
            -(self.mag() as int)
        } else {
            self.mag() as int
        }
    }

    pub open spec fn spec_lt(self, other: Real) -> bool {
        self.is_number() && other.is_number() && self.rank() < other.rank()
    }

    pub open spec fn spec_le(self, other: Real) -> bool {
        self.is_number() && other.is_number() && self.rank() <= other.rank()
    }

    pub open spec fn spec_same(self, other: Real) -> bool {
        self.is_number() && other.is_number() && self.rank() == other.rank()
    }

    #[verifier::opaque]
    pub open spec fn spec_plus(self, other: Real) -> Real {
        if !self.is_number() || !other.is_number() {
            nan()
        } else if self.infinite() {
            if other.infinite() && self.neg() != other.neg() {
                nan()
            } else {
                self
            }
        } else if other.infinite() {
            other
        } else if self.units() + other.units() == 0 {
            signed(self.neg() && other.neg(), 0)
        } else {
            rounded(self.units() + other.units(), 1)
        }
    }

    pub open spec fn spec_negated(self) -> Real {
        signed(!self.neg(), self.mag())
    }

    pub open spec fn spec_minus(self, other: Real) -> Real {
        self.spec_plus(other.spec_negated())
    }

    pub open spec fn spec_magnitude(self) -> Real {
        signed(false, self.mag())
    }

    #[verifier::opaque]
    pub open spec fn spec_times(self, other: Real) -> Real {
        if !self.is_number() || !other.is_number() {
            nan()
        } else if self.infinite() || other.infinite() {
            if self.zero() || other.zero() {
                nan()
            } else {
                signed(self.neg() != other.neg(), INF_MAG as nat)
            }
        } else {
            signed(
                self.neg() != other.neg(),
                nearest_mag(mag_units(self.mag()) * mag_units(other.mag()), pow2(UNIT_EXP as nat)),
            )
        }
    }

    #[verifier::opaque]
    pub open spec fn spec_over(self, other: Real) -> Real {
        if !self.is_number() || !other.is_number() {
            nan()
        } else if self.infinite() {
            if other.infinite() {
                nan()
            } else {
                signed(self.neg() != other.neg(), INF_MAG as nat)
            }
        } else if other.infinite() {
            signed(self.neg() != other.neg(), 0)
        } else if other.zero() {
            if self.zero() {
                nan()
            } else {
                signed(self.neg() != other.neg(), INF_MAG as nat)
            }
        } else {
            signed(
                self.neg() != other.neg(),
                nearest_mag(mag_units(self.mag()) * pow2(UNIT_EXP as nat), mag_units(other.mag())),
            )
        }
    }

    pub(crate) fn sign_and_mag(self) -> (r: (bool, u64))
        ensures
            r.0 == self.neg(),
            r.1 == self.mag(),
            r.1 < SIGN,
    {
        if self.bits >= SIGN {
            (true, self.bits - SIGN)
        } else {
            (false, self.bits)
        }
    }

    pub(crate) fn make(neg: bool, mag: u64) -> (r: Real)
        requires
            mag < SIGN,
        ensures
            r == signed(neg, mag as nat),
    {
        if neg {
            Real { bits: mag + SIGN }
        } else {
            Real { bits: mag }
        }
    }

    /// Whether this is less than `other`; never, when one of them is no number.
    #[verifier::when_used_as_spec(spec_lt)]
    pub fn lt(self, other: Real) -> (r: bool)
        ensures
            r == self.spec_lt(other),
    {
        let (n1, m1) = self.sign_and_mag();
        let (n2, m2) = other.sign_and_mag();
        if m1 > INF_MAG || m2 > INF_MAG {
            false
        } else if n1 {
            if n2 {
                m2 < m1
            } else {
                m1 > 0 || m2 > 0
            }
        } else {
            !n2 && m1 < m2
        }
    }

    /// Whether this is at most `other`; never, when one of them is no number.
    #[verifier::when_used_as_spec(spec_le)]
    pub fn le(self, other: Real) -> (r: bool)
        ensures
            r == self.spec_le(other),
    {
        self.lt(other) || self.same(other)
    }

    /// Whether this and `other` are the same number; never, when one of them is no number.
    #[verifier::when_used_as_spec(spec_same)]
    pub fn same(self, other: Real) -> (r: bool)
        ensures
            r == self.spec_same(other),
    {
        let (n1, m1) = self.sign_and_mag();
        let (n2, m2) = other.sign_and_mag();
        m1 <= INF_MAG && m2 <= INF_MAG && ((m1 == 0 && m2 == 0) || (n1 == n2 && m1 == m2))
    }

    /// Whether this is no number.
    pub fn is_nan(self) -> (r: bool)
        ensures
            r == !self.is_number(),
    {
        let (_, m) = self.sign_and_mag();
        m > INF_MAG
    }

    /// The number with the other sign.
    #[verifier::when_used_as_spec(spec_negated)]
    pub fn negated(self) -> (r: Real)
        ensures
            r == self.spec_negated(),
    {
        let (n, m) = self.sign_and_mag();
        Real::make(!n, m)
    }

    /// The number without its sign.
    #[verifier::when_used_as_spec(spec_magnitude)]
    pub fn magnitude(self) -> (r: Real)
        ensures
            r == self.spec_magnitude(),
    {
        let (_, m) = self.sign_and_mag();
        Real::make(false, m)
    }

    /// The sum.
    #[verifier::when_used_as_spec(spec_plus)]
    pub fn plus(self, other: Real) -> (r: Real)
        ensures
            r == self.spec_plus(other),
    {
        proof {
            reveal(Real::spec_plus);
        }
        let (n1, m1) = self.sign_and_mag();
        let (n2, m2) = other.sign_and_mag();
        if m1 > INF_MAG || m2 > INF_MAG {
            return Real { bits: NAN_BITS };
        }
        if m1 == INF_MAG {
            if m2 == INF_MAG && n1 != n2 {
                return Real { bits: NAN_BITS };
            }
            return self;
        }
        if m2 == INF_MAG {
            return other;
        }
        let (f1, e1) = unpack(m1);
        let (f2, e2) = unpack(m2);
        if e1 >= e2 {
            sum_unpacked(n1, f1, e1, n2, f2, e2)
        } else {
            sum_unpacked(n2, f2, e2, n1, f1, e1)
        }
    }

    /// The difference.
    #[verifier::when_used_as_spec(spec_minus)]
    pub fn minus(self, other: Real) -> (r: Real)
        ensures
            r == self.spec_minus(other),
    {
        self.plus(other.negated())
    }

    /// The product.
    #[verifier::when_used_as_spec(spec_times)]
    pub fn times(self, other: Real) -> (r: Real)
        ensures
            r == self.spec_times(other),
    {
        proof {
            reveal(Real::spec_times);
        }
        let (n1, m1) = self.sign_and_mag();
        let (n2, m2) = other.sign_and_mag();
        if m1 > INF_MAG || m2 > INF_MAG {
            return Real { bits: NAN_BITS };
        }
        if m1 == INF_MAG || m2 == INF_MAG {
            if m1 == 0 || m2 == 0 {
                return Real { bits: NAN_BITS };
            }
            return Real::make(n1 != n2, INF_MAG);
        }
        let (f1, e1) = unpack(m1);
        let (f2, e2) = unpack(m2);
        proof {
            lemma_product_of_powers(f1 as nat, e1 as nat, f2 as nat, e2 as nat);
            lemma_pow2_pos((e1 + e2) as nat);
            lemma_pow2_pos(UNIT_EXP as nat);
            assert(f1 * f2 < 0x20_0000_0000_0000 * 0x20_0000_0000_0000) by (nonlinear_arith)
                requires
                    f1 < 0x20_0000_0000_0000,
                    f2 < 0x20_0000_0000_0000,
            ;
        }
        let j: u128 = f1 as u128 * f2 as u128;
        if j == 0 {
            proof {
                assert(0 * pow2((e1 + e2) as nat) == 0);
                lemma_nearest_zero(pow2(UNIT_EXP as nat));
            }
            return Real::make(n1 != n2, 0);
        }
        let m: u64 = round_mag(j, e1 + e2, UNIT_EXP);
        Real::make(n1 != n2, m)
    }

    /// The quotient.
    #[verifier::when_used_as_spec(spec_over)]
    pub fn over(self, other: Real) -> (r: Real)
        ensures
            r == self.spec_over(other),
    {
        proof {
            reveal(Real::spec_over);
        }
        let (n1, m1) = self.sign_and_mag();
        let (n2, m2) = other.sign_and_mag();
        let neg: bool = n1 != n2;
        if m1 > INF_MAG || m2 > INF_MAG {
            return Real { bits: NAN_BITS };
        }
        if m1 == INF_MAG {
            if m2 == INF_MAG {
                return Real { bits: NAN_BITS };
            }
            return Real::make(neg, INF_MAG);
        }
        if m2 == INF_MAG {
            return Real::make(neg, 0);
        }
        if m2 == 0 {
            if m1 == 0 {
                return Real { bits: NAN_BITS };
            }
            return Real::make(neg, INF_MAG);
        }
        let (f1, e1) = unpack(m1);
        let (f2, e2) = unpack(m2);
        if f1 == 0 {
            proof {
                lemma_pow2_pos(e2 as nat);
                assert(f2 * pow2(e2 as nat) > 0) by (nonlinear_arith)
                    requires
                        f2 > 0,
                        pow2(e2 as nat) > 0,
                ;
                assert(0 * pow2(UNIT_EXP as nat) == 0);
                lemma_nearest_zero(mag_units(m2 as nat));
            }
            return Real::make(neg, 0);
        }
        let m: u64 = quotient(f1, e1, f2, e2);
        Real::make(neg, m)
    }

    #[verifier::opaque]
    pub open spec fn spec_from_u64(n: u64) -> Real {
        rounded(n * pow2(UNIT_EXP as nat), 1)
    }

    /// The number nearest to `n`.
    #[verifier::when_used_as_spec(spec_from_u64)]
    pub fn from_u64(n: u64) -> (r: Real)
        ensures
            r == Real::spec_from_u64(n),
    {
        proof {
            reveal(Real::spec_from_u64);
        }
        proof {
            lemma_pow2_53();
            assert(n * pow2(UNIT_EXP as nat) >= 0) by (nonlinear_arith)
                requires
                    n >= 0,
            ;
        }
        if n == 0 {
            proof {
                assert(0 * pow2(UNIT_EXP as nat) == 0);
                lemma_nearest_zero(1);
            }
            return Real::make(false, 0);
        }
        let m: u64 = round_mag(n as u128, UNIT_EXP, 0);
        Real::make(false, m)
    }

    #[verifier::opaque]
    pub open spec fn spec_to_u64(self) -> u64 {
        if !self.is_number() || self.neg() {
            0
        } else if self.infinite() || self.units() / (pow2(UNIT_EXP as nat) as int) > u64::MAX {
            u64::MAX
        } else {
            (self.units() / (pow2(UNIT_EXP as nat) as int)) as u64
        }
    }

    /// The whole part, held within the range of `u64`; zero when this is no number.
    #[verifier::when_used_as_spec(spec_to_u64)]
    pub fn to_u64(self) -> (r: u64)
        ensures
            r == self.spec_to_u64(),
    {
        proof {
            reveal(Real::spec_to_u64);
        }
        let (n, m) = self.sign_and_mag();
        if m > INF_MAG || n {
            return 0;
        }
        if m == INF_MAG {
            return u64::MAX;
        }
        let (f, e) = unpack(m);
        proof {
            lemma_pow2_53();
            lemma_pow2_pos(UNIT_EXP as nat);
        }
        if e >= UNIT_EXP {
            let s: u32 = e - UNIT_EXP;
            proof {
                lemma_pow2_adds(s as nat, UNIT_EXP as nat);
                lemma_mul_is_associative(f as int, pow2(s as nat) as int, pow2(UNIT_EXP as nat) as int);
                lemma_div_even_by(
                    mag_units(m as nat),
                    pow2(UNIT_EXP as nat),
                    f as nat * pow2(s as nat),
                    0,
                );
                lemma_pow2_pos(s as nat);
            }
            if s > 11 {
                proof {
                    if s > 12 {
                        lemma_pow2_strictly_increases(12, s as nat);
                    }
                    assert(f * pow2(s as nat) >= BINADE * 0x1000) by (nonlinear_arith)
                        requires
                            f >= BINADE,
                            pow2(s as nat) >= 0x1000,
                    ;
                }
                return u64::MAX;
            }
            let p: u128 = crate::rounding::power_of_two(s);
            proof {
                if s < 11 {
                    lemma_pow2_strictly_increases(s as nat, 11);
                }
                assert(f * p <= 0x1f_ffff_ffff_ffff * 0x800) by (nonlinear_arith)
                    requires
                        f <= 0x1f_ffff_ffff_ffff,
                        0 <= p <= 0x800,
                ;
            }
            (f as u128 * p) as u64
        } else {
            let t: u32 = UNIT_EXP - e;
            proof {
                lemma_pow2_adds(t as nat, e as nat);
                lemma_pow2_pos(t as nat);
                lemma_pow2_pos(e as nat);
                lemma_quotient_scale(f as nat, pow2(t as nat), pow2(e as nat));
            }
            if t > 52 {
                proof {
                    if t > 53 {
                        lemma_pow2_strictly_increases(53, t as nat);
                    }
                    lemma_div_even_by(f as nat, pow2(t as nat), 0, f as nat);
                }
                return 0;
            }
            let p: u128 = crate::rounding::power_of_two(t);
            (f as u128 / p) as u64
        }
    }
}

/// A finite magnitude as a whole number below 2^53 times a power of two.
pub(crate) fn unpack(b: u64) -> (r: (u64, u32))
    requires
        b < INF_MAG,
    ensures
        r.0 < 0x20_0000_0000_0000,
        r.1 <= 2045,
        r.1 > 0 ==> r.0 >= BINADE,
        mag_units(b as nat) == r.0 as nat * pow2(r.1 as nat),
        r.0 == 0 <==> b == 0,
{
    proof {
        lemma_pow2_53();
    }
    if b < BINADE {
        (b, 0)
    } else {
        let k: u64 = b / BINADE;
        (BINADE + b % BINADE, (k - 1) as u32)
    }
}

/// A whole number of units, as a signed count.
spec fn signed_units(neg: bool, f: nat, e: nat) -> int {
    if neg {
        -(f * pow2(e))
    } else {
        (f * pow2(e)) as int
    }
}

/// The sum of two unpacked numbers of which the first has the larger exponent.
fn sum_unpacked(n1: bool, f1: u64, e1: u32, n2: bool, f2: u64, e2: u32) -> (r: Real)
    requires
        f1 < 0x20_0000_0000_0000,
        f2 < 0x20_0000_0000_0000,
        e2 <= e1 <= 2045,
        e1 > 0 ==> f1 >= BINADE,
    ensures
        ({
            let s = signed_units(n1, f1 as nat, e1 as nat) + signed_units(n2, f2 as nat, e2 as nat);
            r == (if s == 0 { signed(n1 && n2, 0) } else { rounded(s, 1) })
        }),
{
    let diff: u32 = e1 - e2;
    let ghost s = signed_units(n1, f1 as nat, e1 as nat) + signed_units(n2, f2 as nat, e2 as nat);
    proof {
        lemma_pow2_53();
        lemma_pow2_pos(e1 as nat);
        lemma_pow2_pos(e2 as nat);
        lemma_pow2_adds(diff as nat, e2 as nat);
    }
    if diff <= 64 {
        let p: u128 = crate::rounding::power_of_two(diff);
        proof {
            lemma_pow2_at_most_64(diff as nat);
            assert(f1 * p < 0x20_0000_0000_0000 * 0x1_0000_0000_0000_0000) by (nonlinear_arith)
                requires
                    f1 < 0x20_0000_0000_0000,
                    0 < p <= 0x1_0000_0000_0000_0000,
            ;
            lemma_mul_is_associative(f1 as int, p as int, pow2(e2 as nat) as int);
        }
        let a: u128 = f1 as u128 * p;
        let b: u128 = f2 as u128;
        let (neg, j): (bool, u128) = if n1 == n2 {
            (n1, a + b)
        } else if a >= b {
            (n1, a - b)
        } else {
            (n2, b - a)
        };
        let ghost p2 = pow2(e2 as nat);
        proof {
            assert((a + b) * p2 == a * p2 + b * p2) by (nonlinear_arith);
            assert((a - b) * p2 == a * p2 - b * p2) by (nonlinear_arith);
            assert((b - a) * p2 == b * p2 - a * p2) by (nonlinear_arith);
            assert(abs(s) == j * p2);
        }
        if j == 0 {
            return Real::make(n1 && n2, 0);
        }
        proof {
            assert(j * p2 > 0) by (nonlinear_arith)
                requires
                    j > 0,
                    p2 > 0,
            ;
        }
        let m: u64 = round_mag(j, e2, 0);
        Real::make(neg, m)
    } else if f2 == 0 {
        proof {
            assert(0 * pow2(e2 as nat) == 0);
            assert(f1 * pow2(e1 as nat) > 0) by (nonlinear_arith)
                requires
                    f1 > 0,
                    pow2(e1 as nat) > 0,
            ;
        }
        let m: u64 = round_mag(f1 as u128, e1, 0);
        Real::make(n1, m)
    } else {
        // The smaller operand only decides to which side of the larger one the sum lies.
        let j: u128 = if n1 == n2 { f1 as u128 * 8192 + 1 } else { f1 as u128 * 8192 - 1 };
        let m: u64 = round_mag(j, e1 - 13, 0);
        proof {
            lemma_far_sum(n1 == n2, f1 as nat, e1 as nat, f2 as nat, e2 as nat);
        }
        Real::make(n1, m)
    }
}

proof fn lemma_pow2_at_most_64(e: nat)
    requires
        e <= 64,
    ensures
        0 < pow2(e) <= 0x1_0000_0000_0000_0000,
{
    vstd::arithmetic::power2::lemma2_to64();
    vstd::arithmetic::power2::lemma2_to64_rest();
    lemma_pow2_pos(e);
    if e < 64 {
        lemma_pow2_strictly_increases(e, 64);
    }
}

/// A number more than 2^64 times smaller moves a sum off the larger number by less than
/// anything that rounding can tell.
proof fn lemma_far_sum(same: bool, f1: nat, e1: nat, f2: nat, e2: nat)
    requires
        BINADE <= f1 < 0x20_0000_0000_0000,
        0 < f2 < 0x20_0000_0000_0000,
        e1 > e2 + 64,
    ensures
        f1 * pow2(e1) > f2 * pow2(e2),
        ({
            let n = if same { f1 * pow2(e1) + f2 * pow2(e2) } else { (f1 * pow2(e1) - f2 * pow2(e2)) as nat };
            let j = if same { f1 * 8192 + 1 } else { (f1 * 8192 - 1) as nat };
            nearest_mag(n, 1) == nearest_mag(j * pow2((e1 - 13) as nat), 1)
        }),
{
    let p1 = pow2(e1);
    let p2 = pow2(e2);
    let w = pow2((e1 - 12) as nat);
    let h = pow2((e1 - 13) as nat);
    lemma_pow2_53();
    vstd::arithmetic::power2::lemma2_to64();
    lemma_pow2_adds(12, (e1 - 12) as nat);
    lemma_pow2_adds(1, (e1 - 13) as nat);
    lemma_pow2_adds(53, e2);
    lemma_pow2_pos(e2);
    lemma_pow2_pos((e1 - 13) as nat);
    if e2 + 53 < e1 - 12 {
        lemma_pow2_strictly_increases((e2 + 53) as nat, (e1 - 12) as nat);
    }
    let lo = f2 * p2;
    assert(0 < lo < w) by (nonlinear_arith)
        requires
            lo == f2 * p2,
            0 < f2 < 0x20_0000_0000_0000,
            p2 > 0,
            0x20_0000_0000_0000 * p2 <= w,
    ;
    let a = f1 * 4096;
    let hi = f1 * p1;
    assert(hi == a * w) by (nonlinear_arith)
        requires
            hi == f1 * p1,
            a == f1 * 4096,
            p1 == 4096 * w,
    ;
    assert(a * w >= BINADE * 4096 * w) by (nonlinear_arith)
        requires
            a >= BINADE * 4096,
    ;
    let n = if same { hi + lo } else { (hi - lo) as nat };
    let j = if same { f1 * 8192 + 1 } else { (f1 * 8192 - 1) as nat };
    let n2 = j * h;
    let (q, r, r2): (nat, nat, nat) = if same {
        (a, lo, h)
    } else {
        ((a - 1) as nat, (w - lo) as nat, h)
    };
    assert((a - 1) * w == a * w - w) by (nonlinear_arith);
    assert(n2 == q * w + h) by (nonlinear_arith)
        requires
            n2 == j * h,
            w == 2 * h,
            a == f1 * 4096,
            same ==> j == f1 * 8192 + 1 && q == a,
            !same ==> j == f1 * 8192 - 1 && q == a - 1,
    ;
    lemma_div_even_by(n, w, q, r);
    lemma_div_even_by(n2, w, q, r2);
    // The sum has at least 52 bits above the exponent of the larger operand.
    let k = binade(n, 1);
    lemma_binade_bounds(n, 1);
    assert(k + 53 > e1 + 51) by {
        if k + 53 <= e1 + 51 {
            if k + 53 < e1 + 51 {
                lemma_pow2_strictly_increases(k + 53, (e1 + 51) as nat);
            }
            lemma_pow2_adds(51, e1);
            assert(n < 0x8_0000_0000_0000 * p1);
            assert(n >= hi - w);
            assert(hi >= BINADE * p1) by (nonlinear_arith)
                requires
                    hi == f1 * p1,
                    f1 >= BINADE,
            ;
            assert(false) by (nonlinear_arith)
                requires
                    n < 0x8_0000_0000_0000 * p1,
                    n >= hi - w,
                    hi >= BINADE * p1,
                    BINADE == 0x10_0000_0000_0000,
                    p1 == 4096 * w,
                    w > 0,
            ;
        }
    }
    let x = pow2((k + 11 - e1) as nat);
    lemma_pow2_adds((e1 - 12) as nat, (k + 11 - e1) as nat);
    lemma_pow2_adds(1, (k - 1) as nat);
    lemma_same_cell(n, n2, 1, w, x);
}

/// Zero is its own nearest magnitude.
pub proof fn lemma_nearest_zero(d: nat)
    requires
        d > 0,
    ensures
        nearest_mag(0, d) == 0,
{
    lemma_pow2_53();
    assert(0 < d * 0x20_0000_0000_0000) by (nonlinear_arith)
        requires
            d > 0,
    ;
    assert(binade(0, d) == 0);
    assert(d * pow2(0) == d);
    lemma_div_even_by(0, d, 0, 0);
}

proof fn lemma_product_of_powers(f1: nat, e1: nat, f2: nat, e2: nat)
    ensures
        (f1 * pow2(e1)) * (f2 * pow2(e2)) == (f1 * f2) * pow2(e1 + e2),
{
    lemma_pow2_adds(e1, e2);
    let p1 = pow2(e1);
    let p2 = pow2(e2);
    assert((f1 * p1) * (f2 * p2) == (f1 * f2) * (p1 * p2)) by (nonlinear_arith);
}

/// The whole part of a quotient does not change when both sides are scaled.
proof fn lemma_quotient_scale(n: nat, m: nat, c: nat)
    requires
        m > 0,
        c > 0,
    ensures
        (n * c) / (m * c) == n / m,
        m * c > 0,
{
    vstd::arithmetic::div_mod::lemma_fundamental_div_mod(n as int, m as int);
    let q = n / m;
    let r = n % m;
    assert(n * c == q * (m * c) + r * c && r * c < m * c && m * c > 0) by (nonlinear_arith)
        requires
            n == m * q + r,
            0 <= r < m,
            c > 0,
    ;
    lemma_div_even_by(n * c, m * c, q, r * c);
}

/// The magnitude nearest to the quotient of two unpacked numbers.
fn quotient(f1: u64, e1: u32, f2: u64, e2: u32) -> (m: u64)
    requires
        0 < f1 < 0x20_0000_0000_0000,
        0 < f2 < 0x20_0000_0000_0000,
        e1 <= 2045,
        e2 <= 2045,
    ensures
        m == nearest_mag(
            (f1 as nat * pow2(e1 as nat)) * pow2(UNIT_EXP as nat),
            f2 as nat * pow2(e2 as nat),
        ),
        m <= INF_MAG,
{
    let mut g: u64 = f1;
    let mut s: u32 = 0;
    proof {
        lemma_pow2_53();
    }
    while g < BINADE
        invariant
            0 < g < 0x20_0000_0000_0000,
            g == f1 * pow2(s as nat),
            s <= 52,
            s > 0 ==> pow2(s as nat) <= g,
        decreases 0x20_0000_0000_0000 - g,
    {
        proof {
            lemma_pow2_53();
            lemma_pow2_adds(1, s as nat);
            assert(f1 * pow2((s + 1) as nat) == 2 * (f1 * pow2(s as nat))) by (nonlinear_arith)
                requires
                    pow2((s + 1) as nat) == 2 * pow2(s as nat),
            ;
            assert(pow2(s as nat) <= f1 * pow2(s as nat)) by (nonlinear_arith)
                requires
                    f1 >= 1,
            ;
            if s == 52 {
                assert(false);
            }
        }
        g = g * 2;
        s = s + 1;
    }
    let p: u128 = 0x100_0000_0000_0000_0000;
    proof {
        vstd::arithmetic::power2::lemma2_to64();
        vstd::arithmetic::power2::lemma2_to64_rest();
        lemma_pow2_adds(64, 8);
        assert(g * p < 0x20_0000_0000_0000 * p) by (nonlinear_arith)
            requires
                g < 0x20_0000_0000_0000,
                p > 0,
        ;
    }
    let t: u128 = g as u128 * p;
    let q: u128 = t / (f2 as u128);
    let r: u128 = t % (f2 as u128);
    proof {
        vstd::arithmetic::div_mod::lemma_fundamental_div_mod(t as int, f2 as int);
        assert(q >= 0x80_0000_0000_0000_0000) by (nonlinear_arith)
            requires
                t == f2 * q + r,
                0 <= r < f2,
                0 < f2 < 0x20_0000_0000_0000,
                t >= 0x10_0000_0000_0000 * 0x100_0000_0000_0000_0000,
        ;
        assert(q <= t) by (nonlinear_arith)
            requires
                t == f2 * q + r,
                0 <= r < f2,
                0 < f2,
                q >= 0,
        ;
    }
    let j: u128 = if r > 0 { 2 * q + 1 } else { 2 * q };
    let m: u64 = round_mag(j, e1 + UNIT_EXP, e2 + 73 + s);
    proof {
        lemma_pow2_adds(72, s as nat);
        assert(t == f1 * pow2((72 + s) as nat)) by (nonlinear_arith)
            requires
                t == g * p,
                g == f1 * pow2(s as nat),
                pow2((72 + s) as nat) == p * pow2(s as nat),
        ;
        lemma_quotient(f1 as nat, e1 as nat, f2 as nat, e2 as nat, s as nat, q as nat, r as nat);
    }
    m
}

/// A quotient whose first 72 bits or more are known rounds by those bits and by whether
/// anything is left over.
proof fn lemma_quotient(f1: nat, e1: nat, f2: nat, e2: nat, s: nat, q: nat, r: nat)
    requires
        f2 > 0,
        f1 * pow2(72 + s) == f2 * q + r,
        r < f2,
        q >= 0x80_0000_0000_0000_0000,
    ensures
        nearest_mag((f1 * pow2(e1)) * pow2(UNIT_EXP as nat), f2 * pow2(e2)) == nearest_mag(
            (if r > 0 { 2 * q + 1 } else { 2 * q }) * pow2(e1 + UNIT_EXP as nat),
            pow2(e2 + 73 + s),
        ),
{
    let up = e1 + UNIT_EXP as nat;
    let down = e2 + 73 + s;
    let n = (f1 * pow2(e1)) * pow2(UNIT_EXP as nat);
    let d = f2 * pow2(e2);
    let j: nat = if r > 0 { 2 * q + 1 } else { 2 * q };
    let c = pow2(73 + s);
    let pu = pow2(up);
    let pd = pow2(down);
    lemma_pow2_pos(e2);
    lemma_pow2_pos(73 + s);
    lemma_pow2_pos(up);
    lemma_pow2_pos(down);
    lemma_pow2_adds(e1, UNIT_EXP as nat);
    lemma_pow2_adds(e2, 73 + s);
    lemma_pow2_adds(1, 72 + s);
    lemma_pow2_53();
    assert(d > 0) by (nonlinear_arith)
        requires
            d == f2 * pow2(e2),
            f2 > 0,
            pow2(e2) > 0,
    ;
    lemma_nearest_scale(n, d, c);
    let n1 = n * c;
    let dd = d * c;
    assert(dd == f2 * pd) by (nonlinear_arith)
        requires
            dd == d * c,
            d == f2 * pow2(e2),
            pd == pow2(e2) * c,
    ;
    assert(dd == pd * f2) by (nonlinear_arith)
        requires
            dd == f2 * pd,
    ;
    let t = f1 * pow2(72 + s);
    assert(n1 == (2 * t) * pu) by (nonlinear_arith)
        requires
            n1 == n * c,
            n == (f1 * pow2(e1)) * pow2(UNIT_EXP as nat),
            pu == pow2(e1) * pow2(UNIT_EXP as nat),
            c == 2 * pow2(72 + s),
            t == f1 * pow2(72 + s),
    ;
    lemma_nearest_scale(j * pu, pd, f2);
    let n2 = (j * pu) * f2;
    if r == 0 {
        assert(n1 == n2) by (nonlinear_arith)
            requires
                n1 == (2 * t) * pu,
                t == f2 * q,
                n2 == ((2 * q) * pu) * f2,
        ;
    } else {
        let w = 2 * (f2 * pu);
        assert(w > 0) by (nonlinear_arith)
            requires
                w == 2 * (f2 * pu),
                f2 > 0,
                pu > 0,
        ;
        let r1 = 2 * (r * pu);
        let r2 = f2 * pu;
        assert(n1 == q * w + r1) by (nonlinear_arith)
            requires
                n1 == (2 * t) * pu,
                t == f2 * q + r,
                w == 2 * (f2 * pu),
                r1 == 2 * (r * pu),
        ;
        assert(0 < r1 < w) by (nonlinear_arith)
            requires
                r1 == 2 * (r * pu),
                w == 2 * (f2 * pu),
                0 < r < f2,
                pu > 0,
        ;
        assert(n2 == q * w + r2) by (nonlinear_arith)
            requires
                n2 == ((2 * q + 1) * pu) * f2,
                w == 2 * (f2 * pu),
                r2 == f2 * pu,
        ;
        lemma_div_even_by(n1, w, q, r1);
        lemma_div_even_by(n2, w, q, r2);
        let k = binade(n1, dd);
        assert(dd > 0) by (nonlinear_arith)
            requires
                dd == d * c,
                d > 0,
                c > 0,
        ;
        lemma_binade_bounds(n1, dd);
        // 2^71 * w <= n1 < 2^(k + 53) * dd
        lemma_pow2_adds(down, k + 53);
        let pk = pow2(k + 53);
        let pdk = pow2(down + (k + 53));
        vstd::arithmetic::power2::lemma2_to64();
        vstd::arithmetic::power2::lemma2_to64_rest();
        lemma_pow2_adds(64, 8);
        lemma_pow2_adds(72, up);
        let p72 = pow2(72);
        assert(p72 * pu < pdk) by (nonlinear_arith)
            requires
                n1 < dd * pk,
                dd == f2 * pd,
                pdk == pd * pk,
                n1 >= q * w,
                w == 2 * (f2 * pu),
                2 * q >= p72,
                f2 > 0,
                pu > 0,
        ;
        assert(72 + up < down + k + 53) by {
            if 72 + up >= down + k + 53 {
                if 72 + up > down + k + 53 {
                    lemma_pow2_strictly_increases((down + k + 53) as nat, (72 + up) as nat);
                }
                assert(false);
            }
        }
        let xe = (down + k - up - 2) as nat;
        let x = pow2(xe);
        lemma_pow2_adds(up, xe);
        lemma_pow2_adds(2, (up + xe) as nat);
        lemma_pow2_adds(down, k);
        vstd::arithmetic::power2::lemma2_to64();
        assert(dd * pow2(k) == 2 * (w * x)) by (nonlinear_arith)
            requires
                dd == f2 * pd,
                w == 2 * (f2 * pu),
                pd * pow2(k) == 4 * (pu * x),
        ;
        lemma_same_cell(n1, n2, dd, w, x);
    }
}

} // verus!
