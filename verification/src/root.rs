//! Square roots of binary64 numbers.

use crate::number::nan;
use crate::number::signed;
use crate::number::Real;
use crate::number::NAN_BITS;
use crate::rounding::binade;
use crate::rounding::lemma_binade_bounds;
use crate::rounding::lemma_div_even_by;
use crate::rounding::lemma_nearest_scale;
use crate::rounding::lemma_pow2_53;
use crate::rounding::lemma_same_cell;
use crate::rounding::mag_units;
use crate::rounding::nearest_mag;
use crate::rounding::round_mag;
use crate::rounding::INF_MAG;
use crate::rounding::UNIT_EXP;
use vstd::arithmetic::power2::lemma2_to64;
use vstd::arithmetic::power2::lemma2_to64_rest;
use vstd::arithmetic::power2::lemma_pow2_adds;
use vstd::arithmetic::power2::lemma_pow2_pos;
use vstd::arithmetic::power2::lemma_pow2_strictly_increases;
use vstd::arithmetic::power2::pow2;
use vstd::prelude::*;

verus! {

/// Whether `r` is the whole part of the square root of `n`.
pub open spec fn is_root(r: nat, n: nat) -> bool {
    r * r <= n < (r + 1) * (r + 1)
}

/// The whole part of the square root.
pub open spec fn whole_root(n: nat) -> nat {
    choose|r: nat| is_root(r, n)
}

/// The magnitude nearest to the square root of `n`, a count of units.
///
/// The root is taken in half units. When it is not whole, a quarter unit is added to it:
/// that point lies between the same two half units as the root, and rounds like it.
pub open spec fn nearest_root(n: nat) -> nat {
    let r = whole_root(4 * n);
    if r * r == 4 * n {
        nearest_mag(2 * r, 4)
    } else {
        nearest_mag(2 * r + 1, 4)
    }
}

pub proof fn lemma_whole_root(r: nat, n: nat)
    requires
        is_root(r, n),
    ensures
        whole_root(n) == r,
{
    let s = whole_root(n);
    assert(is_root(s, n));
    if s < r {
        assert((s + 1) * (s + 1) <= r * r) by (nonlinear_arith)
            requires
                s + 1 <= r,
        ;
    } else if r < s {
        assert((r + 1) * (r + 1) <= s * s) by (nonlinear_arith)
            requires
                r + 1 <= s,
        ;
    }
}

/// The whole part of the square root.
fn root_of(g: u128) -> (r: u64)
    ensures
        is_root(r as nat, g as nat),
{
    let mut r: u64 = 0;
    let mut b: u64 = 0x8000_0000_0000_0000;
    let mut i: u32 = 64;
    proof {
        lemma2_to64();
        lemma2_to64_rest();
        assert(pow2(64) * pow2(64) == 0x1_0000_0000_0000_0000_0000_0000_0000_0000);
    }
    while i > 0
        invariant
            i <= 64,
            i > 0 ==> b == pow2((i - 1) as nat),
            r * r <= g,
            g < (r + pow2(i as nat)) * (r + pow2(i as nat)),
            r + pow2(i as nat) <= 0x1_0000_0000_0000_0000,
        decreases i,
    {
        proof {
            lemma_pow2_adds(1, (i - 1) as nat);
            lemma2_to64();
            lemma_pow2_pos((i - 1) as nat);
        }
        let c: u64 = r + b;
        proof {
            assert(c * c <= 0xffff_ffff_ffff_ffff * 0xffff_ffff_ffff_ffff) by (nonlinear_arith)
                requires
                    0 <= c <= 0xffff_ffff_ffff_ffff,
            ;
        }
        if c as u128 * c as u128 <= g {
            r = c;
        }
        i = i - 1;
        if i > 0 {
            proof {
                lemma_pow2_adds(1, (i - 1) as nat);
            }
            b = b / 2;
        }
    }
    proof {
        lemma2_to64();
    }
    r
}

impl Real {
    #[verifier::opaque]
    pub open spec fn spec_sqrt(self) -> Real {
        if !self.is_number() {
            nan()
        } else if self.zero() {
            self
        } else if self.neg() {
            nan()
        } else if self.infinite() {
            self
        } else {
            signed(false, nearest_root(mag_units(self.mag()) * pow2(UNIT_EXP as nat)))
        }
    }

    /// The square root.
    #[verifier::when_used_as_spec(spec_sqrt)]
    pub fn sqrt(self) -> (r: Real)
        ensures
            r == self.spec_sqrt(),
    {
        proof {
            reveal(Real::spec_sqrt);
        }
        let (n, m) = self.sign_and_mag();
        if m > INF_MAG {
            return Real { bits: NAN_BITS };
        }
        if m == 0 {
            return self;
        }
        if n {
            return Real { bits: NAN_BITS };
        }
        if m == INF_MAG {
            return self;
        }
        let (f, e) = crate::number::unpack(m);
        let b: u64 = root_unpacked(f, e);
        Real::make(false, b)
    }
}

/// The magnitude nearest to the root of an unpacked number.
fn root_unpacked(f: u64, e: u32) -> (b: u64)
    requires
        0 < f < 0x20_0000_0000_0000,
        e <= 2045,
    ensures
        b == nearest_root((f as nat * pow2(e as nat)) * pow2(UNIT_EXP as nat)),
        b <= INF_MAG,
{
    let ghost n = (f as nat * pow2(e as nat)) * pow2(UNIT_EXP as nat);
    let odd: bool = e % 2 == 1;
    let mut h: u32 = (e + UNIT_EXP) / 2;
    let mut g: u128 = if odd { f as u128 * 2 } else { f as u128 };
    proof {
        lemma2_to64();
        lemma2_to64_rest();
        lemma_pow2_adds(e as nat, UNIT_EXP as nat);
        lemma_pow2_adds(1, (2 * h) as nat);
        assert(n == f * pow2((e + UNIT_EXP) as nat)) by (nonlinear_arith)
            requires
                n == (f * pow2(e as nat)) * pow2(UNIT_EXP as nat),
                pow2((e + UNIT_EXP) as nat) == pow2(e as nat) * pow2(UNIT_EXP as nat),
        ;
        assert(odd ==> (f * 2) * pow2((2 * h) as nat) == f * (2 * pow2((2 * h) as nat))) by (nonlinear_arith);
        assert(n == g * pow2((2 * h) as nat));
    }
    let ghost mut steps: nat = 0;
    while g < 0x400_0000_0000_0000_0000_0000_0000_0000
        invariant
            0 < g < 0x1000_0000_0000_0000_0000_0000_0000_0000,
            n == g * pow2((2 * h) as nat),
            h <= 1560,
            h + steps >= 537,
            pow2(2 * steps) <= g,
        decreases 0x1000_0000_0000_0000_0000_0000_0000_0000 - g,
    {
        proof {
            lemma2_to64();
            lemma2_to64_rest();
            lemma_pow2_adds(2, 2 * steps);
            assert(pow2(2) == 4);
            lemma_pow2_adds(64, 58);
            if steps >= 62 {
                if 2 * steps > 122 {
                    lemma_pow2_strictly_increases(122, 2 * steps);
                }
                assert(false);
            }
            lemma_pow2_adds(2, (2 * h - 2) as nat);
            assert((g * 4) * pow2((2 * h - 2) as nat) == g * (4 * pow2((2 * h - 2) as nat))) by (nonlinear_arith);
            steps = steps + 1;
        }
        g = g * 4;
        h = h - 1;
    }
    let r: u64 = root_of(g);
    proof {
        assert(r >= 0x2000_0000_0000_0000) by (nonlinear_arith)
            requires
                g < (r + 1) * (r + 1),
                g >= 0x400_0000_0000_0000_0000_0000_0000_0000,
                r >= 0,
        ;
        assert(r < 0x4000_0000_0000_0000) by (nonlinear_arith)
            requires
                r * r <= g,
                g < 0x1000_0000_0000_0000_0000_0000_0000_0000,
        ;
    }
    let exact: bool = r as u128 * r as u128 == g;
    let j: u128 = if exact { r as u128 * 2 } else { r as u128 * 2 + 1 };
    let b: u64 = round_mag(j, h, 1);
    proof {
        lemma_root(n, g as nat, h as nat, r as nat);
    }
    b
}

/// The root of a number rounds by its first 62 bits and by whether anything is left over.
proof fn lemma_root(n: nat, g: nat, h: nat, r: nat)
    requires
        n == g * pow2(2 * h),
        is_root(r, g),
        r >= 0x2000_0000_0000_0000,
    ensures
        nearest_root(n) == nearest_mag((if r * r == g { 2 * r } else { 2 * r + 1 }) * pow2(h), pow2(1)),
{
    let p = pow2(h + 1);
    let j: nat = if r * r == g { 2 * r } else { 2 * r + 1 };
    let big = 4 * n;
    lemma_pow2_53();
    lemma_pow2_pos(h);
    lemma_pow2_adds(1, h);
    lemma_pow2_adds(h + 1, h + 1);
    lemma_pow2_adds(2, 2 * h);
    lemma2_to64();
    assert(h + 1 + (h + 1) == 2 + 2 * h);
    assert(p * p == 4 * pow2(2 * h));
    lemma_pow2_pos(2 * h);
    assert(big == g * (p * p)) by (nonlinear_arith)
        requires
            big == 4 * n,
            n == g * pow2(2 * h),
            p * p == 4 * pow2(2 * h),
    ;
    // The root of 4n lies in the cell of r.
    let s = whole_root(big);
    lemma_root_exists(big);
    assert(is_root(s, big));
    let lo = r * p;
    let up = (r + 1) * p;
    assert(lo * lo == (r * r) * (p * p)) by (nonlinear_arith)
        requires
            lo == r * p,
    ;
    assert(up * up == ((r + 1) * (r + 1)) * (p * p)) by (nonlinear_arith)
        requires
            up == (r + 1) * p,
    ;
    assert(lo * lo <= big) by (nonlinear_arith)
        requires
            lo * lo == (r * r) * (p * p),
            r * r <= g,
            big == g * (p * p),
            p * p >= 0,
    ;
    assert(big < up * up) by (nonlinear_arith)
        requires
            up * up == ((r + 1) * (r + 1)) * (p * p),
            g < (r + 1) * (r + 1),
            big == g * (p * p),
            p * p > 0,
    ;
    assert(s >= lo) by (nonlinear_arith)
        requires
            lo * lo <= big,
            big < (s + 1) * (s + 1),
            s >= 0,
            lo >= 0,
    ;
    assert(s < up) by (nonlinear_arith)
        requires
            big < up * up,
            s * s <= big,
            s >= 0,
            up >= 0,
    ;
    let n1: nat = if s * s == big { 2 * s } else { 2 * s + 1 };
    let n2 = j * p;
    lemma_nearest_scale(j * pow2(h), pow2(1), 2);
    assert((j * pow2(h)) * 2 == n2) by (nonlinear_arith)
        requires
            n2 == j * p,
            p == 2 * pow2(h),
    ;
    assert(up == lo + p) by (nonlinear_arith)
        requires
            up == (r + 1) * p,
            lo == r * p,
    ;
    if r * r == g {
        assert((lo + 1) * (lo + 1) > big) by (nonlinear_arith)
            requires
                lo * lo == big,
                lo >= 0,
        ;
        lemma_whole_root(lo, big);
        assert(2 * lo == n2) by (nonlinear_arith)
            requires
                lo == r * p,
                n2 == (2 * r) * p,
        ;
    } else {
        let w = 2 * p;
        assert(lo * lo < big) by (nonlinear_arith)
            requires
                lo * lo == (r * r) * (p * p),
                r * r < g,
                big == g * (p * p),
                p * p > 0,
        ;
        let r1 = (n1 - 2 * lo) as nat;
        assert(0 < r1 < w);
        assert(r * w == 2 * lo) by (nonlinear_arith)
            requires
                w == 2 * p,
                lo == r * p,
        ;
        assert(n2 == r * w + p) by (nonlinear_arith)
            requires
                w == 2 * p,
                n2 == (2 * r + 1) * p,
        ;
        lemma_div_even_by(n1, w, r, r1);
        lemma_div_even_by(n2, w, r, p);
        let k = binade(n1, 4);
        lemma_binade_bounds(n1, 4);
        lemma_pow2_adds(2, k + 53);
        lemma_pow2_adds(62, h + 1);
        lemma2_to64_rest();
        assert(n1 >= pow2(62) * p) by (nonlinear_arith)
            requires
                n1 >= 2 * lo,
                lo == r * p,
                2 * r >= pow2(62),
                p >= 0,
        ;
        assert(62 + h + 1 < k + 55) by {
            if 62 + h + 1 >= k + 55 {
                if 62 + h + 1 > k + 55 {
                    lemma_pow2_strictly_increases((k + 55) as nat, (62 + h + 1) as nat);
                }
                assert(false);
            }
        }
        let xe = (k - h - 1) as nat;
        let x = pow2(xe);
        lemma_pow2_adds(h + 1, xe);
        assert(4 * pow2(k) == 2 * (w * x)) by (nonlinear_arith)
            requires
                w == 2 * p,
                pow2(k) == p * x,
        ;
        lemma_same_cell(n1, n2, 4, w, x);
    }
}

/// Every number has a whole root.
proof fn lemma_root_exists(n: nat)
    ensures
        is_root(whole_root(n), n),
{
    assert(n < (n + 1) * (n + 1)) by (nonlinear_arith);
    lemma_root_below(n, n + 1);
}

proof fn lemma_root_below(n: nat, b: nat)
    requires
        n < b * b,
    ensures
        exists|r: nat| is_root(r, n),
    decreases b,
{
    if b == 0 {
        assert(false) by (nonlinear_arith)
            requires
                n < b * b,
                b == 0,
        ;
    } else {
        let a = (b - 1) as nat;
        if a * a <= n {
            assert(is_root(a, n));
        } else {
            lemma_root_below(n, a);
        }
    }
}

} // verus!
