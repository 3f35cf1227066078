//! Rounding of an exact quotient to the nearest binary64 magnitude.
//!
//! A magnitude is the bit pattern of a non-negative binary64 number read as a natural
//! number. It counts the numbers below it, so the order of magnitudes is the order of the
//! numbers. Values are measured in units of the smallest positive binary64 number, two to
//! the power of minus `UNIT_EXP`: every finite binary64 number is a whole number of units.

use vstd::arithmetic::div_mod::lemma_fundamental_div_mod;
use vstd::arithmetic::div_mod::lemma_fundamental_div_mod_converse;
use vstd::arithmetic::mul::lemma_mul_inequality;
use vstd::arithmetic::mul::lemma_mul_is_associative;
use vstd::arithmetic::mul::lemma_mul_is_commutative;
use vstd::arithmetic::mul::lemma_mul_strict_inequality;
use vstd::arithmetic::power2::lemma2_to64;
use vstd::arithmetic::power2::lemma2_to64_rest;
use vstd::arithmetic::power2::lemma_pow2_adds;
use vstd::arithmetic::power2::lemma_pow2_pos;
use vstd::arithmetic::power2::lemma_pow2_strictly_increases;
use vstd::arithmetic::power2::pow2;
use vstd::prelude::*;

verus! {

/// The number one is two to this power units.
pub const UNIT_EXP: u32 = 1074;

/// Two to the power of 52: the first normal magnitude, and the step of one binade.
pub const BINADE: u64 = 0x0010_0000_0000_0000;

/// The magnitude of infinity.
pub const INF_MAG: u64 = 0x7ff0_0000_0000_0000;

/// How many times the precision of the smallest numbers has to be halved so that `n / d`
/// units fit into 53 bits.
pub open spec fn binade(n: nat, d: nat) -> nat
    decreases n - d,
    when d > 0
{
    if n < d * 0x20_0000_0000_0000 {
        0
    } else {
        1 + binade(n, 2 * d)
    }
}

/// The whole number nearest to `n / m`; of two equally near ones, the even one.
pub open spec fn div_even(n: nat, m: nat) -> nat {
    let q = n / m;
    let r = n % m;
    if 2 * r < m || (2 * r == m && q % 2 == 0) {
        q
    } else {
        q + 1
    }
}

/// The magnitude nearest to `n / d` units, ties to even, infinite past the largest number.
pub open spec fn nearest_mag(n: nat, d: nat) -> nat {
    let k = binade(n, d);
    let b = k * BINADE as nat + div_even(n, d * pow2(k));
    if b < INF_MAG {
        b
    } else {
        INF_MAG as nat
    }
}

/// The value of a finite magnitude in units.
pub open spec fn mag_units(b: nat) -> nat {
    if b < BINADE {
        b
    } else {
        (BINADE as nat + b % (BINADE as nat)) * pow2((b / (BINADE as nat) - 1) as nat)
    }
}

pub proof fn lemma_pow2_53()
    ensures
        pow2(0) == 1,
        pow2(1) == 2,
        pow2(11) == 0x800,
        pow2(12) == 0x1000,
        pow2(51) == 0x8_0000_0000_0000,
        pow2(52) == 0x10_0000_0000_0000,
        pow2(53) == 0x20_0000_0000_0000,
        pow2(54) == 0x40_0000_0000_0000,
{
    lemma2_to64();
    lemma2_to64_rest();
}

/// The binade is the only count that leaves 52 to 53 bits, or none when 53 bits suffice.
pub proof fn lemma_binade(n: nat, d: nat, k: nat)
    requires
        d > 0,
        n < d * pow2(k + 53),
        k > 0 ==> n >= d * pow2((k + 52) as nat),
    ensures
        binade(n, d) == k,
    decreases k,
{
    lemma_pow2_53();
    if k > 0 {
        lemma_pow2_adds(1, (k + 52) as nat);
        lemma_pow2_adds(1, (k + 51) as nat);
        assert(d * pow2((k + 53) as nat) == (2 * d) * pow2((k + 52) as nat)) by (nonlinear_arith)
            requires
                pow2((k + 53) as nat) == 2 * pow2((k + 52) as nat),
        ;
        assert(d * pow2((k + 52) as nat) == (2 * d) * pow2((k + 51) as nat)) by (nonlinear_arith)
            requires
                pow2((k + 52) as nat) == 2 * pow2((k + 51) as nat),
        ;
        if k > 1 {
            lemma_pow2_strictly_increases(53, (k + 52) as nat);
        }
        lemma_mul_inequality(pow2(53) as int, pow2((k + 52) as nat) as int, d as int);
        lemma_mul_is_commutative(d as int, pow2(53) as int);
        lemma_mul_is_commutative(d as int, pow2((k + 52) as nat) as int);
        assert(n >= d * 0x20_0000_0000_0000);
        lemma_binade(n, 2 * d, (k - 1) as nat);
    }
}

/// What `lemma_binade` asks for holds of the binade itself.
pub proof fn lemma_binade_bounds(n: nat, d: nat)
    requires
        d > 0,
    ensures
        n < d * pow2(binade(n, d) + 53),
        binade(n, d) > 0 ==> n >= d * pow2((binade(n, d) + 52) as nat),
    decreases n - d,
{
    lemma_pow2_53();
    if n >= d * 0x20_0000_0000_0000 {
        let k1 = binade(n, 2 * d);
        lemma_binade_bounds(n, 2 * d);
        lemma_pow2_adds(1, (k1 + 53) as nat);
        lemma_pow2_adds(1, (k1 + 52) as nat);
        assert(d * pow2((k1 + 54) as nat) == (2 * d) * pow2((k1 + 53) as nat)) by (nonlinear_arith)
            requires
                pow2((k1 + 54) as nat) == 2 * pow2((k1 + 53) as nat),
        ;
        assert(d * pow2((k1 + 53) as nat) == (2 * d) * pow2((k1 + 52) as nat)) by (nonlinear_arith)
            requires
                pow2((k1 + 53) as nat) == 2 * pow2((k1 + 52) as nat),
        ;
    }
}

/// A quotient is rounded by its value alone.
pub proof fn lemma_div_even_scale(n: nat, m: nat, c: nat)
    requires
        m > 0,
        c > 0,
    ensures
        div_even(n * c, m * c) == div_even(n, m),
{
    let q = n / m;
    let r = n % m;
    lemma_fundamental_div_mod(n as int, m as int);
    assert(n * c == q * (m * c) + r * c && 0 <= r * c < m * c && m * c > 0) by (nonlinear_arith)
        requires
            n == m * q + r,
            0 <= r < m,
            c > 0,
    ;
    lemma_fundamental_div_mod_converse((n * c) as int, (m * c) as int, q as int, (r * c) as int);
    assert((2 * (r * c) < m * c) == (2 * r < m) && (2 * (r * c) == m * c) == (2 * r == m)) by (nonlinear_arith)
        requires
            c > 0,
    ;
}

/// The quotient and remainder decide the rounding.
pub proof fn lemma_div_even_by(n: nat, m: nat, q: nat, r: nat)
    requires
        m > 0,
        n == q * m + r,
        r < m,
    ensures
        n / m == q,
        n % m == r,
{
    lemma_fundamental_div_mod_converse(n as int, m as int, q as int, r as int);
}

/// Numerator and denominator may be scaled alike.
pub proof fn lemma_nearest_scale(n: nat, d: nat, c: nat)
    requires
        d > 0,
        c > 0,
    ensures
        nearest_mag(n * c, d * c) == nearest_mag(n, d),
{
    let k = binade(n, d);
    lemma_binade_bounds(n, d);
    let p53 = pow2(k + 53);
    assert(n * c < (d * c) * p53 && d * c > 0) by (nonlinear_arith)
        requires
            n < d * p53,
            c > 0,
            d > 0,
    ;
    if k > 0 {
        let p52 = pow2((k + 52) as nat);
        assert(n * c >= (d * c) * p52) by (nonlinear_arith)
            requires
                n >= d * p52,
                c > 0,
        ;
    }
    lemma_binade(n * c, d * c, k);
    let p = pow2(k);
    lemma_pow2_pos(k);
    assert((d * c) * p == (d * p) * c && d * p > 0) by (nonlinear_arith)
        requires
            d > 0,
            p > 0,
    ;
    lemma_div_even_scale(n, d * p, c);
}

/// Two to the power of `t`.
pub fn power_of_two(t: u32) -> (p: u128)
    requires
        t < 128,
    ensures
        p == pow2(t as nat),
{
    let mut p: u128 = 1;
    let mut i: u32 = 0;
    proof {
        lemma_pow2_53();
    }
    while i < t
        invariant
            i <= t < 128,
            p == pow2(i as nat),
        decreases t - i,
    {
        proof {
            lemma_pow2_adds(1, i as nat);
            lemma_pow2_53();
            lemma_pow2_below_128((i + 1) as nat);
        }
        p = p * 2;
        i = i + 1;
    }
    p
}

proof fn lemma_pow2_below_128(e: nat)
    requires
        e < 128,
    ensures
        0 < pow2(e) <= 0x8000_0000_0000_0000_0000_0000_0000_0000,
{
    lemma2_to64();
    lemma2_to64_rest();
    lemma_pow2_adds(64, 63);
    lemma_pow2_pos(e);
    if e < 127 {
        lemma_pow2_strictly_increases(e, 127);
    }
}

/// The number of bits of `j`.
fn bit_len(j: u128) -> (len: u32)
    requires
        0 < j < 0x8000_0000_0000_0000_0000_0000_0000_0000,
    ensures
        1 <= len <= 127,
        pow2((len - 1) as nat) <= j < pow2(len as nat),
{
    let mut len: u32 = 1;
    let mut p: u128 = 2;
    proof {
        lemma_pow2_53();
    }
    while p <= j
        invariant
            1 <= len <= 127,
            p == pow2(len as nat),
            pow2((len - 1) as nat) <= j < 0x8000_0000_0000_0000_0000_0000_0000_0000,
        decreases 128 - len,
    {
        proof {
            lemma_pow2_adds(1, len as nat);
            lemma_pow2_53();
            lemma2_to64();
            lemma2_to64_rest();
            lemma_pow2_adds(64, 63);
        }
        p = p * 2;
        len = len + 1;
    }
    len
}

/// The magnitude nearest to `j` times two to the power of `up - down` units.
pub fn round_mag(j: u128, up: u32, down: u32) -> (b: u64)
    requires
        0 < j < 0x8000_0000_0000_0000_0000_0000_0000_0000,
        up <= 10_000,
        down <= 10_000,
    ensures
        b == nearest_mag(j as nat * pow2(up as nat), pow2(down as nat)),
        b <= INF_MAG,
{
    let len: u32 = bit_len(j);
    let hi: u32 = len + up;
    let lo: u32 = down + 53;
    let k: u32 = if hi > lo { hi - lo } else { 0 };
    let ghost n = j as nat * pow2(up as nat);
    let ghost d = pow2(down as nat);
    proof {
        lemma_binade_of_length(j as nat, up as nat, down as nat, len as nat, k as nat);
    }
    if k > 2046 {
        assert(k * BINADE >= INF_MAG) by (nonlinear_arith)
            requires
                k >= 2047,
                BINADE == 0x0010_0000_0000_0000,
                INF_MAG == 0x7ff0_0000_0000_0000,
        ;
        return INF_MAG;
    }
    let dk: u32 = down + k;
    let q: u64 = round_quotient(j, up, dk, len);
    proof {
        lemma_pow2_adds(down as nat, k as nat);
        assert(k * BINADE <= 2046 * BINADE) by (nonlinear_arith)
            requires
                k <= 2046,
        ;
    }
    let b: u64 = k as u64 * BINADE + q;
    if b < INF_MAG {
        b
    } else {
        INF_MAG
    }
}

/// The binade of `j` times two to the power of `up - down`, read off the length of `j`.
proof fn lemma_binade_of_length(j: nat, up: nat, down: nat, len: nat, k: nat)
    requires
        len >= 1,
        pow2((len - 1) as nat) <= j < pow2(len),
        k == (if len + up > down + 53 { len + up - (down + 53) } else { 0int }),
    ensures
        binade(j * pow2(up), pow2(down)) == k,
        pow2(down) > 0,
        j * pow2(up) < pow2((down + k + 53) as nat),
{
    let n = j * pow2(up);
    let d = pow2(down);
    lemma_pow2_pos(down);
    lemma_pow2_pos(up);
    lemma_pow2_adds(len, up);
    lemma_pow2_adds((len - 1) as nat, up);
    lemma_pow2_adds(down, (k + 53) as nat);
    lemma_mul_strict_inequality(j as int, pow2(len) as int, pow2(up) as int);
    lemma_mul_inequality(pow2((len - 1) as nat) as int, j as int, pow2(up) as int);
    assert(pow2((len - 1 + up) as nat) <= n < pow2((len + up) as nat));
    if len + up < down + k + 53 {
        lemma_pow2_strictly_increases((len + up) as nat, (down + k + 53) as nat);
    }
    if k > 0 {
        lemma_pow2_adds(down, (k + 52) as nat);
        assert(len - 1 + up == down + k + 52);
    }
    lemma_binade(n, d, k);
}

/// `j` times two to the power of `up - dk`, rounded to the nearest whole number.
fn round_quotient(j: u128, up: u32, dk: u32, len: u32) -> (q: u64)
    requires
        0 < j < 0x8000_0000_0000_0000_0000_0000_0000_0000,
        1 <= len <= 127,
        pow2((len - 1) as nat) <= j < pow2(len as nat),
        up <= 10_000,
        dk <= 13_000,
        j as nat * pow2(up as nat) < pow2((dk + 53) as nat),
    ensures
        q == div_even(j as nat * pow2(up as nat), pow2(dk as nat)),
        q <= 0x20_0000_0000_0000,
{
    proof {
        lemma_pow2_53();
        lemma_pow2_pos(up as nat);
        lemma_pow2_pos(dk as nat);
        lemma_pow2_adds(53, dk as nat);
        lemma_div_even_at_most(j as nat * pow2(up as nat), pow2(dk as nat), pow2(53));
    }
    if up >= dk {
        let s: u32 = up - dk;
        proof {
            lemma_pow2_adds(s as nat, dk as nat);
            lemma_mul_is_associative(j as int, pow2(s as nat) as int, pow2(dk as nat) as int);
            lemma_div_even_scale(j as nat * pow2(s as nat), 1, pow2(dk as nat));
            lemma_pow2_pos(s as nat);
            // The product stays below 2^53, and so does the power of two.
            assert(j * pow2(s as nat) < pow2(53)) by (nonlinear_arith)
                requires
                    (j * pow2(s as nat)) * pow2(dk as nat) < pow2(53) * pow2(dk as nat),
                    pow2(dk as nat) > 0,
            ;
            assert(pow2(s as nat) <= j * pow2(s as nat)) by (nonlinear_arith)
                requires
                    j >= 1,
                    pow2(s as nat) > 0,
            ;
            if s >= 53 {
                if s > 53 {
                    lemma_pow2_strictly_increases(53, s as nat);
                }
                assert(false);
            }
        }
        let p: u128 = power_of_two(s);
        let q: u128 = j * p;
        q as u64
    } else {
        let t: u32 = dk - up;
        proof {
            lemma_pow2_adds(t as nat, up as nat);
            lemma_pow2_pos(t as nat);
            lemma_div_even_scale(j as nat, pow2(t as nat), pow2(up as nat));
        }
        let q: u128 = div_even_pow2(j, t);
        q as u64
    }
}

/// `j` over two to the power of `t`, rounded to the nearest whole number.
pub fn div_even_pow2(j: u128, t: u32) -> (q: u128)
    requires
        0 < t,
        j < 0x8000_0000_0000_0000_0000_0000_0000_0000,
    ensures
        q == div_even(j as nat, pow2(t as nat)),
{
    proof {
        lemma_pow2_pos(t as nat);
    }
    if t > 127 {
        proof {
            lemma_pow2_below_128(127);
            lemma2_to64();
            lemma2_to64_rest();
            lemma_pow2_adds(64, 64);
            if t > 128 {
                lemma_pow2_strictly_increases(128, t as nat);
            }
            lemma_div_even_by(j as nat, pow2(t as nat), 0, j as nat);
        }
        0
    } else {
        let p: u128 = power_of_two(t);
        let half: u128 = power_of_two(t - 1);
        proof {
            lemma_pow2_adds(1, (t - 1) as nat);
            lemma_pow2_53();
        }
        let q: u128 = j / p;
        let r: u128 = j % p;
        if r < half || (r == half && q % 2 == 0) {
            q
        } else {
            q + 1
        }
    }
}

/// Rounding does not pass a whole bound.
pub proof fn lemma_div_even_at_most(n: nat, m: nat, c: nat)
    requires
        m > 0,
        n <= c * m,
    ensures
        div_even(n, m) <= c,
{
    let q = n / m;
    let r = n % m;
    lemma_fundamental_div_mod(n as int, m as int);
    assert(q < c || (q == c && r == 0)) by (nonlinear_arith)
        requires
            n == m * q + r,
            0 <= r < m,
            n <= c * m,
    ;
}

/// Two quotients that lie strictly inside the same cell of width `w` round alike, when the
/// cells are at least four to a step of the result.
pub proof fn lemma_same_cell(n1: nat, n2: nat, d: nat, w: nat, x: nat)
    requires
        d > 0,
        w > 0,
        n1 / w == n2 / w,
        n1 % w > 0,
        n2 % w > 0,
        d * pow2(binade(n1, d)) == 2 * (w * x),
    ensures
        nearest_mag(n1, d) == nearest_mag(n2, d),
{
    let a = n1 / w;
    let k = binade(n1, d);
    let m = d * pow2(k);
    lemma_binade_bounds(n1, d);
    lemma_pow2_pos(k);
    lemma_fundamental_div_mod(n1 as int, w as int);
    lemma_fundamental_div_mod(n2 as int, w as int);
    assert(w * (a + 1) == w * a + w) by (nonlinear_arith);
    lemma_pow2_adds(k, 53);
    lemma_pow2_53();
    let p53 = pow2(53);
    assert(m > 0) by (nonlinear_arith)
        requires
            m == d * pow2(k),
            d > 0,
            pow2(k) > 0,
    ;
    assert(d * pow2(k + 53) == m * p53) by (nonlinear_arith)
        requires
            pow2(k + 53) == pow2(k) * p53,
            m == d * pow2(k),
    ;
    // The upper end of the binade is a multiple of the cell.
    assert(a + 1 <= 2 * x * p53) by (nonlinear_arith)
        requires
            w * a <= n1,
            n1 < m * p53,
            m == 2 * (w * x),
            w > 0,
    ;
    assert(n2 < m * p53) by (nonlinear_arith)
        requires
            n2 < w * (a + 1),
            a + 1 <= 2 * x * p53,
            m == 2 * (w * x),
            w > 0,
    ;
    if k > 0 {
        let p52 = pow2(52);
        lemma_pow2_adds(k, 52);
        assert(d * pow2((k + 52) as nat) == m * p52) by (nonlinear_arith)
            requires
                pow2((k + 52) as nat) == pow2(k) * p52,
                m == d * pow2(k),
        ;
        assert(a >= 2 * x * p52) by (nonlinear_arith)
            requires
                n1 < w * (a + 1),
                n1 >= m * p52,
                m == 2 * (w * x),
                w > 0,
        ;
        assert(n2 >= m * p52) by (nonlinear_arith)
            requires
                n2 >= w * a,
                a >= 2 * x * p52,
                m == 2 * (w * x),
                w > 0,
        ;
    }
    lemma_binade(n2, d, k);
    let q = n1 / m;
    let r = n1 % m;
    lemma_fundamental_div_mod(n1 as int, m as int);
    assert(m * (q + 1) == m * q + m) by (nonlinear_arith);
    // The quotient, and the side of the midpoint, are those of the cell.
    assert(a >= 2 * x * q) by (nonlinear_arith)
        requires
            n1 < w * (a + 1),
            n1 >= m * q,
            m == 2 * (w * x),
            w > 0,
    ;
    assert(a + 1 <= 2 * x * (q + 1)) by (nonlinear_arith)
        requires
            n1 >= w * a,
            n1 < m * (q + 1),
            m == 2 * (w * x),
            w > 0,
    ;
    assert(m * q <= n2 < m * (q + 1)) by (nonlinear_arith)
        requires
            w * a <= n2 < w * (a + 1),
            a >= 2 * x * q,
            a + 1 <= 2 * x * (q + 1),
            m == 2 * (w * x),
            w > 0,
    ;
    let r2 = (n2 - m * q) as nat;
    lemma_mul_is_commutative(m as int, q as int);
    lemma_div_even_by(n2, m, q, r2);
    let half = 2 * x * q + x;
    assert(w * half == m * q + w * x) by (nonlinear_arith)
        requires
            half == 2 * x * q + x,
            m == 2 * (w * x),
    ;
    if a < half {
        assert(w * (a + 1) <= w * half) by (nonlinear_arith)
            requires
                a + 1 <= half,
                w > 0,
        ;
    } else {
        assert(w * a >= w * half) by (nonlinear_arith)
            requires
                a >= half,
                w > 0,
        ;
    }
}

} // verus!
