//! Numbers in decimal with a fixed count of decimals.

use crate::number::Real;
use crate::rounding::div_even;
use crate::rounding::div_even_pow2;
use crate::rounding::lemma_div_even_by;
use crate::rounding::lemma_div_even_scale;
use crate::rounding::lemma_pow2_53;
use crate::rounding::mag_units;
use crate::rounding::INF_MAG;
use crate::rounding::UNIT_EXP;
use crate::text::decimal;
use crate::text::push_digit;
use crate::text::digit_char;
use crate::text::padded;
use crate::text::push_padded;
use vstd::arithmetic::power2::lemma_pow2_adds;
use vstd::arithmetic::power2::lemma_pow2_pos;
use vstd::arithmetic::power2::pow2;
use vstd::prelude::*;
use vstd::string::*;

verus! {

/// Ten to the power of `d`.
pub open spec fn pow10(d: nat) -> nat
    decreases d,
{
    if d == 0 {
        1
    } else {
        10 * pow10((d - 1) as nat)
    }
}

/// A finite number without its sign, times ten to the power of `d`, rounded to a whole number.
pub open spec fn scaled_whole(x: Real, d: nat) -> nat {
    div_even(mag_units(x.mag()) * pow10(d), pow2(UNIT_EXP as nat))
}

/// A number in decimal with `d` decimals, rounded to the nearest, ties to even.
pub open spec fn fixed_text(x: Real, d: nat) -> Seq<char> {
    if !x.is_number() {
        "NaN"@
    } else {
        let body = if x.infinite() {
            "inf"@
        } else {
            let n = scaled_whole(x, d);
            decimal(n / pow10(d)) + "."@ + padded(n % pow10(d), d)
        };
        if x.neg() {
            "-"@ + body
        } else {
            body
        }
    }
}

/// The value of decimal digits, the lowest first.
spec fn places_value(s: Seq<u8>) -> nat
    decreases s.len(),
{
    if s.len() == 0 {
        0
    } else {
        s[0] as nat + 10 * places_value(s.skip(1))
    }
}

spec fn places(s: Seq<u8>) -> bool {
    forall|i: int| 0 <= i < s.len() ==> #[trigger] s[i] < 10
}

pub proof fn lemma_pow10_pos(d: nat)
    ensures
        pow10(d) > 0,
    decreases d,
{
    if d > 0 {
        lemma_pow10_pos((d - 1) as nat);
    }
}

proof fn lemma_places_push(s: Seq<u8>, d: u8)
    ensures
        places_value(s.push(d)) == places_value(s) + pow10(s.len()) * d as nat,
    decreases s.len(),
{
    let t = s.push(d);
    if s.len() == 0 {
        assert(t.skip(1) =~= Seq::<u8>::empty());
        assert(places_value(t.skip(1)) == 0);
        assert(pow10(0) * (d as nat) == d as nat) by (nonlinear_arith)
            requires
                pow10(0) == 1,
        ;
    } else {
        assert(t.skip(1) =~= s.skip(1).push(d));
        lemma_places_push(s.skip(1), d);
        let p = pow10((s.len() - 1) as nat);
        assert((10 * p) * (d as nat) == 10 * (p * (d as nat))) by (nonlinear_arith);
    }
}

/// The decimal digits of a number, the lowest first.
fn places_of(n: u64) -> (v: Vec<u8>)
    requires
        n > 0,
    ensures
        places(v@),
        places_value(v@) == n,
        v@.len() > 0,
        v@.last() > 0,
{
    let mut v: Vec<u8> = Vec::new();
    let mut rest: u64 = n;
    proof {
        assert(pow10(0) * (n as nat) == n as nat) by (nonlinear_arith)
            requires
                pow10(0) == 1,
        ;
    }
    while rest > 0
        invariant
            places(v@),
            places_value(v@) + pow10(v@.len()) * rest as nat == n,
            rest == 0 ==> v@.len() > 0 && v@.last() > 0,
        decreases rest,
    {
        let d: u8 = (rest % 10) as u8;
        proof {
            lemma_places_push(v@, d);
            let p = pow10(v@.len());
            let q = (rest / 10) as nat;
            assert(p * (rest as nat) == p * (d as nat) + (10 * p) * q) by (nonlinear_arith)
                requires
                    rest == 10 * q + d,
            ;
        }
        v.push(d);
        rest = rest / 10;
    }
    proof {
        assert(pow10(v@.len()) * 0 == 0);
    }
    v
}

/// The digits of twice the number.
fn doubled(v: &Vec<u8>) -> (out: Vec<u8>)
    requires
        places(v@),
        v@.len() > 0,
        v@.last() > 0,
        v@.len() < 0xffff,
    ensures
        places(out@),
        places_value(out@) == 2 * places_value(v@),
        out@.len() > 0,
        out@.last() > 0,
        out@.len() <= v@.len() + 1,
{
    let mut out: Vec<u8> = Vec::new();
    let mut carry: u8 = 0;
    let mut i: usize = 0;
    let n: usize = v.len();
    proof {
        assert(v@.skip(0) =~= v@);
        let x = 2 * places_value(v@);
        assert(pow10(0) * x == x) by (nonlinear_arith)
            requires
                pow10(0) == 1,
        ;
    }
    while i < n
        invariant
            i <= n,
            n == v@.len(),
            places(v@),
            places(out@),
            out@.len() == i,
            carry <= 1,
            n > 0,
            v@.last() > 0,
            i == n ==> carry > 0 || out@.last() > 0,
            places_value(out@) + pow10(i as nat) * (carry as nat + 2 * places_value(v@.skip(i as int))) == 2
                * places_value(v@),
        decreases n - i,
    {
        let x: u8 = 2 * v[i] + carry;
        let d: u8 = x % 10;
        let c: u8 = x / 10;
        proof {
            let rest = v@.skip(i as int);
            assert(rest.skip(1) =~= v@.skip(i + 1));
            lemma_places_push(out@, d);
            let p = pow10(i as nat);
            let r = places_value(v@.skip(i + 1));
            let s = places_value(rest);
            assert(s == v@[i as int] as nat + 10 * r);
            assert(p * (carry as nat + 2 * s) == p * (d as nat) + (10 * p) * (c as nat + 2 * r)) by (nonlinear_arith)
                requires
                    carry + 2 * s == d + 10 * (c + 2 * r),
            ;
        }
        out.push(d);
        carry = c;
        i = i + 1;
    }
    proof {
        assert(v@.skip(n as int) =~= Seq::<u8>::empty());
        assert(places_value(v@.skip(n as int)) == 0);
        let p = pow10(n as nat);
        if carry == 0 {
            assert(p * (0 + 2 * 0) == 0);
        } else {
            assert(p * (carry as nat + 2 * 0) == p * (carry as nat));
            lemma_places_push(out@, carry);
        }
    }
    if carry > 0 {
        out.push(carry);
    }
    out
}

/// Appends the number that digits stand for.
fn push_places(s: &mut String, v: &Vec<u8>)
    requires
        places(v@),
        v@.len() > 0,
        v@.last() > 0,
    ensures
        final(s)@ == old(s)@ + decimal(places_value(v@)),
{
    let n: usize = v.len();
    let mut i: usize = n - 1;
    push_digit(s, v[i]);
    proof {
        let t = v@.skip(i as int);
        assert(t.skip(1) =~= Seq::<u8>::empty());
        assert(places_value(t.skip(1)) == 0);
        assert(t[0] == v@[i as int]);
        assert(old(s)@.push(digit_char(t[0] as nat)) =~= old(s)@ + decimal(places_value(t)));
    }
    while i > 0
        invariant
            i < n,
            n == v@.len(),
            places(v@),
            places_value(v@.skip(i as int)) > 0,
            s@ == old(s)@ + decimal(places_value(v@.skip(i as int))),
        decreases i,
    {
        proof {
            let t = v@.skip(i - 1);
            assert(t.skip(1) =~= v@.skip(i as int));
            assert(t[0] == v@[i - 1]);
            let r = places_value(v@.skip(i as int));
            assert(places_value(t) == t[0] as nat + 10 * r);
            assert(decimal(places_value(t)) == decimal(r).push(digit_char(t[0] as nat)));
            assert((old(s)@ + decimal(r)).push(digit_char(t[0] as nat)) =~= old(s)@ + decimal(
                places_value(t),
            ));
        }
        i = i - 1;
        push_digit(s, v[i]);
    }
    proof {
        assert(v@.skip(0) =~= v@);
    }
}

/// Appends a number of any size.
fn push_whole(s: &mut String, f: u64, e: u32)
    requires
        f > 0,
        e <= 2000,
    ensures
        final(s)@ == old(s)@ + decimal(f as nat * pow2(e as nat)),
{
    let mut v: Vec<u8> = places_of(f);
    let mut i: u32 = 0;
    proof {
        lemma_pow2_53();
        lemma_place_count(v@);
        assert((f as nat) * 1 == f as nat);
    }
    while i < e
        invariant
            i <= e <= 2000,
            places(v@),
            v@.len() > 0,
            v@.last() > 0,
            v@.len() <= 20 + i,
            places_value(v@) == f as nat * pow2(i as nat),
        decreases e - i,
    {
        v = doubled(&v);
        proof {
            lemma_pow2_adds(1, i as nat);
            lemma_pow2_53();
            assert((f as nat) * (2 * pow2(i as nat)) == 2 * ((f as nat) * pow2(i as nat))) by (nonlinear_arith);
        }
        i = i + 1;
    }
    push_places(s, &v);
}

/// A number below 2^64 has at most 20 digits.
proof fn lemma_place_count(s: Seq<u8>)
    requires
        places(s),
        s.len() > 0,
        s.last() > 0,
        places_value(s) <= u64::MAX,
    ensures
        s.len() <= 20,
{
    let h = s.drop_last();
    assert(s =~= h.push(s.last()));
    lemma_places_push(h, s.last());
    if s.len() > 20 {
        lemma_pow10_order(20, h.len());
        assert(pow10(20) == 100_000_000_000_000_000_000) by {
            reveal_with_fuel(pow10, 21);
        }
        assert(pow10(h.len()) * (s.last() as nat) >= pow10(h.len())) by (nonlinear_arith)
            requires
                s.last() >= 1,
        ;
    }
}

pub proof fn lemma_pow10_order(a: nat, b: nat)
    requires
        a <= b,
    ensures
        pow10(a) <= pow10(b),
    decreases b,
{
    if a < b {
        lemma_pow10_order(a, (b - 1) as nat);
    }
}

/// Ten to the power of `d`.
pub fn power_of_ten(d: u32) -> (p: u64)
    requires
        d <= 15,
    ensures
        p == pow10(d as nat),
        d <= 9 ==> p <= 1_000_000_000,
        p <= 1_000_000_000_000_000,
{
    proof {
        lemma_pow10_order(d as nat, 15);
        assert(pow10(9) == 1_000_000_000 && pow10(15) == 1_000_000_000_000_000) by {
            reveal_with_fuel(pow10, 16);
        }
        if d <= 9 {
            lemma_pow10_order(d as nat, 9);
        }
    }
    let mut p: u64 = 1;
    let mut i: u32 = 0;
    while i < d
        invariant
            i <= d <= 15,
            p == pow10(i as nat),
            pow10(d as nat) <= 1_000_000_000_000_000,
        decreases d - i,
    {
        proof {
            lemma_pow10_order((i + 1) as nat, d as nat);
        }
        p = p * 10;
        i = i + 1;
    }
    p
}

impl Real {
    /// The number in decimal, with `d` decimals.
    pub fn fixed(self, d: u32) -> (s: String)
        requires
            d <= 9,
        ensures
            s@ == fixed_text(self, d as nat),
    {
        let (n, m) = self.sign_and_mag();
        if m > INF_MAG {
            return "NaN".to_owned();
        }
        let mut s = if n { "-".to_owned() } else { String::new() };
        let ghost head = s@;
        if m == INF_MAG {
            s.append("inf");
            proof {
                assert(Seq::<char>::empty() + "inf"@ =~= "inf"@);
            }
            return s;
        }
        let (f, e) = crate::number::unpack(m);
        let p: u64 = power_of_ten(d);
        let ghost pd = pow10(d as nat);
        let ghost whole = scaled_whole(self, d as nat);
        let ghost units = mag_units(m as nat);
        let frac: u64 = if e >= UNIT_EXP {
            let k: u32 = e - UNIT_EXP;
            push_whole(&mut s, f, k);
            proof {
                lemma_pow2_adds(k as nat, UNIT_EXP as nat);
                lemma_pow2_pos(UNIT_EXP as nat);
                let a = f as nat * pow2(k as nat);
                assert(units * pd == (a * pd) * pow2(UNIT_EXP as nat)) by (nonlinear_arith)
                    requires
                        units == f * pow2(e as nat),
                        pow2(e as nat) == pow2(k as nat) * pow2(UNIT_EXP as nat),
                        a == f * pow2(k as nat),
                ;
                lemma_div_even_scale(a * pd, 1, pow2(UNIT_EXP as nat));
                assert(1 * pow2(UNIT_EXP as nat) == pow2(UNIT_EXP as nat));
                assert(whole == a * pd);
                lemma_pow10_pos(d as nat);
                lemma_div_even_by(whole, pd, a, 0);
            }
            0
        } else {
            let t: u32 = UNIT_EXP - e;
            proof {
                assert(f * p < 0x20_0000_0000_0000 * 1_000_000_001) by (nonlinear_arith)
                    requires
                        0 <= f < 0x20_0000_0000_0000,
                        0 <= p <= 1_000_000_000,
                ;
                lemma_pow2_adds(t as nat, e as nat);
                lemma_pow2_pos(t as nat);
                lemma_pow2_pos(e as nat);
                assert(units * pd == (f * p) * pow2(e as nat)) by (nonlinear_arith)
                    requires
                        units == f * pow2(e as nat),
                        p == pd,
                ;
                lemma_div_even_scale(f as nat * p as nat, pow2(t as nat), pow2(e as nat));
                lemma_pow10_pos(d as nat);
            }
            let j: u128 = f as u128 * p as u128;
            let q: u128 = div_even_pow2(j, t);
            let w: u128 = q / p as u128;
            proof {
                vstd::arithmetic::div_mod::lemma_div_is_ordered_by_denominator(
                    q as int,
                    1,
                    p as int,
                );
                lemma_whole_fits(f as nat, p as nat, t as nat);
            }
            crate::text::push_decimal(&mut s, w as u64);
            (q % p as u128) as u64
        };
        s.append(".");
        push_padded(&mut s, frac, d);
        proof {
            let a = decimal(whole / pd);
            let b = padded(whole % pd, d as nat);
            assert(head + a + "."@ + b =~= head + (a + "."@ + b));
            assert(Seq::<char>::empty() + (a + "."@ + b) =~= a + "."@ + b);
        }
        s
    }
}

/// The whole part of a number below 2^53 fits into 64 bits.
proof fn lemma_whole_fits(f: nat, p: nat, t: nat)
    requires
        f < 0x20_0000_0000_0000,
        p > 0,
        t > 0,
    ensures
        div_even(f * p, pow2(t)) / p <= 0x20_0000_0000_0000,
{
    lemma_pow2_pos(t);
    let m = pow2(t);
    assert(f * p <= (f * p) * m) by (nonlinear_arith)
        requires
            m >= 1,
            f * p >= 0,
    ;
    crate::rounding::lemma_div_even_at_most(f * p, m, f * p);
    let q = div_even(f * p, m);
    vstd::arithmetic::div_mod::lemma_div_is_ordered(q as int, (f * p) as int, p as int);
    vstd::arithmetic::div_mod::lemma_div_multiples_vanish(f as int, p as int);
    assert(f * p == p * f) by (nonlinear_arith);
}

} // verus!
