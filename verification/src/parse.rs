//! Reading numbers from decimal text.

use crate::bignum::nearest;
use crate::bignum::Big;
use crate::fixed::lemma_pow10_order;
use crate::fixed::lemma_pow10_pos;
use crate::fixed::pow10;
use crate::fixed::power_of_ten;
use crate::number::nan;
use crate::number::signed;
use crate::number::Real;
use crate::number::NAN_BITS;
use crate::rounding::lemma_binade;
use crate::rounding::lemma_div_even_by;
use crate::rounding::lemma_nearest_scale;
use crate::rounding::lemma_pow2_53;
use crate::rounding::mag_units;
use crate::rounding::nearest_mag;
use crate::rounding::BINADE;
use crate::rounding::INF_MAG;
use crate::rounding::UNIT_EXP;
use crate::text::all_digits;
use crate::text::chars_of;
use crate::text::digit_test;
use crate::text::digits_value;
use crate::text::is_digit;
use crate::text::value_of;
use vstd::arithmetic::power2::lemma2_to64;
use vstd::arithmetic::power2::lemma_pow2_adds;
use vstd::arithmetic::power2::lemma_pow2_pos;
use vstd::arithmetic::power2::lemma_pow2_strictly_increases;
use vstd::arithmetic::power2::pow2;
use vstd::prelude::*;
use vstd::string::*;

verus! {

/// How many decimal digits a text starts with.
pub open spec fn digit_run(s: Seq<char>) -> nat
    decreases s.len(),
{
    if s.len() > 0 && is_digit(s[0]) {
        1 + digit_run(s.skip(1))
    } else {
        0
    }
}

/// Whether a text is a word in lower case, or the same letters in another case.
pub open spec fn same_letters(s: Seq<char>, word: Seq<char>) -> bool {
    s.len() == word.len() && forall|i: int|
        0 <= i < word.len() ==> #[trigger] s[i] == word[i] || s[i] as u32 + 32 == word[i] as u32
}

/// The digits after a decimal point, where there is one.
pub open spec fn decimals(s: Seq<char>) -> Seq<char> {
    if s.len() > 0 && s[0] == '.' {
        s.subrange(1, 1 + digit_run(s.skip(1)) as int)
    } else {
        Seq::empty()
    }
}

/// What follows a decimal point and its digits.
pub open spec fn after_decimals(s: Seq<char>) -> Seq<char> {
    if s.len() > 0 && s[0] == '.' {
        s.skip(1 + digit_run(s.skip(1)) as int)
    } else {
        s
    }
}

/// The power of ten that an exponent stands for: `e` or `E`, an optional sign, and digits.
pub open spec fn parsed_exponent(s: Seq<char>) -> Option<int> {
    if s.len() == 0 {
        Some(0int)
    } else if s[0] == 'e' || s[0] == 'E' {
        let t = s.skip(1);
        let marked = t.len() > 0 && (t[0] == '+' || t[0] == '-');
        let u = if marked { t.skip(1) } else { t };
        if all_digits(u) {
            if marked && t[0] == '-' {
                Some(-(digits_value(u) as int))
            } else {
                Some(digits_value(u) as int)
            }
        } else {
            None
        }
    } else {
        None
    }
}

/// A decimal number without sign as a whole number and a power of ten: digits with at most one
/// decimal point among them, and an optional exponent.
pub open spec fn parsed_decimal(s: Seq<char>) -> Option<(nat, int)> {
    let a = digit_run(s) as int;
    let rest = s.skip(a);
    let frac = decimals(rest);
    if a + frac.len() == 0 {
        None
    } else {
        match parsed_exponent(after_decimals(rest)) {
            Some(x) => Some((digits_value(s.take(a) + frac), x - frac.len())),
            None => None,
        }
    }
}

/// The magnitude nearest to `m` times ten to the power of `e`.
pub open spec fn decimal_mag(m: nat, e: int) -> nat {
    if e >= 0 {
        nearest_mag((m * pow10(e as nat)) * pow2(UNIT_EXP as nat), 1)
    } else {
        nearest_mag(m * pow2(UNIT_EXP as nat), pow10((-e) as nat))
    }
}

/// The number that a text stands for: an optional sign, then a decimal number, or one of the
/// words `inf`, `infinity` and `nan` in any case.
pub open spec fn parsed_real(s: Seq<char>) -> Option<Real> {
    let marked = s.len() > 0 && (s[0] == '-' || s[0] == '+');
    let neg = marked && s[0] == '-';
    let t = if marked { s.skip(1) } else { s };
    if same_letters(t, "inf"@) || same_letters(t, "infinity"@) {
        Some(signed(neg, INF_MAG as nat))
    } else if same_letters(t, "nan"@) {
        Some(nan())
    } else {
        match parsed_decimal(t) {
            Some((m, e)) => Some(signed(neg, decimal_mag(m, e))),
            None => None,
        }
    }
}

/// Whether the characters from a place on are a word.
fn letters_from(v: &Vec<char>, from: usize, word: &str) -> (r: bool)
    requires
        from <= v@.len(),
    ensures
        r == same_letters(v@.skip(from as int), word@),
{
    let n: usize = word.unicode_len();
    let len: usize = v.len();
    let ghost t = v@.skip(from as int);
    if len - from != n {
        return false;
    }
    let mut i: usize = 0;
    while i < n
        invariant
            i <= n,
            n == word@.len(),
            from + n == len,
            len == v@.len(),
            t == v@.skip(from as int),
            forall|j: int| 0 <= j < i ==> #[trigger] t[j] == word@[j] || t[j] as u32 + 32 == word@[j] as u32,
        decreases n - i,
    {
        let c: char = v[from + i];
        let w: char = word.get_char(i);
        proof {
            assert(t[i as int] == c);
        }
        if !(c == w || (w as u32 >= 32 && c as u32 == w as u32 - 32)) {
            return false;
        }
        i = i + 1;
    }
    true
}

/// How many digits stand from a place on.
fn run_from(v: &Vec<char>, from: usize) -> (r: usize)
    requires
        from <= v@.len(),
    ensures
        r == digit_run(v@.skip(from as int)),
        from + r <= v@.len(),
        forall|j: int| from <= j < from + r ==> is_digit(#[trigger] v@[j]),
        from + r < v@.len() ==> !is_digit(v@[from + r]),
{
    let mut i: usize = from;
    while i < v.len() && digit_test(v[i])
        invariant
            from <= i <= v@.len(),
            forall|j: int| from <= j < i ==> is_digit(#[trigger] v@[j]),
            digit_run(v@.skip(from as int)) == (i - from) + digit_run(v@.skip(i as int)),
        decreases v@.len() - i,
    {
        proof {
            assert(v@.skip(i as int).skip(1) =~= v@.skip(i + 1));
            assert(v@.skip(i as int)[0] == v@[i as int]);
        }
        i = i + 1;
    }
    proof {
        if i < v@.len() {
            assert(v@.skip(i as int)[0] == v@[i as int]);
        } else {
            assert(v@.skip(i as int).len() == 0);
        }
    }
    i - from
}

/// The most that an exponent is read as.
pub const EXPONENT_CAP: u128 = 0x10_0000_0000_0000_0000_0000_0000;

/// The value of the digits from a place on, held at the cap.
fn capped_from(v: &Vec<char>, from: usize) -> (r: u128)
    requires
        from <= v@.len(),
        forall|j: int| from <= j < v@.len() ==> is_digit(#[trigger] v@[j]),
    ensures
        r <= EXPONENT_CAP,
        r < EXPONENT_CAP ==> r == digits_value(v@.skip(from as int)),
        r == EXPONENT_CAP ==> digits_value(v@.skip(from as int)) >= EXPONENT_CAP,
{
    let mut x: u128 = 0;
    let mut i: usize = from;
    let ghost t = v@.skip(from as int);
    while i < v.len()
        invariant
            from <= i <= v@.len(),
            t == v@.skip(from as int),
            forall|j: int| from <= j < v@.len() ==> is_digit(#[trigger] v@[j]),
            x <= EXPONENT_CAP,
            x < EXPONENT_CAP ==> x == digits_value(t.take(i - from)),
            x == EXPONENT_CAP ==> digits_value(t.take(i - from)) >= EXPONENT_CAP,
        decreases v@.len() - i,
    {
        proof {
            assert(t.take(i + 1 - from).drop_last() =~= t.take(i - from));
            assert(t[i - from] == v@[i as int]);
        }
        let y: u128 = x * 10 + value_of(v[i]) as u128;
        x = if y < EXPONENT_CAP { y } else { EXPONENT_CAP };
        i = i + 1;
    }
    proof {
        assert(t.take(v@.len() - from) =~= t);
    }
    x
}

/// The value of two stretches of digits, read one after the other.
fn mantissa(v: &Vec<char>, a0: usize, a1: usize, b0: usize, b1: usize) -> (r: (Big, u64))
    requires
        a0 <= a1 <= v@.len(),
        b0 <= b1 <= v@.len(),
        forall|j: int| a0 <= j < a1 ==> is_digit(#[trigger] v@[j]),
        forall|j: int| b0 <= j < b1 ==> is_digit(#[trigger] v@[j]),
    ensures
        r.0@ == digits_value(v@.subrange(a0 as int, a1 as int) + v@.subrange(b0 as int, b1 as int)),
        (a1 - a0) + (b1 - b0) <= 15 ==> r.1 == r.0@,
        r.0@ < pow10(((a1 - a0) + (b1 - b0)) as nat),
{
    let mut m: Big = Big::small(0);
    let mut small: u64 = 0;
    let mut i: usize = a0;
    let ghost s = v@.subrange(a0 as int, a1 as int) + v@.subrange(b0 as int, b1 as int);
    proof {
        assert(s.take(0).len() == 0);
        assert(pow10(15) == 1_000_000_000_000_000) by {
            reveal_with_fuel(pow10, 16);
        }
    }
    while i < a1
        invariant
            a0 <= i <= a1 <= v@.len(),
            s == v@.subrange(a0 as int, a1 as int) + v@.subrange(b0 as int, b1 as int),
            forall|j: int| a0 <= j < a1 ==> is_digit(#[trigger] v@[j]),
            m@ == digits_value(s.take(i - a0)),
            m@ < pow10((i - a0) as nat),
            small <= 1_000_000_000_000_000_000,
            i - a0 <= 15 ==> small == m@,
            pow10(15) == 1_000_000_000_000_000,
        decreases a1 - i,
    {
        let d: u8 = value_of(v[i]);
        proof {
            assert(s.take(i + 1 - a0).drop_last() =~= s.take(i - a0));
            assert(s.take(i + 1 - a0).last() == v@[i as int]);
            if i + 1 - a0 <= 15 {
                lemma_pow10_order((i - a0) as nat, 15);
                lemma_pow10_order((i + 1 - a0) as nat, 15);
            }
        }
        m = m.times_plus(10, d as u32);
        small = if small < 100_000_000_000_000_000 { small * 10 + d as u64 } else { 0 };
        i = i + 1;
    }
    let ghost a = a1 - a0;
    let mut k: usize = b0;
    while k < b1
        invariant
            b0 <= k <= b1 <= v@.len(),
            a0 <= a1 <= v@.len(),
            a == a1 - a0,
            s == v@.subrange(a0 as int, a1 as int) + v@.subrange(b0 as int, b1 as int),
            forall|j: int| b0 <= j < b1 ==> is_digit(#[trigger] v@[j]),
            m@ == digits_value(s.take(a + (k - b0))),
            m@ < pow10((a + (k - b0)) as nat),
            small <= 1_000_000_000_000_000_000,
            a + (k - b0) <= 15 ==> small == m@,
            pow10(15) == 1_000_000_000_000_000,
        decreases b1 - k,
    {
        let d: u8 = value_of(v[k]);
        proof {
            assert(s.take(a + (k + 1 - b0)).drop_last() =~= s.take(a + (k - b0)));
            assert(s.take(a + (k + 1 - b0)).last() == v@[k as int]);
            if a + (k + 1 - b0) <= 15 {
                lemma_pow10_order((a + (k - b0)) as nat, 15);
                lemma_pow10_order((a + (k + 1 - b0)) as nat, 15);
            }
        }
        m = m.times_plus(10, d as u32);
        small = if small < 100_000_000_000_000_000 { small * 10 + d as u64 } else { 0 };
        k = k + 1;
    }
    proof {
        assert(s.take(a + (b1 - b0)) =~= s);
    }
    (m, small)
}

/// The number times ten to the power of `e`.
fn times_ten(m: Big, e: u128) -> (r: Big)
    ensures
        r@ == m@ * pow10(e as nat),
{
    let ghost start = m@;
    let mut r: Big = m;
    let mut i: u128 = 0;
    proof {
        assert(start * 1 == start);
    }
    while i < e
        invariant
            i <= e,
            r@ == start * pow10(i as nat),
        decreases e - i,
    {
        r = r.times_plus(10, 0);
        proof {
            let p = pow10(i as nat);
            assert((start * p) * 10 == start * (10 * p)) by (nonlinear_arith);
        }
        i = i + 1;
    }
    r
}

/// Ten to a power is at least eight to it.
proof fn lemma_pow10_above(e: nat)
    ensures
        pow10(e) >= pow2(3 * e),
    decreases e,
{
    if e > 0 {
        lemma_pow10_above((e - 1) as nat);
        lemma_pow2_adds(3, (3 * e - 3) as nat);
        lemma2_to64();
    } else {
        lemma2_to64();
    }
}

/// What the exponent cap hides makes no difference.
proof fn lemma_extreme(m: nat, e: int, len: nat)
    requires
        m < pow10(len),
    ensures
        m == 0 ==> decimal_mag(m, e) == 0,
        m > 0 && e > 400 ==> decimal_mag(m, e) == INF_MAG,
        e + len < -400 ==> decimal_mag(m, e) == 0,
{
    let u = pow2(UNIT_EXP as nat);
    lemma_pow2_pos(UNIT_EXP as nat);
    if m == 0 {
        assert(0 * pow10(e as nat) == 0);
        assert(0 * u == 0);
        crate::number::lemma_nearest_zero(1);
        if e < 0 {
            lemma_pow10_pos((-e) as nat);
            crate::number::lemma_nearest_zero(pow10((-e) as nat));
        }
    } else if e > 400 {
        let p = pow10(e as nat);
        lemma_pow10_above(e as nat);
        lemma_pow2_strictly_increases(1100, (3 * e) as nat);
        lemma_pow2_adds(1100, UNIT_EXP as nat);
        lemma_pow2_strictly_increases(2099, 2174);
        lemma_pow2_pos(1100);
        let n = (m * p) * u;
        assert(n >= pow2(1100) * u) by (nonlinear_arith)
            requires
                n == (m * p) * u,
                m >= 1,
                p >= pow2(1100),
                u > 0,
                pow2(1100) > 0,
        ;
        assert(1 * pow2(2099) == pow2(2099));
        crate::bignum::lemma_large(n, 1, 2047);
    } else if e + len < -400 {
        let d = (-e) as nat;
        let g = (d - len) as nat;
        lemma_pow10_split(len, g);
        lemma_pow10_above(g);
        lemma_pow10_pos(len);
        lemma_pow2_strictly_increases(1200, 3 * g);
        lemma_pow2_strictly_increases(1075, 1200);
        lemma_pow2_adds(1, UNIT_EXP as nat);
        lemma_pow2_53();
        let n = m * u;
        let pd = pow10(d);
        assert(2 * n < pd) by (nonlinear_arith)
            requires
                n == m * u,
                m < pow10(len),
                pd == pow10(len) * pow10(g),
                pow10(g) > 2 * u,
                u > 0,
        ;
        assert(n < pd * 0x20_0000_0000_0000);
        assert(pd * pow2(0) == pd);
        lemma_div_even_by(n, pd, 0, n);
    }
}

proof fn lemma_pow10_split(a: nat, b: nat)
    ensures
        pow10(a + b) == pow10(a) * pow10(b),
    decreases a,
{
    if a == 0 {
        assert(1 * pow10(b) == pow10(b));
    } else {
        lemma_pow10_split((a - 1) as nat, b);
        let (x, y) = (pow10((a - 1) as nat), pow10(b));
        assert((10 * x) * y == 10 * (x * y)) by (nonlinear_arith);
    }
}

/// A whole number below 2^53 is a number of its own.
pub proof fn lemma_from_small(n: u64)
    requires
        n < 0x20_0000_0000_0000,
    ensures
        Real::from_u64(n).finite(),
        !Real::from_u64(n).neg(),
        Real::from_u64(n).units() == n * pow2(UNIT_EXP as nat),
        mag_units(Real::from_u64(n).mag()) == n * pow2(UNIT_EXP as nat),
{
    reveal(Real::spec_from_u64);
    let u = pow2(UNIT_EXP as nat);
    lemma_pow2_pos(UNIT_EXP as nat);
    if n == 0 {
        assert(0 * u == 0);
        crate::number::lemma_nearest_zero(1);
    } else {
        lemma_pow2_53();
        let l = lemma_length(n as nat, 53);
        let k = (l + 1021) as nat;
        let s = (53 - l) as nat;
        let p = pow2(k);
        let q = n as nat * pow2(s);
        lemma_pow2_pos(k);
        lemma_pow2_adds(s, k);
        assert(n * u == q * p) by (nonlinear_arith)
            requires
                u == pow2(s) * p,
                q == n * pow2(s),
        ;
        lemma_pow2_adds(l, s);
        lemma_pow2_adds((l - 1) as nat, s);
        lemma_pow2_pos(s);
        assert(0x10_0000_0000_0000 <= q < 0x20_0000_0000_0000) by (nonlinear_arith)
            requires
                q == n * pow2(s),
                pow2((l - 1) as nat) <= n < pow2(l),
                pow2(l) * pow2(s) == 0x20_0000_0000_0000,
                pow2((l - 1) as nat) * pow2(s) == 0x10_0000_0000_0000,
                pow2(s) > 0,
        ;
        lemma_pow2_adds(k, 53);
        lemma_pow2_adds(k, 52);
        assert(q * p < 1 * pow2(k + 53)) by (nonlinear_arith)
            requires
                q < 0x20_0000_0000_0000,
                pow2(k + 53) == p * 0x20_0000_0000_0000,
                p > 0,
        ;
        assert(q * p >= 1 * pow2((k + 52) as nat)) by (nonlinear_arith)
            requires
                q >= 0x10_0000_0000_0000,
                pow2((k + 52) as nat) == p * 0x10_0000_0000_0000,
                p > 0,
        ;
        lemma_binade(q * p, 1, k);
        assert(1 * p == p);
        lemma_div_even_by(q * p, p, q, 0);
        let b = k * (BINADE as nat) + q;
        assert(k * (BINADE as nat) <= 1074 * (BINADE as nat)) by (nonlinear_arith)
            requires
                k <= 1074,
        ;
        assert(nearest_mag(n as nat * u, 1) == b);
        lemma_div_even_by(b, BINADE as nat, k + 1, (q - BINADE) as nat);
        assert((k + 1) * (BINADE as nat) == k * (BINADE as nat) + BINADE) by (nonlinear_arith);
        assert(mag_units(b) == q * p);
    }
}

/// The number of bits of a number.
proof fn lemma_length(n: nat, max: nat) -> (l: nat)
    requires
        0 < n < pow2(max),
    ensures
        1 <= l <= max,
        pow2((l - 1) as nat) <= n < pow2(l),
    decreases max,
{
    lemma2_to64();
    if max == 0 {
        0
    } else if n >= pow2((max - 1) as nat) {
        max
    } else {
        lemma_length(n, (max - 1) as nat)
    }
}

/// A quotient of two whole numbers below 2^53 is the nearest to their exact quotient.
proof fn lemma_small_quotient(m: u64, e: nat, p: u64)
    requires
        m < 0x20_0000_0000_0000,
        p == pow10(e),
        p < 0x20_0000_0000_0000,
    ensures
        Real::from_u64(m).over(Real::from_u64(p)) == signed(false, decimal_mag(m as nat, -(e as int))),
{
    reveal(Real::spec_over);
    lemma_from_small(m);
    lemma_from_small(p);
    lemma_pow10_pos(e);
    let u = pow2(UNIT_EXP as nat);
    lemma_pow2_pos(UNIT_EXP as nat);
    assert(p * u > 0) by (nonlinear_arith)
        requires
            p > 0,
            u > 0,
    ;
    let b = Real::from_u64(p);
    assert(!b.zero());
    lemma_nearest_scale(m as nat * u, p as nat, u);
    if e == 0 {
        assert(m as nat * 1 == m);
    }
}

impl Real {
    /// The number that a text stands for, if it stands for one.
    pub fn parse(s: &str) -> (r: Option<Real>)
        ensures
            r == parsed_real(s@),
    {
        let v: Vec<char> = chars_of(s);
        let n: usize = v.len();
        let marked: bool = n > 0 && (v[0] == '-' || v[0] == '+');
        let neg: bool = marked && v[0] == '-';
        let start: usize = if marked { 1 } else { 0 };
        proof {
            assert(v@.skip(0) =~= v@);
        }
        if letters_from(&v, start, "inf") || letters_from(&v, start, "infinity") {
            return Some(Real::make(neg, INF_MAG));
        }
        if letters_from(&v, start, "nan") {
            return Some(Real { bits: NAN_BITS });
        }
        match decimal_from(&v, start) {
            Some(b) => Some(Real::make(neg, b)),
            None => None,
        }
    }
}

/// The parts of a decimal number, by their places.
proof fn lemma_split(v: Seq<char>, start: int, point: int, frac_start: int, exp: int)
    requires
        0 <= start <= point <= frac_start <= exp <= v.len(),
        point - start == digit_run(v.skip(start)),
        (point < v.len() && v[point] == '.') ==> frac_start == point + 1 && exp - frac_start == digit_run(
            v.skip(frac_start),
        ),
        !(point < v.len() && v[point] == '.') ==> frac_start == point && exp == point,
    ensures
        ({
            let t = v.skip(start);
            let rest = t.skip(digit_run(t) as int);
            &&& decimals(rest) == v.subrange(frac_start, exp)
            &&& after_decimals(rest) == v.skip(exp)
            &&& t.take(digit_run(t) as int) == v.subrange(start, point)
        }),
{
    let t = v.skip(start);
    let rest = t.skip(point - start);
    assert(rest =~= v.skip(point));
    if point < v.len() && v[point] == '.' {
        assert(rest.skip(1) =~= v.skip(frac_start));
        assert(rest.skip(1 + (exp - frac_start)) =~= v.skip(exp));
        assert(rest.subrange(1, 1 + (exp - frac_start)) =~= v.subrange(frac_start, exp));
    } else {
        assert(v.subrange(frac_start, exp) =~= Seq::<char>::empty());
    }
    assert(t.take(point - start) =~= v.subrange(start, point));
}

/// The magnitude of the decimal number from a place on.
fn decimal_from(v: &Vec<char>, start: usize) -> (r: Option<u64>)
    requires
        start <= v@.len(),
    ensures
        match parsed_decimal(v@.skip(start as int)) {
            Some((m, e)) => r matches Some(b) && b == decimal_mag(m, e) && b <= INF_MAG,
            None => r is None,
        },
{
    let n: usize = v.len();
    let ghost t = v@.skip(start as int);
    let a: usize = run_from(v, start);
    let point: usize = start + a;
    let has_point: bool = point < n && v[point] == '.';
    let frac_start: usize = if has_point { point + 1 } else { point };
    let frac: usize = if has_point { run_from(v, frac_start) } else { 0 };
    let exp: usize = frac_start + frac;
    proof {
        lemma_split(v@, start as int, point as int, frac_start as int, exp as int);
    }
    if a == 0 && frac == 0 {
        return None;
    }
    let (x_neg, x): (bool, u128) = match exponent_from(v, exp) {
        Some(p) => p,
        None => return None,
    };
    let (m, small) = mantissa(v, start, point, frac_start, exp);
    let len: u128 = a as u128 + frac as u128;
    let e: i128 = if x_neg { -(x as i128) - (frac as i128) } else { x as i128 - (frac as i128) };
    proof {
        let true_e = parsed_exponent(v@.skip(exp as int)).unwrap() - frac;
        if x == EXPONENT_CAP {
            lemma_extreme(m@, true_e, len as nat);
            lemma_extreme(m@, e as int, len as nat);
        }
        assert(decimal_mag(m@, true_e) == decimal_mag(m@, e as int));
    }
    Some(scaled(m, small, len, e))
}

/// The magnitude nearest to `m` times ten to the power of `e`, for an `m` of `len` digits.
fn scaled(m: Big, small: u64, len: u128, e: i128) -> (b: u64)
    requires
        m@ < pow10(len as nat),
        len <= 15 ==> small == m@,
        len <= 0x2_0000_0000_0000_0000,
        -0x20_0000_0000_0000_0000_0000_0000 <= e <= EXPONENT_CAP,
    ensures
        b == decimal_mag(m@, e as int),
        b <= INF_MAG,
{
    proof {
        lemma_extreme(m@, e as int, len as nat);
    }
    let one: Big = Big::small(1);
    if !m.at_least(&one) {
        return 0;
    }
    if e > 400 {
        return INF_MAG;
    }
    if e + (len as i128) < -400 {
        return 0;
    }
    if e <= 0 && e >= -15 && len <= 15 {
        let p: u64 = power_of_ten((-e) as u32);
        proof {
            lemma_pow10_order(len as nat, 15);
            assert(pow10(15) == 1_000_000_000_000_000) by {
                reveal_with_fuel(pow10, 16);
            }
            lemma_small_quotient(small, (-e) as nat, p);
            lemma_bits_of_mag(decimal_mag(m@, e as int));
        }
        let q: Real = Real::from_u64(small).over(Real::from_u64(p));
        return q.bits;
    }
    if e >= 0 {
        let num: Big = times_ten(m, e as u128).doubled(UNIT_EXP);
        nearest(num, Big::small(1))
    } else {
        let den: Big = times_ten(Big::small(1), (-e) as u128);
        proof {
            lemma_pow10_pos((-e) as nat);
            assert(1 * pow10((-e) as nat) == pow10((-e) as nat));
        }
        nearest(m.doubled(UNIT_EXP), den)
    }
}

/// The bits of a number without sign are its magnitude.
proof fn lemma_bits_of_mag(b: nat)
    requires
        b <= INF_MAG,
    ensures
        signed(false, b).bits == b,
{
}

/// The exponent from a place on: whether it is negative, and its size held at the cap.
fn exponent_from(v: &Vec<char>, from: usize) -> (r: Option<(bool, u128)>)
    requires
        from <= v@.len(),
    ensures
        match parsed_exponent(v@.skip(from as int)) {
            Some(x) => r matches Some(p) && p.1 <= EXPONENT_CAP && {
                let size = if p.0 { -x } else { x };
                &&& p.1 < EXPONENT_CAP ==> size == p.1
                &&& p.1 == EXPONENT_CAP ==> size >= EXPONENT_CAP
            },
            None => r is None,
        },
{
    let n: usize = v.len();
    let ghost s = v@.skip(from as int);
    if from == n {
        return Some((false, 0));
    }
    proof {
        assert(s[0] == v@[from as int]);
    }
    if v[from] != 'e' && v[from] != 'E' {
        return None;
    }
    let ghost t = s.skip(1);
    let marked: bool = from + 1 < n && (v[from + 1] == '+' || v[from + 1] == '-');
    let neg: bool = marked && v[from + 1] == '-';
    let digits: usize = if marked { from + 2 } else { from + 1 };
    let ghost u = if marked { t.skip(1) } else { t };
    proof {
        if from + 1 < n {
            assert(t[0] == v@[from + 1]);
        }
        assert(u =~= v@.skip(digits as int));
    }
    let run: usize = run_from(v, digits);
    if run == 0 || digits + run != n {
        proof {
            if u.len() > 0 {
                if run == 0 {
                    assert(!is_digit(u[0]));
                } else {
                    assert(u[run as int] == v@[digits + run]);
                }
            }
        }
        return None;
    }
    proof {
        assert forall|i: int| 0 <= i < u.len() implies is_digit(#[trigger] u[i]) by {
            assert(u[i] == v@[digits + i]);
        }
    }
    Some((neg, capped_from(v, digits)))
}

} // verus!
