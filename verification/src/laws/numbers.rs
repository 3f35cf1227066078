//! Numbers, and how they are written and read.

use crate::fixed::fixed_text;
use crate::fixed::pow10;
use crate::number::Real;
use crate::order::fraction;
use crate::parse::digit_run;
use crate::parse::parsed_real;
use crate::rounding::div_even;
use crate::rounding::UNIT_EXP;
use crate::signing::base64_of;
use crate::text::all_digits;
use crate::text::decimal;
use crate::text::digits_value;
use crate::text::padded;
use crate::text::parsed_u64;
use vstd::arithmetic::div_mod::lemma_fundamental_div_mod;
use vstd::arithmetic::power::lemma_pow_positive;
use vstd::arithmetic::power::pow;
use vstd::arithmetic::power2::lemma_pow2_pos;
use vstd::arithmetic::power2::pow2;
use vstd::prelude::*;

verus! {

/// Whether a text is made of the ten digits alone.
pub open spec fn digits_only(s: Seq<char>) -> bool {
    forall|i: int| 0 <= i < s.len() ==> '0' <= #[trigger] s[i] <= '9'
}

/// The value of a text of digits, each counting ten times as much as the one after it.
pub open spec fn value_in_tens(s: Seq<char>) -> int {
    s.fold_left(0int, |v: int, c: char| 10 * v + (c as int - '0' as int))
}

proof fn lemma_value(s: Seq<char>)
    requires
        digits_only(s),
    ensures
        value_in_tens(s) == digits_value(s),
    decreases s.len(),
{
    let f = |v: int, c: char| 10 * v + (c as int - '0' as int);
    if s.len() > 0 {
        assert(digits_only(s.drop_last())) by {
            assert forall|i: int| 0 <= i < s.len() - 1 implies '0' <= #[trigger] s.drop_last()[i]
                <= '9' by {
                assert(s.drop_last()[i] == s[i]);
            }
        }
        lemma_value(s.drop_last());
        assert(s.fold_left(0int, f) == f(s.drop_last().fold_left(0int, f), s.last()));
        assert(s.last() == s[s.len() - 1]);
    }
}

proof fn lemma_tens(d: nat)
    ensures
        pow10(d) == pow(10, d),
        pow10(d) > 0,
    decreases d,
{
    reveal(pow);
    if d > 0 {
        lemma_tens((d - 1) as nat);
    }
    lemma_pow_positive(10, d);
}

/// A number is written in digits that have its value, without a zero before them.
pub proof fn law_decimals_of_numbers(n: nat)
    ensures
        digits_only(decimal(n)),
        decimal(n).len() > 0,
        value_in_tens(decimal(n)) == n,
        n > 0 ==> decimal(n)[0] != '0',
    decreases n,
{
    if n < 10 {
        assert(decimal(n).drop_last() =~= Seq::<char>::empty());
        reveal_with_fuel(Seq::fold_left, 2);
    } else {
        law_decimals_of_numbers(n / 10);
        let h = decimal(n / 10);
        let s = decimal(n);
        assert(s.drop_last() =~= h);
        assert forall|i: int| 0 <= i < s.len() implies '0' <= #[trigger] s[i] <= '9' by {
            if i < h.len() {
                assert(s[i] == h[i]);
            }
        }
        lemma_value(s);
        lemma_value(h);
        assert(s[0] == h[0]);
    }
}

/// A number in a fixed width has that width, and the value of the digits that fit.
pub proof fn law_fixed_width(n: nat, width: nat)
    ensures
        padded(n, width).len() == width,
        digits_only(padded(n, width)),
        n < pow(10, width) ==> value_in_tens(padded(n, width)) == n,
    decreases width,
{
    let s = padded(n, width);
    reveal(pow);
    if width == 0 {
        assert(s =~= Seq::<char>::empty());
        assert(pow(10, 0) == 1);
        assert(value_in_tens(s) == 0);
    } else {
        let w = (width - 1) as nat;
        law_fixed_width(n / 10, w);
        let h = padded(n / 10, w);
        assert(s.drop_last() =~= h);
        assert forall|i: int| 0 <= i < s.len() implies '0' <= #[trigger] s[i] <= '9' by {
            if i < h.len() {
                assert(s[i] == h[i]);
            }
        }
        lemma_value(s);
        lemma_value(h);
        assert(pow(10, width) == 10 * pow(10, w));
    }
}

/// A text is read as an unsigned number where it is made of digits, perhaps behind a plus sign, and
/// their value fits into 64 bits.
pub proof fn law_unsigned_numbers_are_read(s: Seq<char>)
    ensures
        s.len() > 0 && digits_only(s) && value_in_tens(s) <= u64::MAX ==> parsed_u64(s) == Some(
            value_in_tens(s) as u64,
        ),
        s.len() > 1 && s[0] == '+' && digits_only(s.skip(1)) && value_in_tens(s.skip(1)) <= u64::MAX
            ==> parsed_u64(s) == Some(value_in_tens(s.skip(1)) as u64),
        parsed_u64(s) matches Some(n) ==> {
            let t = if s[0] == '+' {
                s.skip(1)
            } else {
                s
            };
            t.len() > 0 && digits_only(t) && value_in_tens(t) == n
        },
{
    let t = if s.len() > 0 && s[0] == '+' {
        s.skip(1)
    } else {
        s
    };
    if digits_only(s) {
        lemma_value(s);
        if s.len() > 0 {
            assert('0' <= s[0] <= '9');
        }
    }
    if digits_only(t) {
        lemma_value(t);
    }
    if all_digits(t) {
        assert(digits_only(t)) by {
            assert forall|i: int| 0 <= i < t.len() implies '0' <= #[trigger] t[i] <= '9' by {
                assert(crate::text::is_digit(t[i]));
            }
        }
    }
    if digits_only(t) && t.len() > 0 {
        assert(all_digits(t)) by {
            assert forall|i: int| 0 <= i < t.len() implies crate::text::is_digit(#[trigger] t[i]) by {
                assert('0' <= t[i] <= '9');
            }
        }
    }
}

proof fn lemma_run(s: Seq<char>, n: nat)
    requires
        n <= s.len(),
        digits_only(s.take(n as int)),
        n < s.len() ==> !('0' <= s[n as int] <= '9'),
    ensures
        digit_run(s) == n,
    decreases n,
{
    if n > 0 {
        let t = s.skip(1);
        assert(s.take(n as int)[0] == s[0]);
        assert forall|i: int| 0 <= i < n - 1 implies '0' <= #[trigger] t.take(n - 1)[i] <= '9' by {
            assert(t.take(n - 1)[i] == s.take(n as int)[i + 1]);
        }
        lemma_run(t, (n - 1) as nat);
    }
}

/// Digits with a decimal point among them are read as the number nearest to their value; a minus sign
/// before them makes it negative.
pub proof fn law_decimal_numbers_are_read(whole: Seq<char>, part: Seq<char>)
    requires
        whole.len() > 0,
        digits_only(whole),
        digits_only(part),
    ensures
        part.len() == 0 ==> parsed_real(whole) == Some(fraction(value_in_tens(whole) as nat, 1)),
        parsed_real(whole + seq!['.'] + part) == Some(
            fraction(value_in_tens(whole + part) as nat, pow(10, part.len()) as nat),
        ),
        parsed_real(seq!['-'] + (whole + seq!['.'] + part)) == Some(
            fraction(value_in_tens(whole + part) as nat, pow(10, part.len()) as nat).negated(),
        ),
{
    let t = whole + seq!['.'] + part;
    lemma_plain(whole, part);
    lemma_signs(t);
    let s = seq!['-'] + t;
    assert(s.skip(1) =~= t);
    assert(s[0] == '-');
    assert(t[0] == whole[0]);
    assert('0' <= whole[0] <= '9');
    if part.len() == 0 {
        lemma_bare(whole);
        lemma_signs(whole);
    }
    let m = crate::rounding::nearest_mag(
        value_in_tens(whole + part) as nat * pow2(UNIT_EXP as nat),
        pow(10, part.len()) as nat,
    );
    assert(m <= crate::rounding::INF_MAG);
}

proof fn lemma_signs(t: Seq<char>)
    requires
        t.len() > 0,
        '0' <= t[0] <= '9',
    ensures
        !crate::parse::same_letters(t, "inf"@),
        !crate::parse::same_letters(t, "infinity"@),
        !crate::parse::same_letters(t, "nan"@),
{
    reveal_strlit("inf");
    reveal_strlit("infinity");
    reveal_strlit("nan");
    if crate::parse::same_letters(t, "inf"@) {
        assert(t[0] == "inf"@[0] || t[0] as u32 + 32 == "inf"@[0] as u32);
    }
    if crate::parse::same_letters(t, "infinity"@) {
        assert(t[0] == "infinity"@[0] || t[0] as u32 + 32 == "infinity"@[0] as u32);
    }
    if crate::parse::same_letters(t, "nan"@) {
        assert(t[0] == "nan"@[0] || t[0] as u32 + 32 == "nan"@[0] as u32);
    }
}

proof fn lemma_bare(whole: Seq<char>)
    requires
        whole.len() > 0,
        digits_only(whole),
    ensures
        crate::parse::parsed_decimal(whole) == Some((value_in_tens(whole) as nat, 0int)),
        crate::parse::decimal_mag(value_in_tens(whole) as nat, 0) == crate::rounding::nearest_mag(
            value_in_tens(whole) as nat * pow2(UNIT_EXP as nat),
            1,
        ),
{
    assert(whole.take(whole.len() as int) =~= whole);
    lemma_run(whole, whole.len());
    lemma_value(whole);
    let rest = whole.skip(whole.len() as int);
    assert(rest =~= Seq::<char>::empty());
    assert(whole.take(whole.len() as int) + Seq::<char>::empty() =~= whole);
    assert(pow10(0) == 1);
    let n = value_in_tens(whole) as nat;
    assert(n * 1 == n);
}

proof fn lemma_plain(whole: Seq<char>, part: Seq<char>)
    requires
        whole.len() > 0,
        digits_only(whole),
        digits_only(part),
    ensures
        crate::parse::parsed_decimal(whole + seq!['.'] + part) == Some(
            (value_in_tens(whole + part) as nat, -(part.len() as int)),
        ),
        crate::parse::decimal_mag(value_in_tens(whole + part) as nat, -(part.len() as int))
            == crate::rounding::nearest_mag(
            value_in_tens(whole + part) as nat * pow2(UNIT_EXP as nat),
            pow(10, part.len()) as nat,
        ),
{
    let t = whole + seq!['.'] + part;
    let a = whole.len() as int;
    let joint = whole + part;
    assert(t.take(a) =~= whole);
    assert(t[a] == '.');
    lemma_run(t, whole.len());
    let rest = t.skip(a);
    assert(rest[0] == '.');
    assert(rest.skip(1) =~= part);
    assert(part.take(part.len() as int) =~= part);
    lemma_run(part, part.len());
    assert(rest.subrange(1, 1 + part.len() as int) =~= part);
    assert(rest.skip(1 + part.len() as int) =~= Seq::<char>::empty());
    assert forall|i: int| 0 <= i < joint.len() implies '0' <= #[trigger] joint[i] <= '9' by {
        if i < whole.len() {
            assert(joint[i] == whole[i]);
        } else {
            assert(joint[i] == part[i - whole.len()]);
        }
    }
    lemma_value(joint);
    lemma_tens(part.len());
    let n = value_in_tens(joint) as nat;
    if part.len() == 0 {
        assert(pow10(0) == 1);
        assert(n * 1 == n);
    }
}

/// A quotient is rounded to the whole number that is nearest to it, and to the even one where two are.
pub proof fn law_rounding_to_the_nearest(n: nat, m: nat, other: nat)
    requires
        m > 0,
    ensures
        ({
            let q = div_even(n, m);
            let off = if q * m >= n {
                q * m - n
            } else {
                n - q * m
            };
            let off2 = if other * m >= n {
                other * m - n
            } else {
                n - other * m
            };
            &&& off <= off2
            &&& off == off2 && other != q ==> q % 2 == 0
            &&& 2 * off <= m
        }),
{
    let q = n / m;
    let r = n % m;
    lemma_fundamental_div_mod(n as int, m as int);
    assert(n == q * m + r) by (nonlinear_arith)
        requires
            n == m * q + r,
    ;
    assert((q + 1) * m == q * m + m) by (nonlinear_arith);
    if other <= q {
        assert(other * m <= q * m && (other < q ==> other * m + m <= q * m)) by (nonlinear_arith)
            requires
                other <= q,
        ;
    } else {
        assert((q + 1) * m <= other * m && (other > q + 1 ==> q * m + 2 * m <= other * m))
            by (nonlinear_arith)
            requires
                other >= q + 1,
        ;
    }
}

/// The whole part of a number is the last whole number up to it, within the range of 64 bits.
pub proof fn law_whole_part(x: Real)
    ensures
        !x.is_number() ==> x.to_u64() == 0,
        x.is_number() && x.neg() ==> x.to_u64() == 0,
        x.infinite() && !x.neg() ==> x.to_u64() == u64::MAX,
        x.finite() && !x.neg() ==> x.to_u64() * pow2(UNIT_EXP as nat) <= x.units(),
        x.finite() && !x.neg() && x.to_u64() < u64::MAX ==> x.units() < (x.to_u64() + 1) * pow2(
            UNIT_EXP as nat,
        ),
{
    reveal(Real::spec_to_u64);
    lemma_pow2_pos(UNIT_EXP as nat);
    let p = pow2(UNIT_EXP as nat) as int;
    if x.finite() && !x.neg() {
        let q = x.units() / p;
        let r = x.units() % p;
        lemma_fundamental_div_mod(x.units(), p);
        assert(q * p + r == x.units()) by (nonlinear_arith)
            requires
                x.units() == p * q + r,
        ;
        assert((q + 1) * p == q * p + p) by (nonlinear_arith);
        let m = u64::MAX as int;
        if q > m {
            assert(m * p <= q * p) by (nonlinear_arith)
                requires
                    m <= q,
                    p > 0,
            ;
        }
        assert(0 <= q) by (nonlinear_arith)
            requires
                q * p + r == x.units(),
                x.units() >= 0,
                0 <= r < p,
        ;
    }
}

/// A number is written with as many decimals as asked for, and off by no more than half of the last
/// one; the sign comes first.
pub proof fn law_fixed_decimals(x: Real, d: nat) -> (r: (Seq<char>, Seq<char>))
    requires
        x.finite(),
    ensures
        ({
            let (whole, part) = r;
            let p = pow2(UNIT_EXP as nat);
            let n = value_in_tens(whole) * pow(10, d) + value_in_tens(part);
            let size = if x.neg() {
                -x.units()
            } else {
                x.units()
            };
            &&& fixed_text(x, d) == (if x.neg() {
                seq!['-']
            } else {
                Seq::<char>::empty()
            }) + whole + seq!['.'] + part
            &&& digits_only(whole)
            &&& whole.len() > 0
            &&& digits_only(part)
            &&& part.len() == d
            &&& 2 * (n * p - size * pow(10, d)) <= p
            &&& 2 * (size * pow(10, d) - n * p) <= p
        }),
{
    lemma_tens(d);
    lemma_pow2_pos(UNIT_EXP as nat);
    let p = pow2(UNIT_EXP as nat);
    let n = crate::fixed::scaled_whole(x, d);
    let size = crate::rounding::mag_units(x.mag());
    law_rounding_to_the_nearest(size * pow10(d), p, 0);
    let whole = decimal(n / pow10(d));
    let part = padded(n % pow10(d), d);
    law_decimals_of_numbers(n / pow10(d));
    law_fixed_width(n % pow10(d), d);
    lemma_fundamental_div_mod(n as int, pow10(d) as int);
    assert(n == (n / pow10(d)) * pow10(d) + n % pow10(d)) by (nonlinear_arith)
        requires
            n == pow10(d) * (n / pow10(d)) + n % pow10(d),
    ;
    reveal_strlit(".");
    reveal_strlit("-");
    assert("."@ =~= seq!['.']);
    assert("-"@ =~= seq!['-']);
    let body = whole + seq!['.'] + part;
    if x.neg() {
        assert(seq!['-'] + body =~= seq!['-'] + whole + seq!['.'] + part);
    } else {
        assert(body =~= Seq::<char>::empty() + whole + seq!['.'] + part);
    }
    (whole, part)
}

/// The characters of base64, in their order.
pub open spec fn alphabet() -> Seq<char> {
    "ABCDEFGHIJKLMNOPQRSTUVWXYZabcdefghijklmnopqrstuvwxyz0123456789+/"@
}

/// Four characters of base64 hold three bytes, the first ones highest. One or two bytes at the end
/// take two or three characters, and marks in place of the others.
pub proof fn law_base64(a: u8, b: u8, c: u8, rest: Seq<u8>) -> (r: (int, int, int, int))
    ensures
        ({
            let (w, x, y, z) = r;
            let s = alphabet();
            &&& s.len() == 64
            &&& 0 <= w < 64
            &&& 0 <= x < 64
            &&& 0 <= y < 64
            &&& 0 <= z < 64
            &&& w * 262144 + x * 4096 + y * 64 + z == a * 65536 + b * 256 + c
            &&& base64_of(seq![a, b, c] + rest) == seq![s[w], s[x], s[y], s[z]] + base64_of(rest)
            &&& c == 0 ==> base64_of(seq![a, b]) == seq![s[w], s[x], s[y], '=']
            &&& b == 0 && c == 0 ==> base64_of(seq![a]) == seq![s[w], s[x], '=', '=']
        }),
{
    let (i, j, k) = (a as int, b as int, c as int);
    let w = i / 4;
    let x = i % 4 * 16 + j / 16;
    let y = j % 16 * 4 + k / 64;
    let z = k % 64;
    let all = seq![a, b, c] + rest;
    assert(all.skip(3) =~= rest);
    assert(all[0] == a && all[1] == b && all[2] == c);
    lemma_letter(w);
    lemma_letter(x);
    lemma_letter(y);
    lemma_letter(z);
    let s = alphabet();
    let group = seq![s[w], s[x], s[y], s[z]];
    if rest.len() == 0 {
        assert(group + base64_of(rest) =~= group);
    }
    (w, x, y, z)
}

proof fn lemma_letter(n: int)
    requires
        0 <= n < 64,
    ensures
        alphabet().len() == 64,
        crate::signing::base64_char(n) == alphabet()[n],
{
    reveal_strlit("ABCDEFGHIJKLMNOPQRSTUVWXYZabcdefghijklmnopqrstuvwxyz0123456789+/");
}

/// An exponent of ten behind a number moves its decimal point: to the left behind a minus sign, and to
/// the right otherwise.
pub proof fn law_exponents_are_read(whole: Seq<char>, power: Seq<char>)
    requires
        whole.len() > 0,
        digits_only(whole),
        power.len() > 0,
        digits_only(power),
    ensures
        ({
            let n = value_in_tens(whole) as nat;
            let scale = pow(10, value_in_tens(power) as nat) as nat;
            &&& parsed_real(whole + seq!['e', '-'] + power) == Some(fraction(n, scale))
            &&& parsed_real(whole + seq!['E', '-'] + power) == Some(fraction(n, scale))
            &&& parsed_real(whole + seq!['e'] + power) == Some(fraction(n * scale, 1))
            &&& parsed_real(whole + seq!['e', '+'] + power) == Some(fraction(n * scale, 1))
            &&& parsed_real(whole + seq!['E', '+'] + power) == Some(fraction(n * scale, 1))
        }),
{
    lemma_exponent(whole, seq!['e', '-'], power);
    lemma_exponent(whole, seq!['E', '-'], power);
    lemma_exponent(whole, seq!['e'], power);
    lemma_exponent(whole, seq!['e', '+'], power);
    lemma_exponent(whole, seq!['E', '+'], power);
    lemma_value(power);
    let n = value_in_tens(whole) as nat;
    let k = value_in_tens(power) as nat;
    lemma_tens(k);
    if k == 0 {
        assert(pow10(0) == 1);
        assert(n * 1 == n);
    }
}

proof fn lemma_exponent(whole: Seq<char>, mark: Seq<char>, power: Seq<char>)
    requires
        whole.len() > 0,
        digits_only(whole),
        power.len() > 0,
        digits_only(power),
        mark.len() == 1 || mark.len() == 2,
        mark[0] == 'e' || mark[0] == 'E',
        mark.len() == 2 ==> mark[1] == '-' || mark[1] == '+',
    ensures
        ({
            let n = value_in_tens(whole) as nat;
            let k = value_in_tens(power);
            let e = if mark.len() == 2 && mark[1] == '-' {
                -k
            } else {
                k
            };
            parsed_real(whole + mark + power) == Some(
                crate::number::signed(false, crate::parse::decimal_mag(n, e)),
            )
        }),
{
    let t = whole + mark + power;
    let a = whole.len() as int;
    assert(t[0] == whole[0]);
    assert('0' <= whole[0] <= '9');
    lemma_signs(t);
    assert(t.take(a) =~= whole);
    assert(t[a] == mark[0]);
    lemma_run(t, whole.len());
    let rest = t.skip(a);
    assert(rest =~= mark + power);
    assert(rest[0] == mark[0]);
    let u = rest.skip(1);
    if mark.len() == 2 {
        assert(u[0] == mark[1]);
        assert(u.skip(1) =~= power);
    } else {
        assert(u =~= power);
        assert('0' <= power[0] <= '9');
    }
    assert(all_digits(power)) by {
        assert forall|i: int| 0 <= i < power.len() implies crate::text::is_digit(#[trigger] power[i]) by {
            assert('0' <= power[i] <= '9');
        }
    }
    lemma_value(power);
    lemma_value(whole);
    assert(t.take(a) + Seq::<char>::empty() =~= whole);
}

} // verus!
