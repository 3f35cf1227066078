//! Natural numbers of any size, and the magnitude nearest to a quotient of two of them.

use crate::rounding::binade;
use crate::rounding::lemma_binade;
use crate::rounding::lemma_div_even_by;
use crate::rounding::lemma_div_even_scale;
use crate::rounding::lemma_pow2_53;
use crate::rounding::nearest_mag;
use crate::rounding::BINADE;
use crate::rounding::INF_MAG;
use vstd::arithmetic::power2::lemma_pow2_adds;
use vstd::arithmetic::power2::lemma_pow2_pos;
use vstd::arithmetic::power2::pow2;
use vstd::prelude::*;

verus! {

/// The value of limbs of 32 bits, the lowest first.
pub open spec fn limbs_value(s: Seq<u32>) -> nat
    decreases s.len(),
{
    if s.len() == 0 {
        0
    } else {
        s[0] as nat + 0x1_0000_0000 * limbs_value(s.skip(1))
    }
}

/// Two to the power of 32 times `i`.
spec fn weight(i: nat) -> nat
    decreases i,
{
    if i == 0 {
        1
    } else {
        0x1_0000_0000 * weight((i - 1) as nat)
    }
}

/// A natural number.
pub struct Big {
    pub limbs: Vec<u32>,
}

impl View for Big {
    type V = nat;

    open spec fn view(&self) -> nat {
        limbs_value(self.limbs@)
    }
}

proof fn lemma_limbs_push(s: Seq<u32>, d: u32)
    ensures
        limbs_value(s.push(d)) == limbs_value(s) + weight(s.len()) * d as nat,
    decreases s.len(),
{
    let t = s.push(d);
    if s.len() == 0 {
        assert(t.skip(1) =~= Seq::<u32>::empty());
        assert(limbs_value(t.skip(1)) == 0);
        assert(weight(0) * (d as nat) == d as nat) by (nonlinear_arith)
            requires
                weight(0) == 1,
        ;
    } else {
        assert(t.skip(1) =~= s.skip(1).push(d));
        lemma_limbs_push(s.skip(1), d);
        let w = weight((s.len() - 1) as nat);
        assert((0x1_0000_0000 * w) * (d as nat) == 0x1_0000_0000 * (w * (d as nat))) by (nonlinear_arith);
    }
}

/// The limb at a place, zero past the end.
spec fn limb_at(s: Seq<u32>, i: int) -> nat {
    if 0 <= i < s.len() {
        s[i] as nat
    } else {
        0
    }
}

/// The value of the limbs from a place on.
spec fn tail(s: Seq<u32>, i: int) -> nat {
    if 0 <= i < s.len() {
        limbs_value(s.skip(i))
    } else {
        0
    }
}

proof fn lemma_tail_step(s: Seq<u32>, i: int)
    requires
        i >= 0,
    ensures
        tail(s, i) == limb_at(s, i) + 0x1_0000_0000 * tail(s, i + 1),
{
    if i < s.len() {
        assert(s.skip(i).skip(1) =~= s.skip(i + 1));
        if i + 1 == s.len() {
            assert(s.skip(i + 1).len() == 0);
            assert(limbs_value(s.skip(i + 1)) == 0);
        }
    }
}

proof fn lemma_tail_order(a: Seq<u32>, b: Seq<u32>, i: int)
    requires
        i >= 0,
        tail(a, i) < tail(b, i),
    ensures
        tail(a, 0) < tail(b, 0),
    decreases i,
{
    if i > 0 {
        lemma_tail_step(a, i - 1);
        lemma_tail_step(b, i - 1);
        lemma_tail_order(a, b, i - 1);
    }
}

proof fn lemma_tail_whole(s: Seq<u32>)
    ensures
        tail(s, 0) == limbs_value(s),
{
    assert(s.skip(0) =~= s);
}

impl Big {
    /// The number with one limb.
    pub fn small(n: u32) -> (r: Big)
        ensures
            r@ == n,
    {
        let mut limbs: Vec<u32> = Vec::new();
        limbs.push(n);
        proof {
            assert(limbs@.skip(1) =~= Seq::<u32>::empty());
            assert(limbs_value(limbs@.skip(1)) == 0);
        }
        Big { limbs }
    }

    fn limb(&self, i: usize) -> (r: u32)
        ensures
            r == limb_at(self.limbs@, i as int),
    {
        if i < self.limbs.len() {
            self.limbs[i]
        } else {
            0
        }
    }

    /// The number times `m` plus `d`.
    pub fn times_plus(&self, m: u32, d: u32) -> (r: Big)
        ensures
            r@ == self@ * m + d,
    {
        let mut out: Vec<u32> = Vec::new();
        let mut carry: u32 = d;
        let n: usize = self.limbs.len();
        let mut i: usize = 0;
        proof {
            lemma_tail_whole(self.limbs@);
            let x = self@ * m + d;
            assert(1 * x == x);
        }
        while i < n
            invariant
                i <= n,
                n == self.limbs@.len(),
                out@.len() == i,
                limbs_value(out@) + weight(i as nat) * (tail(self.limbs@, i as int) * m + carry) == self@ * m
                    + d,
            decreases n - i,
        {
            let ghost t = tail(self.limbs@, i as int);
            let ghost u = tail(self.limbs@, i + 1);
            let ghost w = weight(i as nat);
            proof {
                lemma_tail_step(self.limbs@, i as int);
                assert(self.limbs@[i as int] * m <= 0xffff_ffff * 0xffff_ffff) by (nonlinear_arith)
                    requires
                        0 <= self.limbs@[i as int] <= 0xffff_ffff,
                        0 <= m <= 0xffff_ffff,
                ;
            }
            let x: u64 = self.limbs[i] as u64 * m as u64 + carry as u64;
            let low: u32 = (x % 0x1_0000_0000) as u32;
            let high: u32 = (x / 0x1_0000_0000) as u32;
            proof {
                lemma_limbs_push(out@, low);
                let l = self.limbs@[i as int] as nat;
                assert(w * (t * m + carry) == w * low + (0x1_0000_0000 * w) * (u * m + high)) by (nonlinear_arith)
                    requires
                        t == l + 0x1_0000_0000 * u,
                        l * m + carry == low + 0x1_0000_0000 * high,
                ;
            }
            out.push(low);
            carry = high;
            i = i + 1;
        }
        proof {
            lemma_limbs_push(out@, carry);
            assert(tail(self.limbs@, n as int) == 0);
            assert(weight(n as nat) * (0 * m + carry) == weight(n as nat) * (carry as nat)) by (nonlinear_arith);
        }
        if carry > 0 {
            out.push(carry);
        } else {
            proof {
                assert(weight(n as nat) * 0 == 0);
            }
        }
        Big { limbs: out }
    }

    /// Whether the number is at least another.
    pub fn at_least(&self, other: &Big) -> (r: bool)
        ensures
            r == (self@ >= other@),
    {
        let a: usize = self.limbs.len();
        let b: usize = other.limbs.len();
        let mut i: usize = if a > b { a } else { b };
        proof {
            lemma_tail_whole(self.limbs@);
            lemma_tail_whole(other.limbs@);
        }
        while i > 0
            invariant
                tail(self.limbs@, i as int) == tail(other.limbs@, i as int),
                tail(self.limbs@, 0) == self@,
                tail(other.limbs@, 0) == other@,
            decreases i,
        {
            i = i - 1;
            let x: u32 = self.limb(i);
            let y: u32 = other.limb(i);
            proof {
                lemma_tail_step(self.limbs@, i as int);
                lemma_tail_step(other.limbs@, i as int);
            }
            if x != y {
                proof {
                    if x < y {
                        lemma_tail_order(self.limbs@, other.limbs@, i as int);
                    } else {
                        lemma_tail_order(other.limbs@, self.limbs@, i as int);
                    }
                }
                return x > y;
            }
        }
        true
    }

    /// The number less another.
    pub fn less(&self, other: &Big) -> (r: Big)
        requires
            self@ >= other@,
        ensures
            r@ == self@ - other@,
    {
        let mut out: Vec<u32> = Vec::new();
        let mut borrow: u32 = 0;
        let a: usize = self.limbs.len();
        let b: usize = other.limbs.len();
        let n: usize = if a > b { a } else { b };
        let mut i: usize = 0;
        proof {
            lemma_tail_whole(self.limbs@);
            lemma_tail_whole(other.limbs@);
            assert(1 * (self@ - other@ - 0) == self@ - other@);
        }
        while i < n
            invariant
                i <= n,
                n >= self.limbs@.len(),
                n >= other.limbs@.len(),
                out@.len() == i,
                borrow <= 1,
                limbs_value(out@) + weight(i as nat) * (tail(self.limbs@, i as int) - tail(
                    other.limbs@,
                    i as int,
                ) - borrow) == self@ - other@,
            decreases n - i,
        {
            let x: u64 = self.limb(i) as u64;
            let y: u64 = other.limb(i) as u64 + borrow as u64;
            let (d, c): (u64, u32) = if x >= y { (x - y, 0u32) } else { (x + 0x1_0000_0000 - y, 1u32) };
            proof {
                lemma_tail_step(self.limbs@, i as int);
                lemma_tail_step(other.limbs@, i as int);
                lemma_limbs_push(out@, d as u32);
                let w = weight(i as nat);
                let (t, u) = (tail(self.limbs@, i as int), tail(other.limbs@, i as int));
                let (t1, u1) = (tail(self.limbs@, i + 1), tail(other.limbs@, i + 1));
                assert(w * (t - u - borrow) == w * d + (0x1_0000_0000 * w) * (t1 - u1 - c)) by (nonlinear_arith)
                    requires
                        t - u - borrow == d + 0x1_0000_0000 * (t1 - u1 - c),
                ;
            }
            out.push(d as u32);
            borrow = c;
            i = i + 1;
        }
        proof {
            let w = weight(n as nat);
            assert(tail(self.limbs@, n as int) == 0);
            assert(tail(other.limbs@, n as int) == 0);
            lemma_limbs_bound(out@);
            if borrow > 0 {
                assert(w * (0 - 0 - 1) == -w) by (nonlinear_arith);
                assert(false);
            }
            assert(w * (0 - 0 - 0) == 0) by (nonlinear_arith);
        }
        Big { limbs: out }
    }

    /// The number times two to the power of `t`.
    pub fn doubled(self, t: u32) -> (r: Big)
        ensures
            r@ == self@ * pow2(t as nat),
    {
        let ghost start = self@;
        let mut r = self;
        let mut i: u32 = 0;
        proof {
            lemma_pow2_53();
            assert(start * 1 == start);
        }
        while i < t
            invariant
                i <= t,
                r@ == start * pow2(i as nat),
            decreases t - i,
        {
            r = r.times_plus(2, 0);
            proof {
                lemma_pow2_adds(1, i as nat);
                lemma_pow2_53();
                assert((start * pow2(i as nat)) * 2 == start * (2 * pow2(i as nat))) by (nonlinear_arith);
            }
            i = i + 1;
        }
        r
    }
}

proof fn lemma_limbs_bound(s: Seq<u32>)
    ensures
        limbs_value(s) < weight(s.len()),
    decreases s.len(),
{
    if s.len() > 0 {
        lemma_limbs_bound(s.skip(1));
    }
}

/// The magnitude nearest to `n / d` units.
pub fn nearest(n: Big, d: Big) -> (b: u64)
    requires
        d@ > 0,
    ensures
        b == nearest_mag(n@, d@),
        b <= INF_MAG,
{
    let ghost dv = d@;
    let mut den: Big = d.doubled(53);
    let mut k: u64 = 0;
    while k <= 2046 && n.at_least(&den)
        invariant
            k <= 2047,
            dv > 0,
            den@ == dv * pow2((k + 53) as nat),
            k > 0 ==> n@ >= dv * pow2((k + 52) as nat),
        decreases 2047 - k,
    {
        proof {
            lemma_pow2_adds(1, (k + 53) as nat);
            lemma_pow2_53();
            assert((dv * pow2((k + 53) as nat)) * 2 == dv * (2 * pow2((k + 53) as nat))) by (nonlinear_arith);
        }
        den = den.times_plus(2, 0);
        k = k + 1;
    }
    if k > 2046 {
        proof {
            lemma_large(n@, dv, 2047);
        }
        return INF_MAG;
    }
    proof {
        lemma_binade(n@, dv, k as nat);
    }
    let ghost nv = n@;
    let mut rem: Big = n;
    let mut q: u64 = 0;
    let mut i: u32 = 0;
    proof {
        lemma_pow2_53();
        assert(nv * 1 == nv);
        assert(0 * den@ == 0);
    }
    while i < 53
        invariant
            i <= 53,
            q < pow2(i as nat),
            rem@ < den@,
            nv * pow2(i as nat) == q * den@ + rem@,
        decreases 53 - i,
    {
        let ghost r0 = rem@;
        let ghost q0 = q;
        proof {
            lemma_pow2_adds(1, i as nat);
            lemma_pow2_53();
            if i + 1 < 53 {
                vstd::arithmetic::power2::lemma_pow2_strictly_increases((i + 1) as nat, 53);
            }
            assert(nv * (2 * pow2(i as nat)) == 2 * (nv * pow2(i as nat))) by (nonlinear_arith);
            assert((2 * q) * den@ == 2 * (q * den@)) by (nonlinear_arith);
            assert((2 * q + 1) * den@ == 2 * (q * den@) + den@) by (nonlinear_arith);
        }
        rem = rem.times_plus(2, 0);
        if rem.at_least(&den) {
            rem = rem.less(&den);
            q = 2 * q + 1;
        } else {
            q = 2 * q;
        }
        i = i + 1;
    }
    let twice: Big = rem.times_plus(2, 0);
    let above: bool = twice.at_least(&den);
    let tie: bool = above && den.at_least(&twice);
    proof {
        let m = dv * pow2(k as nat);
        lemma_pow2_53();
        lemma_pow2_adds(k as nat, 53);
        lemma_pow2_pos(k as nat);
        assert(m > 0) by (nonlinear_arith)
            requires
                m == dv * pow2(k as nat),
                dv > 0,
                pow2(k as nat) > 0,
        ;
        assert(den@ == m * pow2(53)) by (nonlinear_arith)
            requires
                den@ == dv * pow2((k + 53) as nat),
                pow2((k + 53) as nat) == pow2(k as nat) * pow2(53),
                m == dv * pow2(k as nat),
        ;
        lemma_div_even_scale(nv, m, pow2(53));
        lemma_div_even_by(nv * pow2(53), den@, q as nat, rem@);
        assert(k * BINADE <= 2046 * BINADE) by (nonlinear_arith)
            requires
                k <= 2046,
        ;
    }
    let up: bool = above && !(tie && q % 2 == 0);
    let b: u64 = k * BINADE + q + if up { 1 } else { 0 };
    if b < INF_MAG {
        b
    } else {
        INF_MAG
    }
}

/// A quotient with too many bits is infinite.
pub proof fn lemma_large(n: nat, d: nat, k: nat)
    requires
        d > 0,
        k >= 2047,
        n >= d * pow2((k + 52) as nat),
    ensures
        nearest_mag(n, d) == INF_MAG,
{
    let b = binade(n, d);
    crate::rounding::lemma_binade_bounds(n, d);
    assert(b >= k) by {
        if b < k {
            if b + 53 < k + 52 {
                vstd::arithmetic::power2::lemma_pow2_strictly_increases((b + 53) as nat, (k + 52) as nat);
            }
            assert(d * pow2((b + 53) as nat) <= d * pow2((k + 52) as nat)) by (nonlinear_arith)
                requires
                    pow2((b + 53) as nat) <= pow2((k + 52) as nat),
            ;
        }
    }
    assert(b * (BINADE as nat) >= INF_MAG) by (nonlinear_arith)
        requires
            b >= 2047,
            BINADE == 0x0010_0000_0000_0000,
            INF_MAG == 0x7ff0_0000_0000_0000,
    ;
}

} // verus!
