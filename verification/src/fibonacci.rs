//! The ladder of retracements and targets on the impulse of a pattern.

use crate::abc_brc::AbcdPattern;
use crate::abc_brc::PatternDirection;
use crate::fixed::fixed_text;
use crate::number::Real;
use crate::order::fraction;
use crate::order::law_plus_keeps_order;
use crate::order::law_times_commutes;
use crate::order::law_times_keeps_order;
use crate::order::lemma_fraction;
use vstd::arithmetic::power2::lemma2_to64;
use vstd::arithmetic::power2::lemma2_to64_rest;
use vstd::prelude::*;
use vstd::string::*;

verus! {

/// The bits of 0.236.
pub const FIB_RETRACE_AGGRESSIVE: u64 = 0x3fce_353f_7ced_9168;

/// The bits of 0.382.
pub const FIB_RETRACE_FAST: u64 = 0x3fd8_72b0_20c4_9ba6;

/// The bits of 0.528.
pub const FIB_RETRACE_MEDIUM: u64 = 0x3fe0_e560_4189_374c;

/// The bits of 0.674: the primary entry.
pub const FIB_RETRACE_GOLDEN: u64 = 0x3fe5_9168_72b0_20c5;

/// The bits of 0.820.
pub const FIB_RETRACE_GRADUAL: u64 = 0x3fea_3d70_a3d7_0a3d;

/// The bits of 0.910: the entry that adds to an open position.
pub const FIB_RETRACE_SNIPER: u64 = 0x3fed_1eb8_51eb_851f;

/// The bits of 0.305.
pub const FIB_TARGET_1: u64 = 0x3fd3_851e_b851_eb85;

/// The bits of 0.629.
pub const FIB_TARGET_2: u64 = 0x3fe4_20c4_9ba5_e354;

/// The bits of 0.955.
pub const FIB_TARGET_3: u64 = 0x3fee_8f5c_28f5_c28f;

/// The steps of the ladder are the numbers nearest to their decimals.
pub proof fn law_ladder_steps()
    ensures
        fraction(236, 1000).bits == FIB_RETRACE_AGGRESSIVE,
        fraction(382, 1000).bits == FIB_RETRACE_FAST,
        fraction(528, 1000).bits == FIB_RETRACE_MEDIUM,
        fraction(674, 1000).bits == FIB_RETRACE_GOLDEN,
        fraction(820, 1000).bits == FIB_RETRACE_GRADUAL,
        fraction(910, 1000).bits == FIB_RETRACE_SNIPER,
        fraction(305, 1000).bits == FIB_TARGET_1,
        fraction(629, 1000).bits == FIB_TARGET_2,
        fraction(955, 1000).bits == FIB_TARGET_3,
{
    lemma2_to64();
    lemma2_to64_rest();
    lemma_fraction(236, 1000, 55, 0x1e353f7ced9168);
    lemma_fraction(382, 1000, 54, 0x1872b020c49ba6);
    lemma_fraction(528, 1000, 53, 0x10e5604189374c);
    lemma_fraction(674, 1000, 53, 0x15916872b020c5);
    lemma_fraction(820, 1000, 53, 0x1a3d70a3d70a3d);
    lemma_fraction(910, 1000, 53, 0x1d1eb851eb851f);
    lemma_fraction(305, 1000, 54, 0x13851eb851eb85);
    lemma_fraction(629, 1000, 53, 0x1420c49ba5e354);
    lemma_fraction(955, 1000, 53, 0x1e8f5c28f5c28f);
}

/// One step of the ladder.
#[derive(Debug, Clone, Copy)]
pub struct FibLevel {
    pub fraction: Real,
    pub price: Real,
    pub label: &'static str,
}

impl FibLevel {
    /// The step on one line.
    pub fn to_text(&self) -> (s: String)
        ensures
            s@ == self.label@ + " ("@ + fixed_text(self.fraction.times(Real::from_u64(100)), 1) + "%): $"@
                + fixed_text(self.price, 2),
    {
        let mut s = self.label.to_owned();
        s.append(" (");
        s.append(self.fraction.times(Real::from_u64(100)).fixed(1).as_str());
        s.append("%): $");
        s.append(self.price.fixed(2).as_str());
        s
    }
}

/// The sign of a retracement: down for a bullish impulse, up for a bearish one.
pub open spec fn retrace_sign(direction: PatternDirection) -> Real {
    match direction {
        PatternDirection::Bullish => Real::from_u64(1).negated(),
        PatternDirection::Bearish => Real::from_u64(1),
    }
}

/// The length of an impulse.
pub open spec fn leg_range(a: Real, b: Real) -> Real {
    b.minus(a).magnitude()
}

/// The price at a fraction of the way back from B to A.
pub open spec fn retraced(a: Real, b: Real, direction: PatternDirection, f: Real) -> Real {
    b.plus(retrace_sign(direction).times(f).times(leg_range(a, b)))
}

/// The price at a fraction of the impulse beyond B.
pub open spec fn extended(a: Real, b: Real, direction: PatternDirection, f: Real) -> Real {
    b.minus(retrace_sign(direction).times(f).times(leg_range(a, b)))
}

/// The fractions of the retracements, the shallowest first.
pub open spec fn retrace_steps() -> Seq<u64> {
    seq![
        FIB_RETRACE_AGGRESSIVE,
        FIB_RETRACE_FAST,
        FIB_RETRACE_MEDIUM,
        FIB_RETRACE_GOLDEN,
        FIB_RETRACE_GRADUAL,
        FIB_RETRACE_SNIPER,
    ]
}

/// The names of the retracements.
pub open spec fn retrace_labels() -> Seq<Seq<char>> {
    seq![
        "23.6% Aggressive"@,
        "38.2% Fast"@,
        "52.8% Medium"@,
        "67.4% Golden"@,
        "82% Gradual"@,
        "91% Sniper"@,
    ]
}

/// The fractions of the targets, the nearest first.
pub open spec fn target_steps() -> Seq<u64> {
    seq![FIB_TARGET_1, FIB_TARGET_2, FIB_TARGET_3]
}

/// The names of the targets.
pub open spec fn target_labels() -> Seq<Seq<char>> {
    seq!["Target 1"@, "Target 2"@, "Target 3"@]
}

/// The ladder of one impulse.
#[derive(Debug, Clone)]
pub struct FibSequence {
    pub anchor_a: Real,
    pub anchor_b: Real,
    pub direction: PatternDirection,
    pub retracements: Vec<FibLevel>,
    pub targets: Vec<FibLevel>,
}

impl FibSequence {
    /// Whether the steps are those of the impulse.
    pub open spec fn wf(self) -> bool {
        let (a, b, d) = (self.anchor_a, self.anchor_b, self.direction);
        &&& self.retracements@.len() == 6
        &&& forall|i: int|
            0 <= i < 6 ==> {
                &&& (#[trigger] self.retracements@[i]).fraction.bits == retrace_steps()[i]
                &&& self.retracements@[i].price == retraced(a, b, d, self.retracements@[i].fraction)
                &&& self.retracements@[i].label@ == retrace_labels()[i]
            }
        &&& self.targets@.len() == 3
        &&& forall|i: int|
            0 <= i < 3 ==> {
                &&& (#[trigger] self.targets@[i]).fraction.bits == target_steps()[i]
                &&& self.targets@[i].price == extended(a, b, d, self.targets@[i].fraction)
                &&& self.targets@[i].label@ == target_labels()[i]
            }
    }

    /// The ladder of the impulse from one price to another.
    pub fn from_leg(a_price: Real, b_price: Real, direction: PatternDirection) -> (r: Self)
        ensures
            r.anchor_a == a_price,
            r.anchor_b == b_price,
            r.direction == direction,
            r.wf(),
    {
        let range: Real = b_price.minus(a_price).magnitude();
        let retrace_dir: Real = Self::retrace_direction(direction);
        let target_dir: Real = retrace_dir.negated();
        let mut retracements: Vec<FibLevel> = Vec::new();
        retracements.push(level(b_price, retrace_dir, range, FIB_RETRACE_AGGRESSIVE, "23.6% Aggressive"));
        retracements.push(level(b_price, retrace_dir, range, FIB_RETRACE_FAST, "38.2% Fast"));
        retracements.push(level(b_price, retrace_dir, range, FIB_RETRACE_MEDIUM, "52.8% Medium"));
        retracements.push(level(b_price, retrace_dir, range, FIB_RETRACE_GOLDEN, "67.4% Golden"));
        retracements.push(level(b_price, retrace_dir, range, FIB_RETRACE_GRADUAL, "82% Gradual"));
        retracements.push(level(b_price, retrace_dir, range, FIB_RETRACE_SNIPER, "91% Sniper"));
        let mut targets: Vec<FibLevel> = Vec::new();
        targets.push(level(b_price, target_dir, range, FIB_TARGET_1, "Target 1"));
        targets.push(level(b_price, target_dir, range, FIB_TARGET_2, "Target 2"));
        targets.push(level(b_price, target_dir, range, FIB_TARGET_3, "Target 3"));
        proof {
            lemma_opposite_step(b_price, retrace_dir, Real { bits: FIB_TARGET_1 }, range);
            lemma_opposite_step(b_price, retrace_dir, Real { bits: FIB_TARGET_2 }, range);
            lemma_opposite_step(b_price, retrace_dir, Real { bits: FIB_TARGET_3 }, range);
        }
        FibSequence { anchor_a: a_price, anchor_b: b_price, direction, retracements, targets }
    }

    /// The ladder of a pattern's impulse.
    pub fn from_pattern(pattern: &AbcdPattern) -> (r: Self)
        ensures
            r.anchor_a == pattern.a.price,
            r.anchor_b == pattern.b.price,
            r.direction == pattern.direction,
            r.wf(),
    {
        Self::from_leg(pattern.a.price, pattern.b.price, pattern.direction)
    }

    fn retrace_direction(direction: PatternDirection) -> (r: Real)
        ensures
            r == retrace_sign(direction),
    {
        match direction {
            PatternDirection::Bullish => Real::from_u64(1).negated(),
            PatternDirection::Bearish => Real::from_u64(1),
        }
    }

    pub open spec fn spec_retrace_price_at(&self, f: Real) -> Real {
        retraced(self.anchor_a, self.anchor_b, self.direction, f)
    }

    /// The price at a fraction of the way back.
    #[verifier::when_used_as_spec(spec_retrace_price_at)]
    pub fn retrace_price_at(&self, fraction: Real) -> (r: Real)
        ensures
            r == self.spec_retrace_price_at(fraction),
    {
        let range: Real = self.anchor_b.minus(self.anchor_a).magnitude();
        self.anchor_b.plus(Self::retrace_direction(self.direction).times(fraction).times(range))
    }

    pub open spec fn spec_target_price_at(&self, f: Real) -> Real {
        extended(self.anchor_a, self.anchor_b, self.direction, f)
    }

    /// The price at a fraction of the impulse beyond B.
    #[verifier::when_used_as_spec(spec_target_price_at)]
    pub fn target_price_at(&self, fraction: Real) -> (r: Real)
        ensures
            r == self.spec_target_price_at(fraction),
    {
        let range: Real = self.anchor_b.minus(self.anchor_a).magnitude();
        self.anchor_b.minus(Self::retrace_direction(self.direction).times(fraction).times(range))
    }

    pub open spec fn spec_golden_zone(&self) -> Real {
        self.retrace_price_at(Real { bits: FIB_RETRACE_GOLDEN })
    }

    /// The price of the primary entry.
    #[verifier::when_used_as_spec(spec_golden_zone)]
    pub fn golden_zone(&self) -> (r: Real)
        ensures
            r == self.spec_golden_zone(),
    {
        self.retrace_price_at(Real { bits: FIB_RETRACE_GOLDEN })
    }

    pub open spec fn spec_sniper_zone(&self) -> Real {
        self.retrace_price_at(Real { bits: FIB_RETRACE_SNIPER })
    }

    /// The price of the entry that adds to an open position.
    #[verifier::when_used_as_spec(spec_sniper_zone)]
    pub fn sniper_zone(&self) -> (r: Real)
        ensures
            r == self.spec_sniper_zone(),
    {
        self.retrace_price_at(Real { bits: FIB_RETRACE_SNIPER })
    }

    /// The price of the first target.
    pub fn target1(&self) -> (r: Real)
        ensures
            r == self.target_price_at(Real { bits: FIB_TARGET_1 }),
    {
        self.target_price_at(Real { bits: FIB_TARGET_1 })
    }

    /// The price of the second target.
    pub fn target2(&self) -> (r: Real)
        ensures
            r == self.target_price_at(Real { bits: FIB_TARGET_2 }),
    {
        self.target_price_at(Real { bits: FIB_TARGET_2 })
    }

    pub open spec fn spec_target3(&self) -> Real {
        self.target_price_at(Real { bits: FIB_TARGET_3 })
    }

    /// The price of the third target.
    #[verifier::when_used_as_spec(spec_target3)]
    pub fn target3(&self) -> (r: Real)
        ensures
            r == self.spec_target3(),
    {
        self.target_price_at(Real { bits: FIB_TARGET_3 })
    }

    /// The length of the impulse.
    pub fn range(&self) -> (r: Real)
        ensures
            r == leg_range(self.anchor_a, self.anchor_b),
    {
        self.anchor_b.minus(self.anchor_a).magnitude()
    }

    /// Whether a price has come back as far as a level.
    pub open spec fn reaches(&self, price: Real, level: Real) -> bool {
        match self.direction {
            PatternDirection::Bullish => price.le(level),
            PatternDirection::Bearish => level.le(price),
        }
    }

    /// Whether a price has come back to the primary entry or beyond.
    pub fn is_valid_entry(&self, price: Real) -> (r: bool)
        ensures
            r == self.reaches(price, self.golden_zone()),
    {
        let golden: Real = self.golden_zone();
        match self.direction {
            PatternDirection::Bullish => price.le(golden),
            PatternDirection::Bearish => golden.le(price),
        }
    }

    /// Whether a price has come back to the adding entry or beyond.
    pub fn is_sniper_zone(&self, price: Real) -> (r: bool)
        ensures
            r == self.reaches(price, self.sniper_zone()),
    {
        let sniper: Real = self.sniper_zone();
        match self.direction {
            PatternDirection::Bullish => price.le(sniper),
            PatternDirection::Bearish => sniper.le(price),
        }
    }

    /// The place of the last of the first `n` retracements that a price has reached, and -1 where
    /// it has reached none.
    pub open spec fn deepest_of(&self, price: Real, n: nat) -> int
        decreases n,
    {
        if n == 0 {
            -1
        } else if self.reaches(price, self.retracements@[n - 1].price) {
            n - 1
        } else {
            self.deepest_of(price, (n - 1) as nat)
        }
    }

    /// The place of the last retracement that a price has reached, and -1 where it has reached
    /// none.
    pub open spec fn deepest_place(&self, price: Real) -> int {
        self.deepest_of(price, self.retracements@.len())
    }

    /// The last retracement of the ladder that a price has reached.
    pub fn deepest_reached(&self, price: Real) -> (r: Option<&FibLevel>)
        ensures
            match r {
                Some(l) => {
                    let k = self.deepest_place(price);
                    &&& 0 <= k < self.retracements@.len()
                    &&& *l == self.retracements@[k]
                    &&& self.reaches(price, l.price)
                    &&& forall|i: int|
                        k < i < self.retracements@.len() ==> !self.reaches(
                            price,
                            (#[trigger] self.retracements@[i]).price,
                        )
                },
                None => {
                    &&& self.deepest_place(price) == -1
                    &&& forall|i: int|
                        0 <= i < self.retracements@.len() ==> !self.reaches(
                            price,
                            (#[trigger] self.retracements@[i]).price,
                        )
                },
            },
    {
        let mut i: usize = self.retracements.len();
        while i > 0
            invariant
                i <= self.retracements@.len(),
                self.deepest_of(price, i as nat) == self.deepest_place(price),
                forall|j: int|
                    i <= j < self.retracements@.len() ==> !self.reaches(
                        price,
                        (#[trigger] self.retracements@[j]).price,
                    ),
            decreases i,
        {
            i = i - 1;
            let l: &FibLevel = &self.retracements[i];
            let reached: bool = match self.direction {
                PatternDirection::Bullish => price.le(l.price),
                PatternDirection::Bearish => l.price.le(price),
            };
            if reached {
                return Some(l);
            }
        }
        None
    }

    /// The ladder on one line.
    pub fn to_text(&self) -> (s: String)
        ensures
            s@ == self.direction.text() + " FibSequence A:$"@ + fixed_text(self.anchor_a, 2) + " B:$"@
                + fixed_text(self.anchor_b, 2) + " | Golden: $"@ + fixed_text(self.golden_zone(), 2)
                + " | Sniper: $"@ + fixed_text(self.sniper_zone(), 2) + " | T3: $"@ + fixed_text(
                self.target3(),
                2,
            ),
    {
        let mut s = self.direction.to_text();
        s.append(" FibSequence A:$");
        s.append(self.anchor_a.fixed(2).as_str());
        s.append(" B:$");
        s.append(self.anchor_b.fixed(2).as_str());
        s.append(" | Golden: $");
        s.append(self.golden_zone().fixed(2).as_str());
        s.append(" | Sniper: $");
        s.append(self.sniper_zone().fixed(2).as_str());
        s.append(" | T3: $");
        s.append(self.target3().fixed(2).as_str());
        s
    }
}

/// One step of a ladder.
fn level(b: Real, dir: Real, range: Real, bits: u64, label: &'static str) -> (r: FibLevel)
    ensures
        r.fraction.bits == bits,
        r.price == b.plus(dir.times(r.fraction).times(range)),
        r.label@ == label@,
{
    let fraction = Real { bits };
    FibLevel { fraction, price: b.plus(dir.times(fraction).times(range)), label }
}

/// A step in the opposite direction is the step taken off.
proof fn lemma_opposite_step(b: Real, dir: Real, f: Real, range: Real)
    ensures
        b.plus(dir.negated().times(f).times(range)) == b.minus(dir.times(f).times(range)),
{
    reveal(Real::spec_plus);
    reveal(Real::spec_times);
    lemma_negated_product(dir, f);
    let x = dir.times(f);
    lemma_negated_product(x, range);
    if x.is_number() {
        assert(dir.negated().times(f) == x.negated());
    }
}

/// The sign of a factor is the sign of the product, when the product is a number.
proof fn lemma_negated_product(a: Real, b: Real)
    ensures
        a.times(b).is_number() == a.negated().times(b).is_number(),
        a.times(b).is_number() ==> a.negated().times(b) == a.times(b).negated(),
{
    reveal(Real::spec_times);
    assert(a.negated().mag() == a.mag());
    assert(a.negated().neg() == !a.neg());
}

/// A deeper retracement is not a shallower price: further down for a bullish impulse, further
/// up for a bearish one.
pub proof fn law_retracement_is_monotone(seq: FibSequence, f: Real, g: Real)
    requires
        f.finite(),
        g.finite(),
        f.le(g),
        seq.anchor_b.finite(),
        leg_range(seq.anchor_a, seq.anchor_b).finite(),
    ensures
        seq.direction == PatternDirection::Bullish ==> seq.retrace_price_at(g).le(
            seq.retrace_price_at(f),
        ),
        seq.direction == PatternDirection::Bearish ==> seq.retrace_price_at(f).le(
            seq.retrace_price_at(g),
        ),
{
    let one = Real::from_u64(1);
    let range = leg_range(seq.anchor_a, seq.anchor_b);
    lemma_one();
    lemma_times_one(f);
    lemma_times_one(g);
    law_times_commutes(one, f);
    law_times_commutes(one, g);
    lemma_negated_product(one, f);
    lemma_negated_product(one, g);
    let x = retrace_sign(seq.direction).times(f);
    let y = retrace_sign(seq.direction).times(g);
    assert(x.mag() == f.mag() && y.mag() == g.mag());
    match seq.direction {
        PatternDirection::Bullish => {
            law_times_keeps_order(y, x, range);
            law_plus_keeps_order(y.times(range), x.times(range), seq.anchor_b);
        },
        PatternDirection::Bearish => {
            law_times_keeps_order(x, y, range);
            law_plus_keeps_order(x.times(range), y.times(range), seq.anchor_b);
        },
    }
}

/// One is a finite positive number.
pub proof fn lemma_one()
    ensures
        Real::from_u64(1) == (Real { bits: 0x3ff0_0000_0000_0000 }),
{
    reveal(Real::spec_from_u64);
    let x = Real { bits: 0x3ff0_0000_0000_0000 };
    lemma2_to64();
    lemma2_to64_rest();
    vstd::arithmetic::power2::lemma_pow2_adds(52, 1022);
    crate::order::law_numbers_round_to_themselves(x, 1);
    assert(x.mag() == 0x3ff0_0000_0000_0000);
    assert(crate::rounding::mag_units(x.mag()) == 0x10_0000_0000_0000 * vstd::arithmetic::power2::pow2(1022));
}

/// The adding entry lies at or beyond the primary one: a price that has reached the sniper zone
/// is a valid entry.
pub proof fn law_sniper_zone_is_valid_entry(seq: FibSequence, price: Real)
    requires
        seq.anchor_b.finite(),
        leg_range(seq.anchor_a, seq.anchor_b).finite(),
        seq.reaches(price, seq.sniper_zone()),
    ensures
        seq.reaches(price, seq.golden_zone()),
{
    let f = Real { bits: FIB_RETRACE_GOLDEN };
    let g = Real { bits: FIB_RETRACE_SNIPER };
    law_retracement_is_monotone(seq, f, g);
}

/// One is neutral for products of finite numbers.
proof fn lemma_times_one(x: Real)
    requires
        x.finite(),
    ensures
        x.times(Real::from_u64(1)) == x,
{
    reveal(Real::spec_times);
    lemma_one();
    let one = Real { bits: 0x3ff0_0000_0000_0000 };
    lemma2_to64();
    lemma2_to64_rest();
    vstd::arithmetic::power2::lemma_pow2_adds(52, 1022);
    vstd::arithmetic::power2::lemma_pow2_pos(1074);
    assert(crate::rounding::mag_units(one.mag()) == vstd::arithmetic::power2::pow2(1074));
    crate::order::law_numbers_round_to_themselves(x, vstd::arithmetic::power2::pow2(1074));
}

/// A price that is at least as deep as another has reached no shallower a retracement.
pub proof fn law_deeper_prices_reach_no_less(seq: FibSequence, price: Real, deeper: Real)
    requires
        seq.reaches(deeper, price),
    ensures
        seq.deepest_place(deeper) >= seq.deepest_place(price),
{
    lemma_deeper(seq, price, deeper, seq.retracements@.len());
}

/// The deepest retracement that a price has reached is the one of the greatest fraction: the price
/// has reached all up to it and none beyond. None is reached exactly where the first is not.
pub proof fn law_deepest_is_of_greatest_fraction(seq: FibSequence, price: Real)
    requires
        seq.wf(),
        seq.anchor_b.finite(),
        leg_range(seq.anchor_a, seq.anchor_b).finite(),
    ensures
        -1 <= seq.deepest_place(price) < 6,
        forall|i: int|
            0 <= i < 6 ==> (seq.reaches(price, (#[trigger] seq.retracements@[i]).price) <==> i
                <= seq.deepest_place(price)),
        forall|i: int, j: int|
            0 <= i < j < 6 ==> (#[trigger] seq.retracements@[i]).fraction.lt(
                (#[trigger] seq.retracements@[j]).fraction,
            ),
        seq.deepest_place(price) == -1 <==> !seq.reaches(price, seq.retracements@[0].price),
{
    lemma_place_is_reached(seq, price, 6);
    let k = seq.deepest_place(price);
    assert forall|i: int| 0 <= i <= k implies seq.reaches(
        price,
        (#[trigger] seq.retracements@[i]).price,
    ) by {
        let f = seq.retracements@[i].fraction;
        let g = seq.retracements@[k].fraction;
        assert(retrace_steps()[i] <= retrace_steps()[k]);
        law_retracement_is_monotone(seq, f, g);
    }
}

proof fn lemma_place_is_reached(seq: FibSequence, price: Real, n: nat)
    requires
        n <= seq.retracements@.len(),
    ensures
        -1 <= seq.deepest_of(price, n) < n,
        seq.deepest_of(price, n) >= 0 ==> seq.reaches(
            price,
            seq.retracements@[seq.deepest_of(price, n)].price,
        ),
        forall|i: int|
            seq.deepest_of(price, n) < i < n ==> !seq.reaches(
                price,
                (#[trigger] seq.retracements@[i]).price,
            ),
    decreases n,
{
    if n > 0 {
        lemma_place_is_reached(seq, price, (n - 1) as nat);
    }
}

proof fn lemma_deeper(seq: FibSequence, price: Real, deeper: Real, n: nat)
    requires
        seq.reaches(deeper, price),
    ensures
        -1 <= seq.deepest_of(price, n) < n,
        seq.deepest_of(deeper, n) >= seq.deepest_of(price, n),
    decreases n,
{
    if n > 0 {
        lemma_deeper(seq, price, deeper, (n - 1) as nat);
    }
}

} // verus!
