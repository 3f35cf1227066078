//! Where the retracements and the targets of an impulse lie.

use crate::fibonacci::law_ladder_steps;
use crate::fibonacci::FibSequence;
use crate::laws::account::down_to;
use crate::number::Real;
use crate::order::fraction;
use vstd::prelude::*;

verus! {

/// The price at a share of the way back from B: below B after an impulse up, above it after one down.
pub open spec fn back_by(f: FibSequence, share: Real) -> Real {
    let one = Real::from_u64(1);
    let range = f.anchor_b.minus(f.anchor_a).magnitude();
    if f.direction is Bullish {
        f.anchor_b.plus(one.negated().times(share).times(range))
    } else {
        f.anchor_b.plus(one.times(share).times(range))
    }
}

/// The price at a share of the impulse beyond B: above B after an impulse up, below it after one down.
pub open spec fn beyond_by(f: FibSequence, share: Real) -> Real {
    let one = Real::from_u64(1);
    let range = f.anchor_b.minus(f.anchor_a).magnitude();
    if f.direction is Bullish {
        f.anchor_b.minus(one.negated().times(share).times(range))
    } else {
        f.anchor_b.minus(one.times(share).times(range))
    }
}

/// Whether a price has come back to a level: down to it after an impulse up, up to it after one down.
pub open spec fn back_at(f: FibSequence, price: Real, level: Real) -> bool {
    if f.direction is Bullish {
        down_to(price, level)
    } else {
        down_to(level, price)
    }
}

/// The zones of entries lie 67.4 and 91 hundredths of the impulse back from B, the third target 95.5
/// hundredths of it beyond B.
pub proof fn law_zones(f: FibSequence, share: Real)
    ensures
        f.retrace_price_at(share) == back_by(f, share),
        f.target_price_at(share) == beyond_by(f, share),
        f.golden_zone() == back_by(f, fraction(674, 1000)),
        f.sniper_zone() == back_by(f, fraction(910, 1000)),
        f.target3() == beyond_by(f, fraction(955, 1000)),
{
    law_ladder_steps();
}

/// The ladder of an impulse has six retracements and three targets, each at its share of the impulse
/// and under its name.
pub proof fn law_ladder_of_an_impulse(f: FibSequence)
    requires
        f.wf(),
    ensures
        f.retracements@.len() == 6,
        f.targets@.len() == 3,
        forall|i: int|
            0 <= i < 6 ==> (#[trigger] f.retracements@[i]).price == back_by(
                f,
                f.retracements@[i].fraction,
            ),
        forall|i: int|
            0 <= i < 3 ==> (#[trigger] f.targets@[i]).price == beyond_by(f, f.targets@[i].fraction),
        f.retracements@[0].fraction == fraction(236, 1000),
        f.retracements@[1].fraction == fraction(382, 1000),
        f.retracements@[2].fraction == fraction(528, 1000),
        f.retracements@[3].fraction == fraction(674, 1000),
        f.retracements@[4].fraction == fraction(820, 1000),
        f.retracements@[5].fraction == fraction(910, 1000),
        f.targets@[0].fraction == fraction(305, 1000),
        f.targets@[1].fraction == fraction(629, 1000),
        f.targets@[2].fraction == fraction(955, 1000),
        f.retracements@[0].label@ == "23.6% Aggressive"@,
        f.retracements@[1].label@ == "38.2% Fast"@,
        f.retracements@[2].label@ == "52.8% Medium"@,
        f.retracements@[3].label@ == "67.4% Golden"@,
        f.retracements@[4].label@ == "82% Gradual"@,
        f.retracements@[5].label@ == "91% Sniper"@,
        f.targets@[0].label@ == "Target 1"@,
        f.targets@[1].label@ == "Target 2"@,
        f.targets@[2].label@ == "Target 3"@,
{
    law_ladder_steps();
}

/// A level is reached by a price that has come back to it, and the deepest level is the last one that
/// is reached.
pub proof fn law_levels_are_reached(f: FibSequence, price: Real, level: Real)
    ensures
        f.reaches(price, level) <==> back_at(f, price, level),
        -1 <= f.deepest_place(price) < f.retracements@.len(),
        f.deepest_place(price) >= 0 ==> back_at(
            f,
            price,
            f.retracements@[f.deepest_place(price)].price,
        ),
        forall|i: int|
            f.deepest_place(price) < i < f.retracements@.len() ==> !back_at(
                f,
                price,
                (#[trigger] f.retracements@[i]).price,
            ),
{
    lemma_deepest(f, price, f.retracements@.len());
}

proof fn lemma_deepest(f: FibSequence, price: Real, n: nat)
    requires
        n <= f.retracements@.len(),
    ensures
        -1 <= f.deepest_of(price, n) < n,
        f.deepest_of(price, n) >= 0 ==> back_at(
            f,
            price,
            f.retracements@[f.deepest_of(price, n)].price,
        ),
        forall|i: int|
            f.deepest_of(price, n) < i < n ==> !back_at(
                f,
                price,
                (#[trigger] f.retracements@[i]).price,
            ),
    decreases n,
{
    if n > 0 {
        lemma_deepest(f, price, (n - 1) as nat);
    }
}

} // verus!
