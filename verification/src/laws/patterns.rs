//! Which setups are found in the newest pivots.

use crate::abc_brc::abcd_in;
use crate::abc_brc::brc_in;
use crate::abc_brc::combined_in;
use crate::abc_brc::AbcdPattern;
use crate::abc_brc::BrcPattern;
use crate::abc_brc::PatternDirection;
use crate::number::Real;
use crate::swing::SwingPoint;
use crate::swing::SwingType;
use vstd::prelude::*;

verus! {

/// Whether two prices are apart, the first below the second.
pub open spec fn under(x: SwingPoint, y: SwingPoint) -> bool {
    x.price.is_number() && y.price.is_number() && x.price.rank() < y.price.rank()
}

/// A correction is found exactly in these two shapes of the newest three pivots: a low, a high and a
/// low between them in price, or a high, a low and a high between them in price. What is found is
/// made of these pivots, and points from A to B.
pub proof fn law_impulse_and_correction(swings: Seq<SwingPoint>, p: AbcdPattern)
    ensures
        swings.len() < 3 ==> abcd_in(swings) is None,
        swings.len() >= 3 ==> {
            let n = swings.len() as int;
            let (a, b, c) = (swings[n - 3], swings[n - 2], swings[n - 1]);
            let up = a.swing_type == SwingType::Low && b.swing_type == SwingType::High && c.swing_type
                == SwingType::Low && under(a, c) && under(c, b);
            let down = a.swing_type == SwingType::High && b.swing_type == SwingType::Low && c.swing_type
                == SwingType::High && under(b, c) && under(c, a);
            &&& abcd_in(swings) is Some <==> up || down
            &&& abcd_in(swings) == Some(p) ==> p.a == a && p.b == b && p.c == c
            &&& abcd_in(swings) == Some(p) && up ==> p.direction == PatternDirection::Bullish
            &&& abcd_in(swings) == Some(p) && down ==> p.direction == PatternDirection::Bearish
        },
{
}

/// Older pivots do not matter to a setup.
pub proof fn law_only_newest_pivots_count(older: Seq<SwingPoint>, newest: Seq<SwingPoint>, ratio: Real)
    ensures
        newest.len() >= 3 ==> abcd_in(older + newest) == abcd_in(newest),
        newest.len() >= 4 ==> brc_in(older + newest, ratio) == brc_in(newest, ratio),
        newest.len() >= 4 ==> combined_in(older + newest, ratio) == combined_in(newest, ratio),
{
    let all = older + newest;
    let (n, m) = (all.len() as int, newest.len() as int);
    if m >= 3 {
        assert(all[n - 1] == newest[m - 1] && all[n - 2] == newest[m - 2] && all[n - 3] == newest[m - 3]);
    }
    if m >= 4 {
        assert(all[n - 4] == newest[m - 4]);
    }
}

/// A break and its retest are found exactly where the newest four pivots alternate, the third goes
/// beyond the first (lower for lows, higher for highs), and the fourth ends no further from the first
/// than the given share of that break.
pub proof fn law_break_and_retest(swings: Seq<SwingPoint>, ratio: Real, p: BrcPattern)
    requires
        swings.len() >= 4,
        forall|i: int| 0 <= i < swings.len() ==> (#[trigger] swings[i]).price.is_number(),
    ensures
        ({
            let n = swings.len() as int;
            let (level, mid, beyond, back) = (
                swings[n - 4],
                swings[n - 3],
                swings[n - 2],
                swings[n - 1],
            );
            let lows = level.swing_type == SwingType::Low && mid.swing_type == SwingType::High
                && beyond.swing_type == SwingType::Low && back.swing_type == SwingType::High;
            let highs = level.swing_type == SwingType::High && mid.swing_type == SwingType::Low
                && beyond.swing_type == SwingType::High && back.swing_type == SwingType::Low;
            let broken = (lows && under(beyond, level)) || (highs && under(level, beyond));
            let reach = beyond.price.minus(level.price).magnitude();
            let miss = back.price.minus(level.price).magnitude();
            &&& brc_in(swings, ratio) is Some <==> {
                &&& broken
                &&& !reach.le(Real::from_u64(0))
                &&& !ratio.lt(miss.over(reach))
            }
            &&& brc_in(swings, ratio) == Some(p) ==> p.level == level && p.mid == mid
                && p.break_point == beyond && p.retest == back
            &&& brc_in(swings, ratio) == Some(p) && lows ==> p.direction == PatternDirection::Bearish
            &&& brc_in(swings, ratio) == Some(p) && highs ==> p.direction == PatternDirection::Bullish
        }),
{
    let n = swings.len() as int;
    assert(swings[n - 4].price.is_number() && swings[n - 2].price.is_number());
}

/// Fewer than four pivots show no break with its retest.
pub proof fn law_break_needs_four_pivots(swings: Seq<SwingPoint>, ratio: Real)
    requires
        swings.len() < 4,
    ensures
        brc_in(swings, ratio) is None,
        combined_in(swings, ratio) is None,
{
}

/// A wider retest finds every setup that a narrower one finds, and the same one.
pub proof fn law_wider_retest_finds_more(swings: Seq<SwingPoint>, narrow: Real, wide: Real)
    requires
        narrow.le(wide),
        brc_in(swings, narrow) is Some,
    ensures
        brc_in(swings, wide) == brc_in(swings, narrow),
{
}

/// Both setups together are found exactly where each is found and they point the same way, and what
/// is found is these two.
pub proof fn law_setups_combine_when_they_agree(
    swings: Seq<SwingPoint>,
    ratio: Real,
    abcd: AbcdPattern,
    brc: BrcPattern,
)
    requires
        abcd_in(swings) == Some(abcd),
        brc_in(swings, ratio) == Some(brc),
    ensures
        (abcd.direction is Bullish && brc.direction is Bullish) || (abcd.direction is Bearish
            && brc.direction is Bearish) ==> (combined_in(swings, ratio) matches Some(c) && c.abcd
            == abcd && c.brc == brc),
        (abcd.direction is Bullish && brc.direction is Bearish) || (abcd.direction is Bearish
            && brc.direction is Bullish) ==> combined_in(swings, ratio) is None,
{
}

/// Where one of the setups is missing, both together are not found.
pub proof fn law_combined_needs_both(swings: Seq<SwingPoint>, ratio: Real)
    requires
        abcd_in(swings) is None || brc_in(swings, ratio) is None,
    ensures
        combined_in(swings, ratio) is None,
{
}

/// The measures of a setup that is found: the correction as a share of the impulse, and the distance
/// of the retest as a share of the break, which is no wider than asked for.
pub proof fn law_measures_of_setups(swings: Seq<SwingPoint>, ratio: Real)
    ensures
        abcd_in(swings) matches Some(p) ==> {
            let (ab, bc) = (
                p.b.price.minus(p.a.price).magnitude(),
                p.c.price.minus(p.b.price).magnitude(),
            );
            &&& p.ab_range() == ab
            &&& p.bc_range() == bc
            &&& p.c_retracement() == if Real::from_u64(0).lt(ab) {
                bc.over(ab)
            } else {
                Real::from_u64(0)
            }
        },
        brc_in(swings, ratio) matches Some(p) ==> {
            &&& p.break_depth() == p.break_point.price.minus(p.level.price).magnitude()
            &&& !p.break_depth().le(Real::from_u64(0))
            &&& !ratio.lt(p.retest_accuracy())
            &&& p.retest_accuracy() == p.retest.price.minus(p.level.price).magnitude().over(
                p.break_depth(),
            )
        },
{
}

/// A break of no depth has no accurate retest.
pub proof fn law_retest_of_no_break(p: BrcPattern)
    ensures
        p.break_depth() == p.break_point.price.minus(p.level.price).magnitude(),
        p.break_depth().le(Real::from_u64(0)) ==> p.retest_accuracy() == Real::from_u64(1),
        !p.break_depth().le(Real::from_u64(0)) ==> p.retest_accuracy() == p.retest.price.minus(
            p.level.price,
        ).magnitude().over(p.break_depth()),
{
}

} // verus!
