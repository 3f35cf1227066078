//! Recognition of trade setups in the newest pivots.
//!
//! An ABCD pattern is an impulse from A to B and a correction from B to C. A BRC pattern is a
//! break of a level, and a retest of it from the other side.

use crate::fixed::fixed_text;
use crate::number::Real;
use crate::swing::SwingDetector;
use crate::swing::SwingPoint;
use crate::swing::SwingType;
use vstd::prelude::*;
use vstd::string::*;

verus! {

/// Which way a setup expects prices to go.
#[derive(Debug, Clone, Copy, PartialEq, Eq, Structural)]
pub enum PatternDirection {
    Bullish,
    Bearish,
}

impl PatternDirection {
    pub open spec fn text(self) -> Seq<char> {
        match self {
            PatternDirection::Bullish => "BULLISH"@,
            PatternDirection::Bearish => "BEARISH"@,
        }
    }

    /// The name of the direction.
    pub fn to_text(&self) -> (s: String)
        ensures
            s@ == self.text(),
    {
        match self {
            PatternDirection::Bullish => "BULLISH".to_owned(),
            PatternDirection::Bearish => "BEARISH".to_owned(),
        }
    }
}

/// An impulse from A to B and a correction to C.
#[derive(Debug, Clone, Copy, PartialEq, Eq, Structural)]
pub struct AbcdPattern {
    pub direction: PatternDirection,
    pub a: SwingPoint,
    pub b: SwingPoint,
    pub c: SwingPoint,
}

impl AbcdPattern {
    pub open spec fn spec_ab_range(&self) -> Real {
        self.b.price.minus(self.a.price).magnitude()
    }

    /// The length of the impulse.
    #[verifier::when_used_as_spec(spec_ab_range)]
    pub fn ab_range(&self) -> (r: Real)
        ensures
            r == self.spec_ab_range(),
    {
        self.b.price.minus(self.a.price).magnitude()
    }

    pub open spec fn spec_bc_range(&self) -> Real {
        self.c.price.minus(self.b.price).magnitude()
    }

    /// The length of the correction.
    #[verifier::when_used_as_spec(spec_bc_range)]
    pub fn bc_range(&self) -> (r: Real)
        ensures
            r == self.spec_bc_range(),
    {
        self.c.price.minus(self.b.price).magnitude()
    }

    pub open spec fn spec_c_retracement(&self) -> Real {
        if Real::from_u64(0).lt(self.ab_range()) {
            self.bc_range().over(self.ab_range())
        } else {
            Real::from_u64(0)
        }
    }

    /// The share of the impulse that the correction takes back; zero for an empty impulse.
    #[verifier::when_used_as_spec(spec_c_retracement)]
    pub fn c_retracement(&self) -> (r: Real)
        ensures
            r == self.spec_c_retracement(),
    {
        let ab: Real = self.ab_range();
        if Real::from_u64(0).lt(ab) {
            self.bc_range().over(ab)
        } else {
            Real::from_u64(0)
        }
    }

    /// Whether the setup expects rising prices.
    pub fn is_bullish(&self) -> (r: bool)
        ensures
            r == (self.direction == PatternDirection::Bullish),
    {
        self.direction == PatternDirection::Bullish
    }

    /// Whether the setup expects falling prices.
    pub fn is_bearish(&self) -> (r: bool)
        ensures
            r == (self.direction == PatternDirection::Bearish),
    {
        self.direction == PatternDirection::Bearish
    }

    /// The pattern on one line.
    pub fn to_text(&self) -> (s: String)
        ensures
            s@ == self.direction.text() + " ABCD A:$"@ + fixed_text(self.a.price, 2) + " B:$"@ + fixed_text(
                self.b.price,
                2,
            ) + " C:$"@ + fixed_text(self.c.price, 2) + " (retrace "@ + fixed_text(
                self.c_retracement().times(Real::from_u64(100)),
                1,
            ) + "%)"@,
    {
        let mut s = self.direction.to_text();
        s.append(" ABCD A:$");
        s.append(self.a.price.fixed(2).as_str());
        s.append(" B:$");
        s.append(self.b.price.fixed(2).as_str());
        s.append(" C:$");
        s.append(self.c.price.fixed(2).as_str());
        s.append(" (retrace ");
        s.append(self.c_retracement().times(Real::from_u64(100)).fixed(1).as_str());
        s.append("%)");
        s
    }
}

/// The ABCD pattern that three pivots form: bearish when a high, a low and a lower high follow
/// each other, bullish when a low, a high and a higher low do.
pub open spec fn abcd_of(a: SwingPoint, b: SwingPoint, c: SwingPoint) -> Option<AbcdPattern> {
    if a.is_high() && b.is_low() && c.is_high() && b.price.lt(a.price) && b.price.lt(c.price)
        && c.price.lt(a.price) {
        Some(AbcdPattern { direction: PatternDirection::Bearish, a, b, c })
    } else if a.is_low() && b.is_high() && c.is_low() && a.price.lt(b.price) && c.price.lt(b.price)
        && a.price.lt(c.price) {
        Some(AbcdPattern { direction: PatternDirection::Bullish, a, b, c })
    } else {
        None
    }
}

/// The ABCD pattern in the newest three of some pivots.
pub open spec fn abcd_in(swings: Seq<SwingPoint>) -> Option<AbcdPattern> {
    let n = swings.len() as int;
    if n < 3 {
        None
    } else {
        abcd_of(swings[n - 3], swings[n - 2], swings[n - 1])
    }
}

/// Looks for an ABCD pattern in the newest three pivots.
pub fn detect_abcd(detector: &SwingDetector) -> (r: Option<AbcdPattern>)
    ensures
        r == abcd_in(detector@.confirmed),
{
    let swings: Vec<&SwingPoint> = detector.recent(3);
    if swings.len() < 3 {
        return None;
    }
    let a: SwingPoint = *swings[0];
    let b: SwingPoint = *swings[1];
    let c: SwingPoint = *swings[2];
    if a.swing_type == b.swing_type || b.swing_type == c.swing_type {
        return None;
    }
    let direction: PatternDirection = match a.swing_type {
        SwingType::High => {
            if b.price.lt(a.price) && b.price.lt(c.price) && c.price.lt(a.price) {
                PatternDirection::Bearish
            } else {
                return None;
            }
        },
        SwingType::Low => {
            if a.price.lt(b.price) && c.price.lt(b.price) && a.price.lt(c.price) {
                PatternDirection::Bullish
            } else {
                return None;
            }
        },
    };
    Some(AbcdPattern { direction, a, b, c })
}

/// A broken level and its retest.
#[derive(Debug, Clone, Copy, PartialEq, Eq, Structural)]
pub struct BrcPattern {
    pub direction: PatternDirection,
    pub level: SwingPoint,
    pub mid: SwingPoint,
    pub break_point: SwingPoint,
    pub retest: SwingPoint,
}

impl BrcPattern {
    pub open spec fn spec_break_depth(&self) -> Real {
        self.break_point.price.minus(self.level.price).magnitude()
    }

    /// How far the level was broken.
    #[verifier::when_used_as_spec(spec_break_depth)]
    pub fn break_depth(&self) -> (r: Real)
        ensures
            r == self.spec_break_depth(),
    {
        self.break_point.price.minus(self.level.price).magnitude()
    }

    pub open spec fn spec_retest_accuracy(&self) -> Real {
        if self.break_depth().le(Real::from_u64(0)) {
            Real::from_u64(1)
        } else {
            self.retest.price.minus(self.level.price).magnitude().over(self.break_depth())
        }
    }

    /// The distance of the retest from the level, as a share of the break; one for no break.
    #[verifier::when_used_as_spec(spec_retest_accuracy)]
    pub fn retest_accuracy(&self) -> (r: Real)
        ensures
            r == self.spec_retest_accuracy(),
    {
        let depth: Real = self.break_depth();
        if depth.le(Real::from_u64(0)) {
            return Real::from_u64(1);
        }
        self.retest.price.minus(self.level.price).magnitude().over(depth)
    }

    /// Whether the setup expects rising prices.
    pub fn is_bullish(&self) -> (r: bool)
        ensures
            r == (self.direction == PatternDirection::Bullish),
    {
        self.direction == PatternDirection::Bullish
    }

    /// Whether the setup expects falling prices.
    pub fn is_bearish(&self) -> (r: bool)
        ensures
            r == (self.direction == PatternDirection::Bearish),
    {
        self.direction == PatternDirection::Bearish
    }

    /// The pattern on one line.
    pub fn to_text(&self) -> (s: String)
        ensures
            s@ == self.direction.text() + " BRC level:$"@ + fixed_text(self.level.price, 2) + " break:$"@
                + fixed_text(self.break_point.price, 2) + " retest:$"@ + fixed_text(self.retest.price, 2)
                + " (accuracy "@ + fixed_text(self.retest_accuracy().times(Real::from_u64(100)), 1) + "%)"@,
    {
        let mut s = self.direction.to_text();
        s.append(" BRC level:$");
        s.append(self.level.price.fixed(2).as_str());
        s.append(" break:$");
        s.append(self.break_point.price.fixed(2).as_str());
        s.append(" retest:$");
        s.append(self.retest.price.fixed(2).as_str());
        s.append(" (accuracy ");
        s.append(self.retest_accuracy().times(Real::from_u64(100)).fixed(1).as_str());
        s.append("%)");
        s
    }
}

/// The bits of 0.30: the widest retest, as a share of the break.
pub const DEFAULT_BRC_RETEST_RATIO: u64 = 0x3fd3_3333_3333_3333;

/// The BRC pattern that four pivots form.
///
/// The pivots alternate. A low that a later low undercuts is a bearish level, a high that a
/// later high tops is a bullish one. The last pivot has to come back to the level: its distance
/// may be at most `max_ratio` of the break.
pub open spec fn brc_of(
    s0: SwingPoint,
    s1: SwingPoint,
    s2: SwingPoint,
    s3: SwingPoint,
    max_ratio: Real,
) -> Option<BrcPattern> {
    let depth = s2.price.minus(s0.price).magnitude();
    let distance = s3.price.minus(s0.price).magnitude();
    if s0.swing_type == s1.swing_type || s1.swing_type == s2.swing_type || s2.swing_type
        == s3.swing_type {
        None
    } else if s0.is_low() && s0.price.le(s2.price) {
        None
    } else if s0.is_high() && s2.price.le(s0.price) {
        None
    } else if depth.le(Real::from_u64(0)) {
        None
    } else if max_ratio.lt(distance.over(depth)) {
        None
    } else {
        Some(
            BrcPattern {
                direction: if s0.is_low() {
                    PatternDirection::Bearish
                } else {
                    PatternDirection::Bullish
                },
                level: s0,
                mid: s1,
                break_point: s2,
                retest: s3,
            },
        )
    }
}

/// The BRC pattern in the newest four of some pivots.
pub open spec fn brc_in(swings: Seq<SwingPoint>, max_ratio: Real) -> Option<BrcPattern> {
    let n = swings.len() as int;
    if n < 4 {
        None
    } else {
        brc_of(swings[n - 4], swings[n - 3], swings[n - 2], swings[n - 1], max_ratio)
    }
}

/// Looks for a BRC pattern in the newest four pivots.
pub fn detect_brc(detector: &SwingDetector, max_retest_ratio: Real) -> (r: Option<BrcPattern>)
    ensures
        r == brc_in(detector@.confirmed, max_retest_ratio),
{
    let swings: Vec<&SwingPoint> = detector.recent(4);
    if swings.len() < 4 {
        return None;
    }
    let s0: SwingPoint = *swings[0];
    let s1: SwingPoint = *swings[1];
    let s2: SwingPoint = *swings[2];
    let s3: SwingPoint = *swings[3];
    if s0.swing_type == s1.swing_type || s1.swing_type == s2.swing_type || s2.swing_type
        == s3.swing_type {
        return None;
    }
    let direction: PatternDirection = match s0.swing_type {
        SwingType::Low => {
            if s0.price.le(s2.price) {
                return None;
            }
            PatternDirection::Bearish
        },
        SwingType::High => {
            if s2.price.le(s0.price) {
                return None;
            }
            PatternDirection::Bullish
        },
    };
    let break_depth: Real = s2.price.minus(s0.price).magnitude();
    if break_depth.le(Real::from_u64(0)) {
        return None;
    }
    let retest_distance: Real = s3.price.minus(s0.price).magnitude();
    if max_retest_ratio.lt(retest_distance.over(break_depth)) {
        return None;
    }
    Some(BrcPattern { direction, level: s0, mid: s1, break_point: s2, retest: s3 })
}

/// Looks for a BRC pattern with the usual width of the retest.
pub fn detect_brc_default(detector: &SwingDetector) -> (r: Option<BrcPattern>)
    ensures
        r == brc_in(detector@.confirmed, Real { bits: DEFAULT_BRC_RETEST_RATIO }),
{
    detect_brc(detector, Real { bits: DEFAULT_BRC_RETEST_RATIO })
}

/// Both patterns at once, in the same direction.
#[derive(Debug, Clone, Copy, PartialEq, Eq, Structural)]
pub struct CombinedPattern {
    pub abcd: AbcdPattern,
    pub brc: BrcPattern,
}

impl CombinedPattern {
    /// Which way the setup expects prices to go.
    pub fn direction(&self) -> (r: PatternDirection)
        ensures
            r == self.abcd.direction,
    {
        self.abcd.direction
    }
}

/// Both patterns in the newest of some pivots, when they agree on the direction.
pub open spec fn combined_in(swings: Seq<SwingPoint>, max_ratio: Real) -> Option<CombinedPattern> {
    match (abcd_in(swings), brc_in(swings, max_ratio)) {
        (Some(abcd), Some(brc)) => if abcd.direction == brc.direction {
            Some(CombinedPattern { abcd, brc })
        } else {
            None
        },
        _ => None,
    }
}

/// Looks for both patterns in the newest pivots.
pub fn detect_combined(detector: &SwingDetector, max_retest_ratio: Real) -> (r: Option<CombinedPattern>)
    ensures
        r == combined_in(detector@.confirmed, max_retest_ratio),
{
    let abcd: AbcdPattern = match detect_abcd(detector) {
        Some(p) => p,
        None => return None,
    };
    let brc: BrcPattern = match detect_brc(detector, max_retest_ratio) {
        Some(p) => p,
        None => return None,
    };
    if abcd.direction != brc.direction {
        return None;
    }
    Some(CombinedPattern { abcd, brc })
}

/// A pattern that is found has the geometry of its direction: the correction takes back a part
/// of the impulse, never all of it.
pub proof fn law_abcd_geometry(swings: Seq<SwingPoint>)
    ensures
        abcd_in(swings) matches Some(p) ==> {
            &&& p.direction == PatternDirection::Bullish ==> p.a.price.lt(p.c.price) && p.c.price.lt(p.b.price)
            &&& p.direction == PatternDirection::Bearish ==> p.b.price.lt(p.c.price) && p.c.price.lt(p.a.price)
        },
{
}

} // verus!
