use augur::abc_brc::AbcdPattern;
use augur::abc_brc::PatternDirection;
use augur::fibonacci::FibSequence;
use augur::fibonacci::FIB_RETRACE_AGGRESSIVE;
use augur::fibonacci::FIB_RETRACE_GOLDEN;
use augur::fibonacci::FIB_RETRACE_SNIPER;
use augur::number::Real;
use augur::swing::SwingPoint;
use augur::swing::SwingType;

fn num(x: f64) -> Real {
    Real { bits: x.to_bits() }
}

fn float(x: Real) -> f64 {
    f64::from_bits(x.bits)
}

const EPS: f64 = 1e-9;
fn near(a: f64, b: f64) -> bool { (a - b).abs() < EPS }

#[test]
fn test_bullish_retracements() {
    let seq = FibSequence::from_leg(num(100.0), num(150.0), PatternDirection::Bullish);
    assert!(near(float(seq.retrace_price_at(num(0.0))), 150.0));
    assert!(near(float(seq.retrace_price_at(num(0.50))), 125.0));
    assert!(near(float(seq.retrace_price_at(num(1.0))), 100.0));
    assert!(near(float(seq.golden_zone()),  150.0 - 0.674 * 50.0));
    assert!(near(float(seq.sniper_zone()),  150.0 - 0.91  * 50.0));
}

#[test]
fn test_bearish_retracements() {
    let seq = FibSequence::from_leg(num(150.0), num(100.0), PatternDirection::Bearish);
    assert!(near(float(seq.retrace_price_at(num(0.0))),  100.0));
    assert!(near(float(seq.retrace_price_at(num(0.50))), 125.0));
    assert!(near(float(seq.retrace_price_at(num(1.0))),  150.0));
    assert!(near(float(seq.golden_zone()),  100.0 + 0.674 * 50.0));
    assert!(near(float(seq.sniper_zone()),  100.0 + 0.91  * 50.0));
}

#[test]
fn test_bullish_targets() {
    let seq = FibSequence::from_leg(num(100.0), num(150.0), PatternDirection::Bullish);
    assert!(near(float(seq.target1()), 150.0 + 0.305 * 50.0));
    assert!(near(float(seq.target2()), 150.0 + 0.629 * 50.0));
    assert!(near(float(seq.target3()), 150.0 + 0.955 * 50.0));
}

#[test]
fn test_bearish_targets() {
    let seq = FibSequence::from_leg(num(150.0), num(100.0), PatternDirection::Bearish);
    assert!(near(float(seq.target1()), 100.0 - 0.305 * 50.0));
    assert!(near(float(seq.target2()), 100.0 - 0.629 * 50.0));
    assert!(near(float(seq.target3()), 100.0 - 0.955 * 50.0));
}

#[test]
fn test_is_valid_entry_bullish() {
    let seq = FibSequence::from_leg(num(100.0), num(150.0), PatternDirection::Bullish);
    let golden = float(seq.golden_zone());
    assert!( seq.is_valid_entry(num(golden)));
    assert!( seq.is_valid_entry(num(golden - 1.0)));
    assert!( seq.is_valid_entry(seq.sniper_zone()));
    assert!(!seq.is_valid_entry(num(golden + 1.0)));
    assert!(!seq.is_valid_entry(num(140.0)));
}

#[test]
fn test_is_valid_entry_bearish() {
    let seq = FibSequence::from_leg(num(150.0), num(100.0), PatternDirection::Bearish);
    let golden = float(seq.golden_zone());
    assert!( seq.is_valid_entry(num(golden)));
    assert!( seq.is_valid_entry(num(golden + 1.0)));
    assert!( seq.is_valid_entry(seq.sniper_zone()));
    assert!(!seq.is_valid_entry(num(golden - 1.0)));
    assert!(!seq.is_valid_entry(num(110.0)));
}

#[test]
fn test_is_sniper_zone() {
    let seq = FibSequence::from_leg(num(100.0), num(150.0), PatternDirection::Bullish);
    let sniper = float(seq.sniper_zone());
    assert!( seq.is_sniper_zone(num(sniper)));
    assert!( seq.is_sniper_zone(num(sniper - 1.0)));
    assert!(!seq.is_sniper_zone(num(sniper + 1.0)));
}

#[test]
fn test_deepest_reached_bullish() {
    let seq = FibSequence::from_leg(num(100.0), num(150.0), PatternDirection::Bullish);
    assert!(seq.deepest_reached(num(145.0)).is_none());
    let l = seq.deepest_reached(num(135.0)).unwrap();
    assert!(near(float(l.fraction), f64::from_bits(FIB_RETRACE_AGGRESSIVE)));
    let l = seq.deepest_reached(num(116.0)).unwrap();
    assert!(near(float(l.fraction), f64::from_bits(FIB_RETRACE_GOLDEN)));
    let l = seq.deepest_reached(num(103.0)).unwrap();
    assert!(near(float(l.fraction), f64::from_bits(FIB_RETRACE_SNIPER)));
}

#[test]
fn test_retracement_ladder_monotonicity() {
    let seq = FibSequence::from_leg(num(100.0), num(150.0), PatternDirection::Bullish);
    for w in seq.retracements.windows(2) {
        assert!(float(w[0].fraction) < float(w[1].fraction));
        assert!(float(w[0].price) > float(w[1].price));
    }
    let seq = FibSequence::from_leg(num(150.0), num(100.0), PatternDirection::Bearish);
    for w in seq.retracements.windows(2) {
        assert!(float(w[0].fraction) < float(w[1].fraction));
        assert!(float(w[0].price) < float(w[1].price));
    }
}

#[test]
fn test_from_pattern_matches_from_leg() {
    let pattern = AbcdPattern {
        direction: PatternDirection::Bullish,
        a: SwingPoint { timestamp: 0,         price: num(100.0), swing_type: SwingType::Low  },
        b: SwingPoint { timestamp: 3_600_000, price: num(150.0), swing_type: SwingType::High },
        c: SwingPoint { timestamp: 7_200_000, price: num(120.0), swing_type: SwingType::Low  },
    };

    let a = FibSequence::from_pattern(&pattern);
    let b = FibSequence::from_leg(num(100.0), num(150.0), PatternDirection::Bullish);
    assert!(near(float(a.golden_zone()), float(b.golden_zone())));
    assert!(near(float(a.target3()), float(b.target3())));
}

#[test]
fn deeper_prices_reach_no_less() {
    let f = FibSequence::from_leg(num(100.0), num(150.0), PatternDirection::Bullish);
    let place = |price: f64| {
        f.deepest_reached(num(price)).map_or(-1, |l| {
            f.retracements.iter().position(|m| m.label == l.label).unwrap() as i64
        })
    };
    let mut last = -1;
    for k in 0..120 {
        let next = place(160.0 - k as f64 * 0.5);
        assert!(next >= last);
        last = next;
    }
    assert_eq!(last, f.retracements.len() as i64 - 1);
}
