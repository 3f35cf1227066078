use augur::abc_brc::AbcdPattern;
use augur::abc_brc::PatternDirection;
use augur::candle::Timeframe;
use augur::fibonacci::FibSequence;
use augur::number::Real;
use augur::risk::EntryZone;
use augur::risk::RejectionReason;
use augur::risk::RiskEngine;
use augur::risk::RiskParams;
use augur::risk::BTC_USDT_SWAP_CONTRACT_FACE;
use augur::swing::SwingPoint;
use augur::swing::SwingType;

fn num(x: f64) -> Real {
    Real { bits: x.to_bits() }
}

fn float(x: Real) -> f64 {
    f64::from_bits(x.bits)
}

const EPS: f64 = 1e-6;
fn near(a: f64, b: f64) -> bool { (a - b).abs() < EPS }

/// Construct a bullish ABCD with A=100, B=150, C=120.
fn bullish_pattern() -> AbcdPattern {
    AbcdPattern {
        direction: PatternDirection::Bullish,
        a: SwingPoint { timestamp: 0,         price: num(100.0), swing_type: SwingType::Low  },
        b: SwingPoint { timestamp: 3_600_000, price: num(150.0), swing_type: SwingType::High },
        c: SwingPoint { timestamp: 7_200_000, price: num(120.0), swing_type: SwingType::Low  },
    }
}

/// Construct a bearish ABCD with A=150, B=100, C=130.
fn bearish_pattern() -> AbcdPattern {
    AbcdPattern {
        direction: PatternDirection::Bearish,
        a: SwingPoint { timestamp: 0,         price: num(150.0), swing_type: SwingType::High },
        b: SwingPoint { timestamp: 3_600_000, price: num(100.0), swing_type: SwingType::Low  },
        c: SwingPoint { timestamp: 7_200_000, price: num(130.0), swing_type: SwingType::High },
    }
}

#[test]
fn test_bullish_golden_signal_passes_rr_gate() {
    // Bullish A=100, B=150, range=50
    //   Golden entry = 150 - 0.674*50 = 116.30
    //   Stop = 100 - 0.005*50 = 99.75
    //   Target3 = 150 + 0.955*50 = 197.75
    //   risk = 116.30 - 99.75 = 16.55
    //   reward = 197.75 - 116.30 = 81.45
    //   R:R = 81.45 / 16.55 ≈ 4.92
    let pattern = bullish_pattern();
    let fib = FibSequence::from_pattern(&pattern);
    let engine = RiskEngine::new(RiskParams::fmg_default(num(10_000.0)));

    let signal = engine.evaluate_golden(&pattern, &fib, Timeframe::H1)
        .expect("Golden signal should pass R:R gate");

    assert!(near(float(signal.entry_price), 116.30));
    assert!(near(float(signal.stop_price), 99.75));
    assert!(near(float(signal.target_price), 197.75));
    assert!(float(signal.rr_ratio) >= 2.0);
    assert_eq!(signal.entry_zone, EntryZone::Golden);
    assert_eq!(signal.direction, PatternDirection::Bullish);
    assert_eq!(signal.entry_side(), "buy");
    assert_eq!(signal.exit_side(), "sell");
}

#[test]
fn test_bearish_golden_signal_passes_rr_gate() {
    // Bearish A=150, B=100, range=50
    //   Golden entry = 100 + 0.674*50 = 133.70
    //   Stop = 150 + 0.005*50 = 150.25
    //   Target3 = 100 - 0.955*50 = 52.25
    //   risk = 150.25 - 133.70 = 16.55
    //   reward = 133.70 - 52.25 = 81.45
    //   R:R = 81.45 / 16.55 ≈ 4.92
    let pattern = bearish_pattern();
    let fib = FibSequence::from_pattern(&pattern);
    let engine = RiskEngine::new(RiskParams::fmg_default(num(10_000.0)));

    let signal = engine.evaluate_golden(&pattern, &fib, Timeframe::H1)
        .expect("bearish Golden should pass");

    assert!(near(float(signal.entry_price), 133.70));
    assert!(near(float(signal.stop_price), 150.25));
    assert!(near(float(signal.target_price), 52.25));
    assert_eq!(signal.entry_side(), "sell");
    assert_eq!(signal.exit_side(), "buy");
}

#[test]
fn test_sniper_has_better_rr_than_golden() {
    // Sniper entry is deeper → tighter stop distance → higher R:R.
    let pattern = bullish_pattern();
    let fib = FibSequence::from_pattern(&pattern);
    let engine = RiskEngine::new(RiskParams::fmg_default(num(10_000.0)));

    let golden = engine.evaluate_golden(&pattern, &fib, Timeframe::H1).unwrap();
    let sniper = engine.evaluate_sniper(&pattern, &fib, Timeframe::H1).unwrap();

    assert!(float(sniper.rr_ratio) > float(golden.rr_ratio),
        "sniper R:R ({:.2}) should exceed golden R:R ({:.2})",
        float(sniper.rr_ratio), float(golden.rr_ratio));
    assert_eq!(sniper.entry_zone, EntryZone::Sniper);
}

#[test]
fn test_position_size_matches_risk_allocation() {
    // Account $10,000 × 1% = $100 risk budget.
    // Stop distance = 16.55 (from bullish golden).
    // Contract face = 0.01 BTC.
    // Risk per contract = 16.55 × 0.01 = $0.1655.
    // Contracts = floor(100 / 0.1655) = 604.
    let pattern = bullish_pattern();
    let fib = FibSequence::from_pattern(&pattern);
    let engine = RiskEngine::new(RiskParams::fmg_default(num(10_000.0)));

    let signal = engine.evaluate_golden(&pattern, &fib, Timeframe::H1).unwrap();
    assert_eq!(signal.contracts, 604);
    // Actual USDT risk should be at or below the budgeted 1%.
    assert!(float(signal.risk_amount) <= 100.0);
    // ...but not materially below (we expect within 1 contract of budget).
    let single_contract_risk = 16.55 * 0.01;
    assert!(float(signal.risk_amount) > 100.0 - single_contract_risk);
}

#[test]
fn test_insufficient_balance_rejected() {
    let pattern = bullish_pattern();
    let fib = FibSequence::from_pattern(&pattern);

    // Zero balance → immediate rejection.
    let engine = RiskEngine::new(RiskParams::fmg_default(num(0.0)));
    assert_eq!(
        engine.evaluate_golden(&pattern, &fib, Timeframe::H1).unwrap_err(),
        RejectionReason::InvalidBalance,
    );
}

#[test]
fn test_tiny_balance_rejected_as_too_small() {
    // $1 balance × 1% = $0.01 risk budget. Stop distance ~$16.55.
    // Risk per contract = $0.1655, so budget affords 0 contracts → rejected.
    let pattern = bullish_pattern();
    let fib = FibSequence::from_pattern(&pattern);
    let engine = RiskEngine::new(RiskParams::fmg_default(num(1.0)));

    match engine.evaluate_golden(&pattern, &fib, Timeframe::H1) {
        Err(RejectionReason::PositionTooSmall) => {}
        other => panic!("expected PositionTooSmall, got {:?}", other),
    }
}

#[test]
fn test_high_min_rr_rejects_signal() {
    // Bullish Golden R:R is ~4.9 — raise min to 10.0 to force rejection.
    let pattern = bullish_pattern();
    let fib = FibSequence::from_pattern(&pattern);
    let mut params = RiskParams::fmg_default(num(10_000.0));
    params.min_rr_ratio = num(10.0);
    let engine = RiskEngine::new(params);

    match engine.evaluate_golden(&pattern, &fib, Timeframe::H1) {
        Err(RejectionReason::InsufficientRr { actual, required }) => {
            assert!(float(actual) < 10.0);
            assert!(near(float(required), 10.0));
        }
        other => panic!("expected InsufficientRr, got {:?}", other),
    }
}

#[test]
fn test_stop_buffer_scales_with_range() {
    // Stop distance should be exactly range * buffer_pct beyond A.
    let pattern = bullish_pattern();  // A=100, range=50
    let engine = RiskEngine::new(RiskParams::fmg_default(num(10_000.0)));
    let fib = FibSequence::from_pattern(&pattern);
    let signal = engine.evaluate_golden(&pattern, &fib, Timeframe::H1).unwrap();

    // Expected: stop = 100 - 50*0.005 = 99.75
    assert!(near(float(signal.stop_price), 99.75));
}

#[test]
fn test_signal_risk_matches_recomputed_amount() {
    // The TradeSignal's risk_amount should equal contracts × stop_distance × face.
    let pattern = bullish_pattern();
    let fib = FibSequence::from_pattern(&pattern);
    let engine = RiskEngine::new(RiskParams::fmg_default(num(10_000.0)));

    let signal = engine.evaluate_golden(&pattern, &fib, Timeframe::H1).unwrap();

    let expected_risk = signal.contracts as f64
        * (float(signal.entry_price) - float(signal.stop_price)).abs()
        * f64::from_bits(BTC_USDT_SWAP_CONTRACT_FACE);
    assert!(near(float(signal.risk_amount), expected_risk));

    let expected_reward = signal.contracts as f64
        * (float(signal.target_price) - float(signal.entry_price)).abs()
        * f64::from_bits(BTC_USDT_SWAP_CONTRACT_FACE);
    assert!(near(float(signal.reward_amount), expected_reward));
}
