use augur::abc_brc::detect_abcd;
use augur::abc_brc::detect_brc;
use augur::abc_brc::detect_brc_default;
use augur::abc_brc::detect_combined;
use augur::abc_brc::DEFAULT_BRC_RETEST_RATIO;
use augur::candle::Candle;
use augur::number::Real;
use augur::swing::SwingDetector;
use std::collections::VecDeque;

fn num(x: f64) -> Real {
    Real { bits: x.to_bits() }
}

fn float(x: Real) -> f64 {
    f64::from_bits(x.bits)
}

fn candle(open_time: u64, high: f64, low: f64) -> Candle {
    Candle {
        open_time,
        close_time: open_time + 3_600_000,
        open: num((high + low) / 2.0),
        close: num((high + low) / 2.0),
        high: num(high),
        low: num(low),
        volume: num(1.0),
        trade_count: 1,
    }
}

fn build(bars: &[(f64, f64)]) -> VecDeque<Candle> {
    bars.iter().enumerate()
        .map(|(i, (h, l))| candle(i as u64 * 3_600_000, *h, *l))
        .collect()
}

fn detector_from(bars: &[(f64, f64)], lookback: usize) -> SwingDetector {
    let mut det = SwingDetector::new(lookback, 100);
    det.update(&build(bars));
    det
}

#[test]
fn test_abcd_insufficient_swings() {
    let det = detector_from(
        &[(100.0, 95.0), (110.0, 100.0), (105.0, 92.0), (103.0, 93.0)],
        1,
    );
    assert!(detect_abcd(&det).is_none());
}

#[test]
fn test_bullish_abcd_detected() {
    let det = detector_from(
        &[
            (98.0,  95.0),
            (100.0, 90.0),   // LOW (A)
            (115.0, 105.0),
            (120.0, 110.0),  // HIGH (B)
            (110.0, 105.0),
            (105.0, 100.0),  // LOW (C)
            (113.0, 108.0),
        ],
        1,
    );
    let pattern = detect_abcd(&det).expect("bullish ABCD should be detected");
    assert!(pattern.is_bullish());
    assert_eq!(float(pattern.a.price), 90.0);
    assert_eq!(float(pattern.b.price), 120.0);
    assert_eq!(float(pattern.c.price), 100.0);
}

#[test]
fn test_bearish_abcd_detected() {
    let det = detector_from(
        &[
            (115.0, 110.0),
            (120.0, 115.0),  // HIGH (A)
            (100.0,  95.0),
            (95.0,   90.0),  // LOW (B)
            (100.0,  97.0),
            (105.0, 100.0),  // HIGH (C)
            (102.0,  98.0),
        ],
        1,
    );
    let pattern = detect_abcd(&det).expect("bearish ABCD should be detected");
    assert!(pattern.is_bearish());
    assert_eq!(float(pattern.a.price), 120.0);
    assert_eq!(float(pattern.b.price), 90.0);
    assert_eq!(float(pattern.c.price), 105.0);
}

#[test]
fn test_abcd_rejects_invalid_geometry() {
    // H-L-H but C > A (invalid bearish)
    let det = detector_from(
        &[
            (110.0, 105.0),
            (115.0, 110.0),  // A = 115
            (100.0,  95.0),
            (95.0,   90.0),  // B = 90
            (115.0, 110.0),
            (120.0, 115.0),  // C = 120 > A
            (115.0, 112.0),
        ],
        1,
    );
    assert!(detect_abcd(&det).is_none());
}

#[test]
fn test_abcd_retracement_computation() {
    // Swing detection uses candle HIGHS and LOWS:
    //   A = low of candle 1 = 100
    //   B = high of candle 3 = 155  (not 150!)
    //   C = low of candle 5 = 120
    //   ab_range = |155 - 100| = 55
    //   bc_range = |155 - 120| = 35
    //   retracement = 35 / 55 ≈ 0.6364
    let det = detector_from(
        &[
            (108.0, 103.0),
            (110.0, 100.0),  // A (low) = 100
            (145.0, 140.0),
            (155.0, 150.0),  // B (high) = 155
            (130.0, 125.0),
            (125.0, 120.0),  // C (low) = 120
            (135.0, 128.0),
        ],
        1,
    );
    let pattern = detect_abcd(&det).unwrap();
    assert!((float(pattern.ab_range()) - 55.0).abs() < 1e-9);
    assert!((float(pattern.bc_range()) - 35.0).abs() < 1e-9);
    assert!((float(pattern.c_retracement()) - 35.0 / 55.0).abs() < 1e-9);
}

#[test]
fn test_bearish_brc_detected() {
    let det = detector_from(
        &[
            (105.0, 102.0),
            (102.0, 100.0),  // LOW S0 (level=100)
            (115.0, 112.0),
            (118.0, 115.0),  // HIGH S1
            (95.0,  92.0),
            (93.0,  90.0),   // LOW S2 (break=90)
            (100.0,  97.0),
            (101.0,  98.0),  // HIGH S3 (retest=101)
            (98.0,   95.0),
        ],
        1,
    );
    let pattern = detect_brc_default(&det).expect("bearish BRC should be detected");
    assert!(pattern.is_bearish());
    assert_eq!(float(pattern.level.price), 100.0);
    assert_eq!(float(pattern.break_point.price), 90.0);
    assert_eq!(float(pattern.retest.price), 101.0);
    assert!((float(pattern.retest_accuracy()) - 0.10).abs() < 1e-9);
}

#[test]
fn test_bullish_brc_detected() {
    let det = detector_from(
        &[
            (99.0,  95.0),
            (100.0, 98.0),   // HIGH S0 (level=100)
            (90.0,  85.0),
            (88.0,  82.0),   // LOW S1
            (108.0, 103.0),
            (110.0, 105.0),  // HIGH S2 (break=110)
            (102.0, 99.0),
            (101.0, 98.0),   // LOW S3 (retest=98)
            (105.0, 100.0),
        ],
        1,
    );
    let pattern = detect_brc_default(&det).expect("bullish BRC should be detected");
    assert!(pattern.is_bullish());
    assert_eq!(float(pattern.level.price), 100.0);
    assert_eq!(float(pattern.break_point.price), 110.0);
    assert_eq!(float(pattern.retest.price), 98.0);
    assert!((float(pattern.retest_accuracy()) - 0.20).abs() < 1e-9);
}

#[test]
fn test_brc_rejects_weak_break() {
    let det = detector_from(
        &[
            (105.0, 100.0),
            (103.0,  99.0),  // LOW S0=99
            (115.0, 112.0),
            (118.0, 115.0),  // HIGH S1
            (110.0, 105.0),
            (105.0, 100.0),  // LOW S2=100, NOT below 99
            (115.0, 110.0),
            (113.0, 108.0),
        ],
        1,
    );
    assert!(detect_brc_default(&det).is_none());
}

#[test]
fn test_brc_rejects_distant_retest() {
    let det = detector_from(
        &[
            (105.0, 102.0),
            (102.0, 100.0),  // S0=100
            (115.0, 112.0),
            (118.0, 115.0),  // S1
            (95.0,  92.0),
            (93.0,  90.0),   // S2=90
            (105.0, 103.0),
            (106.0, 104.0),  // S3=106 (retest dist 6 / depth 10 = 60%)
            (99.0,  96.0),
        ],
        1,
    );
    assert!(detect_brc_default(&det).is_none());
    assert!(detect_brc(&det, num(0.70)).is_some());
}

#[test]
fn test_brc_insufficient_swings() {
    let det = detector_from(
        &[
            (105.0, 100.0),
            (102.0, 98.0),
            (115.0, 112.0),
            (118.0, 115.0),
            (95.0,  92.0),
            (93.0,  90.0),
            (100.0, 97.0),
        ],
        1,
    );
    assert_eq!(det.len(), 3);
    assert!(detect_brc_default(&det).is_none());
}

#[test]
fn test_combined_requires_both_patterns() {
    let det = detector_from(
        &[
            (98.0,  95.0),
            (100.0, 90.0),   // LOW (A)
            (115.0, 105.0),
            (120.0, 110.0),  // HIGH (B)
            (110.0, 105.0),
            (105.0, 100.0),  // LOW (C)
            (113.0, 108.0),
        ],
        1,
    );
    assert!(detect_abcd(&det).is_some());
    assert!(detect_brc_default(&det).is_none());
    assert!(detect_combined(&det, Real { bits: DEFAULT_BRC_RETEST_RATIO }).is_none());
}
