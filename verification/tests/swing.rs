use augur::candle::Candle;
use augur::number::Real;
use augur::swing::SwingDetector;
use augur::swing::SwingType;
use std::collections::VecDeque;

fn num(x: f64) -> Real {
    Real { bits: x.to_bits() }
}

fn float(x: Real) -> f64 {
    f64::from_bits(x.bits)
}

/// Synthesize a candle with the specified high and low (open/close
/// don't matter for swing detection).
fn candle(open_time: u64, high: f64, low: f64) -> Candle {
    Candle {
        open_time,
        close_time: open_time + 3_600_000, // arbitrary 1h; irrelevant here
        open: num((high + low) / 2.0),
        close: num((high + low) / 2.0),
        high: num(high),
        low: num(low),
        volume: num(1.0),
        trade_count: 1,
    }
}

/// Build a candle history from (high, low) pairs. Timestamps
/// increment by 1h starting at 0.
fn build(bars: &[(f64, f64)]) -> VecDeque<Candle> {
    bars.iter().enumerate()
        .map(|(i, (h, l))| candle(i as u64 * 3_600_000, *h, *l))
        .collect()
}

#[test]
fn test_not_enough_history() {
    // lookback=3 requires at least 7 candles for one swing candidate.
    let mut det = SwingDetector::new(3, 50);
    let hist = build(&[(100.0, 90.0), (101.0, 91.0), (102.0, 92.0)]);
    let swings = det.update(&hist);
    assert!(swings.is_empty());
    assert_eq!(det.len(), 0);
}

#[test]
fn test_simple_swing_high() {
    // 5-candle history with lookback=2. Index 2 (high=110) is the peak.
    //   highs: 100, 105, 110, 104, 102
    let mut det = SwingDetector::new(2, 50);
    let hist = build(&[
        (100.0, 90.0),
        (105.0, 95.0),
        (110.0, 100.0),  // ← swing high here
        (104.0, 94.0),
        (102.0, 92.0),
    ]);
    let swings = det.update(&hist);
    assert_eq!(swings.len(), 1);
    assert_eq!(swings[0].swing_type, SwingType::High);
    assert_eq!(float(swings[0].price), 110.0);
    assert_eq!(swings[0].timestamp, 2 * 3_600_000);
}

#[test]
fn test_simple_swing_low() {
    // Inverted: lows dip at index 2.
    //   lows: 100, 95, 85, 92, 98
    let mut det = SwingDetector::new(2, 50);
    let hist = build(&[
        (110.0, 100.0),
        (105.0, 95.0),
        (95.0, 85.0),   // ← swing low here
        (100.0, 92.0),
        (108.0, 98.0),
    ]);
    let swings = det.update(&hist);
    assert_eq!(swings.len(), 1);
    assert_eq!(swings[0].swing_type, SwingType::Low);
    assert_eq!(float(swings[0].price), 85.0);
}

#[test]
fn test_no_swing_on_edges() {
    // With lookback=2, indices 0, 1, 3, 4 can NEVER be swings regardless
    // of their values — they don't have enough neighbours. Only index 2
    // is a valid candidate.
    //
    // Here we put an extreme high at the END of the history — it should
    // NOT be detected as a swing because there aren't 2 candles after it.
    let mut det = SwingDetector::new(2, 50);
    let hist = build(&[
        (100.0, 90.0),
        (101.0, 91.0),
        (102.0, 92.0),  // middle — not higher than 200.0 below
        (103.0, 93.0),
        (200.0, 90.0),  // extreme, but no forward confirmation possible
    ]);
    let swings = det.update(&hist);
    assert_eq!(swings.len(), 0);
}

#[test]
fn test_strict_inequality() {
    // Two CONSECUTIVE candles with identical highs and lows. Because
    // comparison is strict (>), neither candle can qualify as a swing
    // against its tied neighbour. And the bars around them can't either.
    let mut det = SwingDetector::new(1, 50);
    let hist = build(&[
        (100.0, 90.0),   // 0
        (105.0, 95.0),   // 1 — ties with index 2
        (105.0, 95.0),   // 2 — ties with index 1
        (103.0, 93.0),   // 3
        (100.0, 90.0),   // 4
    ]);
    let swings = det.update(&hist);
    // With strict inequality, no candle is unambiguously the highest
    // or lowest among its neighbours. No swings should confirm.
    assert!(swings.is_empty(),
        "strict inequality should reject ties, got {:?}", swings);
}

#[test]
fn test_alternating_swings() {
    // An idealized ABCD-style sequence with lookback=1 and clearly
    // separated pivots:
    //   highs: 100, 110, 102, 115, 108, 120, 104
    //   lows:   95, 105,  92, 110,  98, 115,  96
    // Swing highs expected at indices 1 (110), 3 (115), 5 (120)
    // Swing lows expected at indices 2 (92), 4 (98)
    let mut det = SwingDetector::new(1, 50);
    let hist = build(&[
        (100.0,  95.0),  // 0
        (110.0, 105.0),  // 1 — high
        (102.0,  92.0),  // 2 — low
        (115.0, 110.0),  // 3 — high
        (108.0,  98.0),  // 4 — low
        (120.0, 115.0),  // 5 — high
        (104.0,  96.0),  // 6
    ]);
    let swings = det.update(&hist);
    assert_eq!(swings.len(), 5);
    assert_eq!(swings[0].swing_type, SwingType::High);
    assert_eq!(float(swings[0].price), 110.0);
    assert_eq!(swings[1].swing_type, SwingType::Low);
    assert_eq!(float(swings[1].price), 92.0);
    assert_eq!(swings[2].swing_type, SwingType::High);
    assert_eq!(float(swings[2].price), 115.0);
    assert_eq!(swings[3].swing_type, SwingType::Low);
    assert_eq!(float(swings[3].price), 98.0);
    assert_eq!(swings[4].swing_type, SwingType::High);
    assert_eq!(float(swings[4].price), 120.0);
}

#[test]
fn test_incremental_update_no_redetection() {
    // Call update() once with a small history. Call again with a
    // larger history that includes the same old swing PLUS a new one.
    // The first swing must NOT be re-reported by the second call.
    //
    // Data is carefully chosen so that no INTERMEDIATE candles (e.g.
    // index 2 in the extended history) accidentally qualify as swings:
    //   - All lows are monotone downward until the new pivot
    //   - Only the intended pivots (indices 1 and 3) are local extrema
    let mut det = SwingDetector::new(1, 50);

    let hist_a = build(&[
        (100.0, 90.0),
        (110.0, 99.0),   // swing high at index 1
        (108.0, 100.0),
    ]);
    let first = det.update(&hist_a);
    assert_eq!(first.len(), 1);
    assert_eq!(float(first[0].price), 110.0);
    assert_eq!(det.len(), 1);

    // Extend the history. Index 2 (108, 100) is NOT a pivot because
    // its low (100) is higher than index 1's low (99) — fails the
    // strict-less-than check for a swing low.
    let hist_b = build(&[
        (100.0,  90.0),  // 0
        (110.0,  99.0),  // 1 — old swing, already reported
        (108.0, 100.0),  // 2 — NOT a pivot (not lowest, not highest)
        (115.0, 105.0),  // 3 — new swing high
        (112.0, 102.0),  // 4
    ]);
    let second = det.update(&hist_b);
    // Only the NEW swing should be reported on the second call.
    assert_eq!(second.len(), 1, "expected only the new swing, got {:?}", second);
    assert_eq!(float(second[0].price), 115.0);
    assert_eq!(det.len(), 2);
}

#[test]
fn test_eviction_at_capacity() {
    // With max_swings=2, the third swing should evict the first.
    let mut det = SwingDetector::new(1, 2);
    let hist = build(&[
        (100.0,  95.0),  // 0
        (110.0, 105.0),  // 1 — high (will be evicted)
        (102.0,  92.0),  // 2 — low
        (115.0, 110.0),  // 3 — high
        (108.0,  98.0),  // 4 — low (will cause eviction of index 1)
        (120.0, 115.0),  // 5 — high (will cause further eviction)
        (104.0,  96.0),  // 6
    ]);
    det.update(&hist);
    // Only the most recent 2 swings remain.
    assert_eq!(det.len(), 2);
    let remaining: Vec<_> = det.confirmed().iter().collect();
    assert_eq!(float(remaining[0].price), 98.0);  // swing low at index 4
    assert_eq!(float(remaining[1].price), 120.0); // swing high at index 5
}

#[test]
fn test_last_high_last_low_accessors() {
    // Four swings in sequence: high → low → high → low.
    // Each pivot is a clear local extremum with no accidental rivals.
    let mut det = SwingDetector::new(1, 50);
    let hist = build(&[
        (100.0,  95.0),  // 0
        (110.0, 105.0),  // 1 — swing HIGH (110)
        (102.0,  92.0),  // 2 — swing LOW (92)
        (115.0, 110.0),  // 3 — swing HIGH (115) — most recent high
        (108.0,  98.0),  // 4 — swing LOW (98)  — most recent low
        (112.0, 102.0),  // 5 — note: low 102 > 98, so index 4 stays the low
    ]);
    det.update(&hist);
    assert_eq!(float(det.last_high().unwrap().price), 115.0);
    assert_eq!(float(det.last_low().unwrap().price), 98.0);
    // last() returns the most recent swing of any type — the low at 98.
    assert_eq!(float(det.last().unwrap().price), 98.0);
}

#[test]
fn test_recent_accessor() {
    let mut det = SwingDetector::new(1, 50);
    let hist = build(&[
        (100.0,  95.0),
        (110.0, 105.0),  // high
        (102.0,  92.0),  // low
        (115.0, 110.0),  // high
        (108.0,  98.0),  // low
        (120.0, 115.0),  // high
        (104.0,  96.0),
    ]);
    det.update(&hist);
    // There are 5 swings in total. Last 3: high(115), low(98), high(120).
    let last_three = det.recent(3);
    assert_eq!(last_three.len(), 3);
    assert_eq!(float(last_three[0].price), 115.0);
    assert_eq!(float(last_three[1].price), 98.0);
    assert_eq!(float(last_three[2].price), 120.0);

    // recent(100) should return all 5.
    assert_eq!(det.recent(100).len(), 5);
}

#[test]
fn a_detector_without_room_keeps_nothing() {
    let candles = build(&[(100.0, 95.0), (110.0, 105.0), (102.0, 92.0), (115.0, 110.0)]);
    let mut det = SwingDetector::new(1, 0);
    assert_eq!(det.update(&candles).len(), 2);
    assert_eq!(det.len(), 0);
    assert!(det.last().is_none());
}
