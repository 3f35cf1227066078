use augur::candle::Candle;
use augur::candle::CandleAggregator;
use augur::candle::MultiTimeframeAggregator;
use augur::candle::Timeframe;
use augur::instrument::Instrument;
use augur::number::Real;
use augur::ws_types::TradeUpdate;

fn num(x: f64) -> Real {
    Real { bits: x.to_bits() }
}

fn float(x: Real) -> f64 {
    f64::from_bits(x.bits)
}

/// Helper: create a synthetic trade at a given price and timestamp.
fn trade(price: f64, timestamp_ms: u64) -> TradeUpdate {
    TradeUpdate {
        inst_id: "BTC-USDT-SWAP".to_string(),
        price: num(price),
        size: num(0.1),
        side: "buy".to_string(),
        timestamp_ms,
    }
}

#[test]
fn test_first_trade_creates_candle() {
    let mut agg = CandleAggregator::new(Timeframe::M1, 100);

    // First trade — should create a candle but NOT close one.
    let result = agg.update(&trade(67000.0, 1_710_000_065_000));
    assert!(result.is_none());
    assert!(agg.current().is_some());

    let current = agg.current().unwrap();
    assert_eq!(float(current.open), 67000.0);
    assert_eq!(float(current.high), 67000.0);
    assert_eq!(float(current.low), 67000.0);
    assert_eq!(float(current.close), 67000.0);

    // Verify UTC alignment: 1710000065000 / 60000 = 28500001
    // 28500001 * 60000 = 1710000060000
    assert_eq!(current.open_time, 1_710_000_060_000);
    assert_eq!(current.close_time, 1_710_000_120_000);
}

#[test]
fn test_trades_within_same_candle() {
    let mut agg = CandleAggregator::new(Timeframe::M1, 100);
    let base = 1_710_000_060_000; // Exactly on a 1m boundary

    agg.update(&trade(67000.0, base + 1000));  // +1s
    agg.update(&trade(67100.0, base + 5000));  // +5s  (new high)
    agg.update(&trade(66900.0, base + 10000)); // +10s (new low)
    agg.update(&trade(67050.0, base + 30000)); // +30s (new close)

    let c = agg.current().unwrap();
    assert_eq!(float(c.open), 67000.0);
    assert_eq!(float(c.high), 67100.0);
    assert_eq!(float(c.low), 66900.0);
    assert_eq!(float(c.close), 67050.0);
    assert_eq!(c.trade_count, 4);
    assert_eq!(float(c.volume), 0.4); // 4 trades × 0.1
}

#[test]
fn test_candle_closes_on_new_period() {
    let mut agg = CandleAggregator::new(Timeframe::M1, 100);
    let base = 1_710_000_060_000;

    // Trades in the first candle period
    agg.update(&trade(67000.0, base + 1000));
    agg.update(&trade(67200.0, base + 30000));

    // Trade in the NEXT period — should close the first candle
    let closed = agg.update(&trade(67150.0, base + 61000));

    assert!(closed.is_some());
    let closed = closed.unwrap();
    assert_eq!(float(closed.open), 67000.0);
    assert_eq!(float(closed.close), 67200.0); // Last trade in the period
    assert_eq!(closed.trade_count, 2);
    assert_eq!(agg.history_len(), 1);
    assert_eq!(agg.candles_produced, 1);

    // Current candle should now be the new period
    let current = agg.current().unwrap();
    assert_eq!(float(current.open), 67150.0);
    assert_eq!(current.trade_count, 1);
}

#[test]
fn test_history_eviction() {
    let mut agg = CandleAggregator::new(Timeframe::M1, 3); // Only keep 3
    let period = 60_000;

    // Generate 5 candle periods (each with one trade)
    for i in 0..5 {
        let ts_in_period = (i * period) + 1000;
        let ts_next = ((i + 1) * period) + 1000;
        agg.update(&trade(67000.0 + i as f64, ts_in_period));
        agg.update(&trade(67000.0 + i as f64, ts_next)); // triggers close
    }

    // History should be capped at 3
    assert_eq!(agg.history_len(), 3);
    // 5 candle periods close: 0,1,2,3,4 (each iteration closes one)
    assert_eq!(agg.candles_produced, 5);

    // Periods 0 and 1 were evicted. Oldest remaining is period 2.
    // Period 2 was opened by the trade that closed period 1 (price 67001.0).
    let oldest = agg.history().front().unwrap();
    assert_eq!(float(oldest.open), 67001.0);
}

#[test]
fn test_recent_closes() {
    let mut agg = CandleAggregator::new(Timeframe::M1, 100);
    let period = 60_000;

    // Build 5 completed candles with distinct close prices
    for i in 0..6 {
        let ts = (i * period) + 1000;
        agg.update(&trade(67000.0 + (i as f64 * 10.0), ts));
    }
    // After 6 trades in 6 periods, we have 5 closed candles

    let closes = agg.recent_closes(3);
    assert_eq!(closes.len(), 3);
    // Most recent 3 close prices (candles at index 2,3,4 closed with
    // prices 67020, 67030, 67040)
    assert_eq!(float(closes[0]), 67020.0);
    assert_eq!(float(closes[1]), 67030.0);
    assert_eq!(float(closes[2]), 67040.0);
}

#[test]
fn test_multi_timeframe() {
    let mut mtf = MultiTimeframeAggregator::new(vec![
        (Timeframe::M1, 100),
        (Timeframe::M5, 100),
    ]);

    let m1_period = 60_000;

    // Generate trades across 6 minutes — should close 5 M1 candles
    // and 1 M5 candle.
    let mut m1_closes = 0;
    let mut m5_closes = 0;

    for i in 0..7 {
        let ts = (i * m1_period) + 1000;
        let closed = mtf.update(&trade(67000.0, ts));
        for (tf, _candle) in &closed {
            match tf {
                Timeframe::M1 => m1_closes += 1,
                Timeframe::M5 => m5_closes += 1,
                _ => {}
            }
        }
    }

    assert_eq!(m1_closes, 6);
    assert!(m5_closes >= 1);
}

#[test]
fn test_candle_helpers() {
    let candle = Candle {
        open_time: 0,
        close_time: 60_000,
        open: num(67000.0),
        high: num(67500.0),
        low: num(66800.0),
        close: num(67300.0),
        volume: num(1.5),
        trade_count: 42,
    };

    assert!(candle.is_bullish());
    assert!(!candle.is_bearish());
    assert_eq!(float(candle.body()), 300.0);       // |67300 - 67000|
    assert_eq!(float(candle.range()), 700.0);      // 67500 - 66800
    assert_eq!(float(candle.midpoint()), 67150.0); // (67500 + 66800) / 2
}

#[test]
fn test_is_warmed_up() {
    let mut agg = CandleAggregator::new(Timeframe::M1, 100);
    assert!(!agg.is_warmed_up(5));

    let period = 60_000;
    for i in 0..6 {
        agg.update(&trade(67000.0, (i * period) + 1000));
    }

    assert!(agg.is_warmed_up(5));
    assert!(!agg.is_warmed_up(10));
}

#[test]
fn columns_of_recent_candles() {
    let mut agg = CandleAggregator::new(Timeframe::M1, 100);
    for i in 0..4u64 {
        agg.update(&trade(100.0 + i as f64, i * 60_000));
        agg.update(&trade(90.0 + i as f64, i * 60_000 + 500));
        agg.update(&trade(95.0 + i as f64, i * 60_000 + 900));
    }
    let floats = |v: Vec<Real>| v.into_iter().map(float).collect::<Vec<f64>>();
    assert_eq!(floats(agg.recent_highs(2)), vec![101.0, 102.0]);
    assert_eq!(floats(agg.recent_lows(2)), vec![91.0, 92.0]);
    assert_eq!(floats(agg.recent_volumes(1)), vec![0.1 + 0.1 + 0.1]);
    assert_eq!(floats(agg.recent_highs(9)), vec![100.0, 101.0, 102.0]);
    let last = agg.last_closed().unwrap();
    assert_eq!(float(last.typical_price()), (102.0 + 92.0 + 97.0) / 3.0);
}

#[test]
fn aggregators_are_reached_by_timeframe() {
    let mut mtf = MultiTimeframeAggregator::new(vec![(Timeframe::M1, 10), (Timeframe::M5, 10)]);
    assert!(mtf.get_mut(Timeframe::H1).is_none());
    mtf.get_mut(Timeframe::M5).unwrap().update(&trade(7.0, 1000));
    assert!(mtf.get(Timeframe::M1).unwrap().current().is_none());
    assert_eq!(float(mtf.get(Timeframe::M5).unwrap().current().unwrap().open), 7.0);
}

#[test]
fn instruments_show_their_candles() {
    let mut btc = Instrument::new("BTC-USDT-SWAP");
    assert!(btc.last_candle(Timeframe::M1).is_none());
    assert!(btc.candle_agg(Timeframe::D1).is_none());
    btc.update_from_trade(&trade(100.0, 1000));
    btc.update_from_trade(&trade(101.0, 61_000));
    assert_eq!(float(btc.last_candle(Timeframe::M1).unwrap().close), 100.0);
    assert_eq!(btc.candle_agg(Timeframe::M1).unwrap().history_len(), 1);
    assert_eq!(btc.swing_status(), "1h:0swings | 4h:0swings");
}

#[test]
fn a_history_without_room_keeps_nothing() {
    let mut agg = CandleAggregator::new(Timeframe::M1, 0);
    let mut closed = 0;
    for i in 0..4u64 {
        if agg.update(&trade(100.0, i * 60_000)).is_some() {
            closed += 1;
        }
    }
    assert_eq!(closed, 3);
    assert_eq!(agg.candles_produced, 3);
    assert_eq!(agg.history_len(), 0);
    assert!(agg.last_closed().is_none());
}

#[test]
fn no_trade_is_lost() {
    let mut agg = CandleAggregator::new(Timeframe::M1, 2);
    let mut counted = 0;
    for i in 0..50u64 {
        if let Some(c) = agg.update(&trade(100.0, i * 17_000)) {
            counted += c.trade_count;
            assert_eq!(c.open_time % 60_000, 0);
            assert_eq!(c.close_time, c.open_time + 60_000);
        }
    }
    assert_eq!(counted + agg.current().unwrap().trade_count, 50);
    assert_eq!(agg.history_len(), 2);
}
