use augur::abc_brc::PatternDirection;
use augur::backtest::merge_streams;
use augur::backtest::walk_ladder_limit;
use augur::backtest::walk_ladder_market;
use augur::backtest::BacktestConfig;
use augur::backtest::BacktestEvent;
use augur::backtest::BacktestMetrics;
use augur::backtest::BacktestPortfolio;
use augur::backtest::BookSnapshot;
use augur::backtest::FillMode;
use augur::candle::Timeframe;
use augur::ladder::market_exit_price;
use augur::number::Real;
use augur::risk::EntryZone;
use augur::risk::TradeSignal;
use augur::risk::BTC_USDT_SWAP_CONTRACT_FACE;
use augur::ws_types::TradeUpdate;

fn num(x: f64) -> Real {
    Real { bits: x.to_bits() }
}

fn float(x: Real) -> f64 {
    f64::from_bits(x.bits)
}

fn nums(x: [f64; 5]) -> [Real; 5] {
    [num(x[0]), num(x[1]), num(x[2]), num(x[3]), num(x[4])]
}

fn mk_signal(dir: PatternDirection, zone: EntryZone, tf: Timeframe,
             entry: f64, stop: f64, target: f64) -> TradeSignal {
    // Risk in USDT = |entry - stop| × contracts × face
    let stop_dist = (entry - stop).abs();
    let target_dist = (target - entry).abs();
    let contracts = 100u64;
    let risk_amount = stop_dist * contracts as f64 * f64::from_bits(BTC_USDT_SWAP_CONTRACT_FACE);
    let reward_amount = target_dist * contracts as f64 * f64::from_bits(BTC_USDT_SWAP_CONTRACT_FACE);
    TradeSignal {
        direction: dir, timeframe: tf, entry_zone: zone,
        entry_price: num(entry),
        stop_price: num(stop),
        target_price: num(target),
        contracts,
        risk_amount: num(risk_amount),
        reward_amount: num(reward_amount),
        rr_ratio: num(reward_amount / risk_amount),
    }
}

#[test]
fn bullish_limit_fills_when_price_crosses_down() {
    let mut pf = BacktestPortfolio::new(num(10_000.0));
    // Bullish @ 100, stop 95, target 120
    let sig = mk_signal(PatternDirection::Bullish, EntryZone::Golden,
                        Timeframe::H1, 100.0, 95.0, 120.0);
    pf.submit(sig, 1000);

    // Tick above entry — no fill yet.
    pf.process_tick(num(101.0), 1500);
    assert_eq!(pf.completed().len(), 0);
    assert!(pf.has_active_entry(Timeframe::H1, PatternDirection::Bullish, EntryZone::Golden));
    // Gate still closed (pending, not open).
    assert!(!pf.has_open_golden(Timeframe::H1, PatternDirection::Bullish));

    // Tick at entry → fills, gate opens.
    pf.process_tick(num(100.0), 2000);
    assert!(pf.has_open_golden(Timeframe::H1, PatternDirection::Bullish));
}

#[test]
fn bullish_target_hit_produces_winner() {
    let mut pf = BacktestPortfolio::new(num(10_000.0));
    let sig = mk_signal(PatternDirection::Bullish, EntryZone::Golden,
                        Timeframe::H1, 100.0, 95.0, 120.0);
    pf.submit(sig, 1000);
    pf.process_tick(num(100.0), 2000);  // fill
    pf.process_tick(num(120.0), 3000);  // target

    assert_eq!(pf.completed().len(), 1);
    let t = &pf.completed()[0];
    assert_eq!(t.exit_reason, "target");
    assert_eq!(float(t.exit_price), 120.0);
    // P&L = (120 - 100) × 100ct × 0.01 = $20.00
    assert!((float(t.pnl_usdt) - 20.0).abs() < 1e-9);
    // R = pnl / risk; risk = (100-95) × 100 × 0.01 = 5.0, so R = 4.0
    assert!((float(t.r_multiple) - 4.0).abs() < 1e-9);
    assert!((float(pf.equity()) - 10_020.0).abs() < 1e-9);
}

#[test]
fn bullish_stop_hit_produces_loser() {
    let mut pf = BacktestPortfolio::new(num(10_000.0));
    let sig = mk_signal(PatternDirection::Bullish, EntryZone::Golden,
                        Timeframe::H1, 100.0, 95.0, 120.0);
    pf.submit(sig, 1000);
    pf.process_tick(num(100.0), 2000);  // fill
    pf.process_tick(num(95.0), 3000);   // stop

    assert_eq!(pf.completed().len(), 1);
    let t = &pf.completed()[0];
    assert_eq!(t.exit_reason, "stop");
    assert_eq!(float(t.exit_price), 95.0);
    // P&L = (95 - 100) × 100 × 0.01 = -$5.00
    assert!((float(t.pnl_usdt) - (-5.0)).abs() < 1e-9);
    assert!((float(t.r_multiple) - (-1.0)).abs() < 1e-9);
}

#[test]
fn bearish_fill_and_target() {
    let mut pf = BacktestPortfolio::new(num(10_000.0));
    // Bearish @ 100, stop 105 (above entry), target 80 (below entry)
    let sig = mk_signal(PatternDirection::Bearish, EntryZone::Golden,
                        Timeframe::H1, 100.0, 105.0, 80.0);
    pf.submit(sig, 1000);

    pf.process_tick(num(99.0), 1500);
    // Bearish limit resting at 100 fills when price rises to or above 100.
    // Tick at 99 → still below entry, no fill.
    assert_eq!(pf.completed().len(), 0);

    pf.process_tick(num(100.0), 2000);  // fills
    assert!(pf.has_open_golden(Timeframe::H1, PatternDirection::Bearish));

    pf.process_tick(num(80.0), 3000);   // target
    assert_eq!(pf.completed().len(), 1);
    let t = &pf.completed()[0];
    assert_eq!(t.exit_reason, "target");
    // P&L = (100 - 80) × 100 × 0.01 = $20
    assert!((float(t.pnl_usdt) - 20.0).abs() < 1e-9);
}

#[test]
fn stop_takes_priority_over_target_on_same_tick() {
    // The stop is looked at first. No single price reaches both the stop
    // and the target, so a bearish entry meets its stop on the tick that
    // would come before its target.
    let mut pf = BacktestPortfolio::new(num(10_000.0));
    let sig = mk_signal(PatternDirection::Bullish, EntryZone::Golden,
                        Timeframe::H1, 100.0, 95.0, 105.0);
    pf.submit(sig, 1000);
    pf.process_tick(num(100.0), 2000);  // fill
    let mut pf = BacktestPortfolio::new(num(10_000.0));
    let sig = mk_signal(PatternDirection::Bearish, EntryZone::Golden,
                        Timeframe::H1, 100.0, 105.0, 95.0);
    pf.submit(sig, 1000);
    pf.process_tick(num(100.0), 2000);  // fill at entry
    // 106 lies beyond the stop, 94 would lie beyond the target.
    pf.process_tick(num(106.0), 3000);
    assert_eq!(pf.completed()[0].exit_reason, "stop");
}

#[test]
fn pending_entry_discarded_at_eof() {
    // Submit an entry that never fills. End the dataset. Should
    // NOT appear in completed (no exposure was taken).
    let mut pf = BacktestPortfolio::new(num(10_000.0));
    let sig = mk_signal(PatternDirection::Bullish, EntryZone::Golden,
                        Timeframe::H1, 100.0, 95.0, 120.0);
    pf.submit(sig, 1000);
    pf.process_tick(num(101.0), 2000);  // above entry, no fill
    pf.force_close_all(num(102.0), 3000);
    assert_eq!(pf.completed().len(), 0);
    assert_eq!(float(pf.equity()), 10_000.0);
}

#[test]
fn open_position_at_eof_marked_as_eof_close() {
    let mut pf = BacktestPortfolio::new(num(10_000.0));
    let sig = mk_signal(PatternDirection::Bullish, EntryZone::Golden,
                        Timeframe::H1, 100.0, 95.0, 120.0);
    pf.submit(sig, 1000);
    pf.process_tick(num(100.0), 2000);  // fill
    pf.process_tick(num(110.0), 3000);  // still running
    pf.force_close_all(num(110.0), 4000);
    assert_eq!(pf.completed().len(), 1);
    assert_eq!(pf.completed()[0].exit_reason, "eof");
    assert_eq!(float(pf.completed()[0].exit_price), 110.0);
}

#[test]
fn compounding_gate_prevents_sniper_before_golden_fills() {
    // With no filled Golden, a Sniper gate check should return false.
    let mut pf = BacktestPortfolio::new(num(10_000.0));
    let sig = mk_signal(PatternDirection::Bullish, EntryZone::Golden,
                        Timeframe::H1, 100.0, 95.0, 120.0);
    pf.submit(sig, 1000);
    // Pending — gate not open.
    assert!(!pf.has_open_golden(Timeframe::H1, PatternDirection::Bullish));
    // Fill it.
    pf.process_tick(num(100.0), 2000);
    assert!(pf.has_open_golden(Timeframe::H1, PatternDirection::Bullish));
    // Stop it out.
    pf.process_tick(num(95.0), 3000);
    // No longer open — Sniper gate re-closes.
    assert!(!pf.has_open_golden(Timeframe::H1, PatternDirection::Bullish));
}

#[test]
fn metrics_on_empty_portfolio_returns_zeros() {
    let pf = BacktestPortfolio::new(num(10_000.0));
    let m = BacktestMetrics::compute(&pf);
    assert_eq!(m.total_trades, 0);
    assert_eq!(float(m.total_return_pct), 0.0);
    assert!(float(m.sharpe_annualized).is_nan());
}

#[test]
fn metrics_winners_losers_profit_factor() {
    let mut pf = BacktestPortfolio::new(num(10_000.0));
    // Winner: +$20
    let s1 = mk_signal(PatternDirection::Bullish, EntryZone::Golden, Timeframe::H1,
                       100.0, 95.0, 120.0);
    pf.submit(s1, 1000);
    pf.process_tick(num(100.0), 2000);
    pf.process_tick(num(120.0), 3000);

    // Loser: -$5
    let s2 = mk_signal(PatternDirection::Bullish, EntryZone::Golden, Timeframe::H1,
                       100.0, 95.0, 120.0);
    pf.submit(s2, 4000);
    pf.process_tick(num(100.0), 5000);
    pf.process_tick(num(95.0), 6000);

    let m = BacktestMetrics::compute(&pf);
    assert_eq!(m.total_trades, 2);
    assert_eq!(m.winners, 1);
    assert_eq!(m.losers, 1);
    assert!((float(m.win_rate) - 0.5).abs() < 1e-9);
    assert!((float(m.gross_win) - 20.0).abs() < 1e-9);
    assert!((float(m.gross_loss) - 5.0).abs() < 1e-9);
    // profit factor = 20/5 = 4.0
    assert!((float(m.profit_factor) - 4.0).abs() < 1e-9);
    // total pnl = 15, ending equity = 10015
    assert!((float(m.total_pnl) - 15.0).abs() < 1e-9);
}

#[test]
fn max_drawdown_tracks_peak_to_trough() {
    let mut pf = BacktestPortfolio::new(num(10_000.0));
    // Up, then down, then recover partially.
    for (entry, exit_win) in [
        (100.0, 120.0),  // +20
        (100.0, 120.0),  // +20 (peak at 10040)
        (100.0, 95.0),   // -5
        (100.0, 95.0),   // -5 (trough at 10030, DD from 10040 = 10)
    ] {
        let s = mk_signal(PatternDirection::Bullish, EntryZone::Golden, Timeframe::H1,
                          100.0, 95.0, 120.0);
        pf.submit(s, 0);
        pf.process_tick(num(100.0), 100);
        pf.process_tick(num(exit_win), 200);
    }
    let m = BacktestMetrics::compute(&pf);
    // Peak 10040, trough 10030. DD = 10/10040 ≈ 0.0996%
    assert!((float(m.max_drawdown_pct) - 0.0996).abs() < 0.01);
}

/// Synthesize a book with a controllable spread and depth.
/// Ask side walks UP from mid+spread/2 with `levels` evenly spaced
/// at $0.50 apart; bid walks DOWN from mid-spread/2 similarly.
/// Each level has `size_per_level` BTC available.
fn mk_book(mid: f64, spread: f64, size_per_level: f64) -> BookSnapshot {
    let mut bp = [0.0f64; 5]; let mut bs = [0.0f64; 5];
    let mut ap = [0.0f64; 5]; let mut asz = [0.0f64; 5];
    for i in 0..5 {
        let off = i as f64 * 0.5;  // $0.50 between levels
        bp[i] = mid - spread / 2.0 - off;
        ap[i] = mid + spread / 2.0 + off;
        bs[i] = size_per_level;
        asz[i] = size_per_level;
    }
    BookSnapshot {
        timestamp_ms: 0,
        bid_prices: nums(bp), bid_sizes: nums(bs),
        ask_prices: nums(ap), ask_sizes: nums(asz),
    }
}

#[test]
fn walk_ladder_limit_respects_price() {
    // Asks: 100.5, 101.0, 101.5, 102.0, 102.5 (each 1.0 BTC = 100 contracts).
    // Buy limit at 101.0 should take the first 2 levels (100.5 + 101.0)
    // = 200 contracts, avg price = (100.5 + 101.0) / 2 = 100.75.
    let bk = BookSnapshot {
        timestamp_ms: 0,
        bid_prices: nums([99.5, 99.0, 98.5, 98.0, 97.5]),
        bid_sizes: nums([1.0; 5]),
        ask_prices: nums([100.5, 101.0, 101.5, 102.0, 102.5]),
        ask_sizes: nums([1.0; 5]),
    };
    let fill = walk_ladder_limit(
        &bk.ask_prices, &bk.ask_sizes,
        200,  // 200 contracts = 2.0 BTC at 0.01 face
        Real { bits: BTC_USDT_SWAP_CONTRACT_FACE },
        num(101.0),  // limit price: accept 100.5 and 101.0, reject 101.5+
        true,   // is_buy
    );
    assert_eq!(fill.filled_contracts, 200);
    assert!(fill.fully_filled);
    // VWAP: (100.5 * 100 + 101.0 * 100) / 200 = 100.75
    assert!((float(fill.avg_price) - 100.75).abs() < 1e-9, "got avg_price = {}", float(fill.avg_price));
}

#[test]
fn walk_ladder_limit_partial_on_price_ceiling() {
    // Each ask level has 0.5 BTC = 50 contracts. Best two levels are
    // 100.5 and 101.0. Buyer wants 200 contracts at limit=101.0.
    // Depth at the two acceptable levels: 50 + 50 = 100. Partial fill.
    let bk = BookSnapshot {
        timestamp_ms: 0,
        bid_prices: nums([99.5, 99.0, 98.5, 98.0, 97.5]),
        bid_sizes: nums([0.5; 5]),
        ask_prices: nums([100.5, 101.0, 101.5, 102.0, 102.5]),
        ask_sizes: nums([0.5; 5]),
    };
    let fill = walk_ladder_limit(
        &bk.ask_prices, &bk.ask_sizes,
        200,
        Real { bits: BTC_USDT_SWAP_CONTRACT_FACE },
        num(101.0),
        true,
    );
    assert_eq!(fill.filled_contracts, 100);
    assert!(!fill.fully_filled);
    assert!((float(fill.avg_price) - 100.75).abs() < 1e-9);
}

#[test]
fn walk_ladder_limit_zero_fill_when_best_exceeds_limit() {
    // Best ask is 101.5, buyer's limit is 101.0. No fill at all.
    let bk = BookSnapshot {
        timestamp_ms: 0,
        bid_prices: nums([99.5, 99.0, 98.5, 98.0, 97.5]),
        bid_sizes: nums([1.0; 5]),
        ask_prices: nums([101.5, 102.0, 102.5, 103.0, 103.5]),
        ask_sizes: nums([1.0; 5]),
    };
    let fill = walk_ladder_limit(
        &bk.ask_prices, &bk.ask_sizes,
        100, Real { bits: BTC_USDT_SWAP_CONTRACT_FACE },
        num(101.0), true,
    );
    assert!(fill.is_nothing());
    assert_eq!(fill.filled_contracts, 0);
}

#[test]
fn walk_ladder_market_walks_unconditionally() {
    // Stop or TP trigger → market exit. No price limit.
    // Buyer (covering a short): walks the ask ladder.
    let bk = BookSnapshot {
        timestamp_ms: 0,
        bid_prices: nums([99.5, 99.0, 98.5, 98.0, 97.5]),
        bid_sizes: nums([1.0; 5]),
        ask_prices: nums([100.5, 101.0, 101.5, 102.0, 102.5]),
        ask_sizes: nums([1.0; 5]),
    };
    // Walk 300 contracts = 3 BTC. Takes 3 full levels: 100.5, 101.0, 101.5
    let fill = walk_ladder_market(
        &bk.ask_prices, &bk.ask_sizes,
        300, Real { bits: BTC_USDT_SWAP_CONTRACT_FACE },
    );
    assert_eq!(fill.filled_contracts, 300);
    assert!(fill.fully_filled);
    // VWAP: (100.5 + 101.0 + 101.5) / 3 = 101.0
    assert!((float(fill.avg_price) - 101.0).abs() < 1e-9);
}

#[test]
fn walk_ladder_market_partial_when_depth_exhausts() {
    // 5 levels × 1.0 BTC each = 500 contracts max.
    // Request 700 — 500 fill, 200 left unfilled.
    let bk = BookSnapshot {
        timestamp_ms: 0,
        bid_prices: nums([99.5, 99.0, 98.5, 98.0, 97.5]),
        bid_sizes: nums([1.0; 5]),
        ask_prices: nums([100.5, 101.0, 101.5, 102.0, 102.5]),
        ask_sizes: nums([1.0; 5]),
    };
    let fill = walk_ladder_market(
        &bk.ask_prices, &bk.ask_sizes,
        700, Real { bits: BTC_USDT_SWAP_CONTRACT_FACE },
    );
    assert_eq!(fill.filled_contracts, 500);
    assert!(!fill.fully_filled);
    // VWAP: (100.5+101.0+101.5+102.0+102.5)/5 = 101.5
    assert!((float(fill.avg_price) - 101.5).abs() < 1e-9);
}

#[test]
fn merge_streams_orders_by_timestamp() {
    let trades = vec![
        TradeUpdate { timestamp_ms: 10, price: num(100.0), size: num(0.01),
            side: "buy".into(), inst_id: "BTC-USDT-SWAP".into() },
        TradeUpdate { timestamp_ms: 30, price: num(101.0), size: num(0.01),
            side: "buy".into(), inst_id: "BTC-USDT-SWAP".into() },
        TradeUpdate { timestamp_ms: 50, price: num(102.0), size: num(0.01),
            side: "buy".into(), inst_id: "BTC-USDT-SWAP".into() },
    ];
    let books = vec![
        { let mut b = BookSnapshot::empty(); b.timestamp_ms = 20; b },
        { let mut b = BookSnapshot::empty(); b.timestamp_ms = 40; b },
    ];
    let events = merge_streams(trades, books);
    assert_eq!(events.len(), 5);
    // Expected order: trade@10, book@20, trade@30, book@40, trade@50
    assert_eq!(events[0].timestamp_ms(), 10);
    assert_eq!(events[1].timestamp_ms(), 20);
    assert_eq!(events[2].timestamp_ms(), 30);
    assert_eq!(events[3].timestamp_ms(), 40);
    assert_eq!(events[4].timestamp_ms(), 50);
    assert!(matches!(events[0], BacktestEvent::Trade(_)));
    assert!(matches!(events[1], BacktestEvent::Book(_)));
}

#[test]
fn merge_streams_tiebreak_book_wins() {
    // Books win on equal timestamps so portfolio's current_book is
    // refreshed before the trade that would consume it.
    let trades = vec![
        TradeUpdate { timestamp_ms: 50, price: num(100.0), size: num(0.01),
            side: "buy".into(), inst_id: "BTC-USDT-SWAP".into() },
    ];
    let books = vec![
        { let mut b = BookSnapshot::empty(); b.timestamp_ms = 50; b },
    ];
    let events = merge_streams(trades, books);
    assert!(matches!(events[0], BacktestEvent::Book(_)));
    assert!(matches!(events[1], BacktestEvent::Trade(_)));
}

#[test]
fn merge_streams_handles_empty_books() {
    let trades = vec![
        TradeUpdate { timestamp_ms: 10, price: num(100.0), size: num(0.01),
            side: "buy".into(), inst_id: "BTC-USDT-SWAP".into() },
        TradeUpdate { timestamp_ms: 20, price: num(101.0), size: num(0.01),
            side: "buy".into(), inst_id: "BTC-USDT-SWAP".into() },
    ];
    let events = merge_streams(trades, vec![]);
    assert_eq!(events.len(), 2);
    assert!(events.iter().all(|e| matches!(e, BacktestEvent::Trade(_))));
}

#[test]
fn ladder_fill_uses_vwap_not_limit_price() {
    // Bullish entry at 100.0. Book asks start at 99.5 (inside the
    // limit) — we get a BETTER price than the limit. This is
    // realistic: market maker standing on the ask at your limit-
    // crossing price fills you at their resting price.
    let mut pf = BacktestPortfolio::new(num(10_000.0));
    let book = BookSnapshot {
        timestamp_ms: 0,
        bid_prices: nums([98.5, 98.0, 97.5, 97.0, 96.5]),
        bid_sizes: nums([5.0; 5]),
        ask_prices: nums([99.5, 100.0, 100.5, 101.0, 101.5]),
        ask_sizes: nums([5.0; 5]),  // 500 contracts per level
    };
    pf.process_book(book);

    let sig = mk_signal(PatternDirection::Bullish, EntryZone::Golden,
                        Timeframe::H1, 100.0, 95.0, 120.0);
    pf.submit(sig, 100);
    // Tick at 100.0 triggers the entry limit. Ladder walk takes
    // 100 contracts at best ask = 99.5 (better than limit).
    pf.process_tick_ladder(num(100.0), 200);

    // Move to stop — market exit walks the bid side.
    pf.process_tick_ladder(num(95.0), 300);

    assert_eq!(pf.completed().len(), 1);
    let t = &pf.completed()[0];
    // Entry VWAP should be 99.5 (better than the 100.0 limit), not 100.0.
    assert!((float(t.entry_price) - 99.5).abs() < 1e-9,
        "entry_price expected 99.5, got {}", float(t.entry_price));
    // The stop is at 95.0, but the exit takes whatever the book offers:
    // 100 contracts at best bid = 98.5.
    assert!((float(t.exit_price) - 98.5).abs() < 1e-9,
        "exit_price expected 98.5, got {}", float(t.exit_price));
    // P&L = (98.5 - 99.5) × 100 contracts × 0.01 face = -$1.00
    assert!((float(t.pnl_usdt) - (-1.0)).abs() < 1e-9);
}

#[test]
fn ladder_empty_book_refuses_fill() {
    // Without a book snapshot (freshly-constructed portfolio),
    // ladder fills are rejected — the entry stays pending.
    let mut pf = BacktestPortfolio::new(num(10_000.0));
    let sig = mk_signal(PatternDirection::Bullish, EntryZone::Golden,
                        Timeframe::H1, 100.0, 95.0, 120.0);
    pf.submit(sig, 100);
    // Tick at entry price — but no book, so no fill.
    pf.process_tick_ladder(num(100.0), 200);
    assert!(pf.has_active_entry(Timeframe::H1, PatternDirection::Bullish, EntryZone::Golden));
    assert!(!pf.has_open_golden(Timeframe::H1, PatternDirection::Bullish));
    assert_eq!(pf.completed().len(), 0);
}

#[test]
fn ladder_partial_fill_keeps_sniper_gate_closed() {
    // A Golden that's only partially filled does NOT open the
    // compounding gate. This matches the live position.rs semantics
    // where partial_filled → Pending.
    let mut pf = BacktestPortfolio::new(num(10_000.0));

    // Thin book: each level only 0.3 BTC = 30 contracts.
    let book = BookSnapshot {
        timestamp_ms: 0,
        bid_prices: nums([98.5, 98.0, 97.5, 97.0, 96.5]),
        bid_sizes: nums([0.3; 5]),
        ask_prices: nums([99.5, 100.0, 100.5, 101.0, 101.5]),
        ask_sizes: nums([0.3; 5]),
    };
    pf.process_book(book);

    // Signal wants 100 contracts. Best 2 ask levels (99.5, 100.0)
    // within limit=100.0 carry 30+30=60 contracts. Partial fill.
    let sig = mk_signal(PatternDirection::Bullish, EntryZone::Golden,
                        Timeframe::H1, 100.0, 95.0, 120.0);
    pf.submit(sig, 100);
    pf.process_tick_ladder(num(100.0), 200);

    // Gate: is_fully_open is FALSE because 60 < 100.
    assert!(!pf.has_open_golden(Timeframe::H1, PatternDirection::Bullish),
        "Sniper gate should remain closed on partial Golden fill");
    // has_active_entry still true (the pending partial counts as active).
    assert!(pf.has_active_entry(Timeframe::H1, PatternDirection::Bullish, EntryZone::Golden));
}

#[test]
fn ladder_partial_fills_accumulate_across_book_updates() {
    // First book has 30ct at each ask level. Partial fill of 60.
    // Second book arrives with more depth — retry path completes.
    let mut pf = BacktestPortfolio::new(num(10_000.0));

    let thin_book = BookSnapshot {
        timestamp_ms: 100,
        bid_prices: nums([98.5, 98.0, 97.5, 97.0, 96.5]),
        bid_sizes: nums([0.3; 5]),
        ask_prices: nums([99.5, 100.0, 100.5, 101.0, 101.5]),
        ask_sizes: nums([0.3; 5]),  // 30 contracts each level
    };
    pf.process_book(thin_book);

    let sig = mk_signal(PatternDirection::Bullish, EntryZone::Golden,
                        Timeframe::H1, 100.0, 95.0, 120.0);
    pf.submit(sig, 150);

    // Tick triggers: first 2 levels within limit = 60 contracts filled.
    pf.process_tick_ladder(num(100.0), 200);
    assert!(!pf.has_open_golden(Timeframe::H1, PatternDirection::Bullish));

    // Fresh book has plenty of depth. Retry path completes the fill.
    let deep_book = BookSnapshot {
        timestamp_ms: 300,
        bid_prices: nums([98.5, 98.0, 97.5, 97.0, 96.5]),
        bid_sizes: nums([5.0; 5]),
        ask_prices: nums([99.5, 100.0, 100.5, 101.0, 101.5]),
        ask_sizes: nums([5.0; 5]),  // 500 contracts each
    };
    pf.process_book(deep_book);

    // Now fully open — gate opens.
    assert!(pf.has_open_golden(Timeframe::H1, PatternDirection::Bullish),
        "Sniper gate should open after retry completes the fill");
}

#[test]
fn ladder_market_stop_shows_slippage_vs_optimistic() {
    // Same signal, same starting price, but ladder's stop walk
    // should produce a WORSE exit (slippage) than optimistic's
    // trigger-price exit.
    let mk_pf = |ladder: bool| {
        let mut pf = BacktestPortfolio::new(num(10_000.0));
        if ladder {
            // Bid side thin at best: best_bid=94.8 when stop triggers at 95.
            // Walker takes 94.8 first, then deeper levels.
            let book = BookSnapshot {
                timestamp_ms: 0,
                bid_prices: nums([94.8, 94.5, 94.0, 93.5, 93.0]),
                bid_sizes: nums([0.2, 1.0, 1.0, 1.0, 1.0]),  // first level thin
                ask_prices: nums([99.5, 100.0, 100.5, 101.0, 101.5]),
                ask_sizes: nums([5.0; 5]),
            };
            pf.process_book(book);
        }
        let sig = mk_signal(PatternDirection::Bullish, EntryZone::Golden,
                            Timeframe::H1, 100.0, 95.0, 120.0);
        pf.submit(sig, 100);
        if ladder {
            pf.process_tick_ladder(num(100.0), 200);  // fills at 99.5 (better than limit)
            pf.process_tick_ladder(num(95.0), 300);   // stop triggers
        } else {
            pf.process_tick(num(100.0), 200);
            pf.process_tick(num(95.0), 300);
        }
        pf
    };

    let pf_opt = mk_pf(false);
    let pf_lad = mk_pf(true);

    let t_opt = &pf_opt.completed()[0];
    let t_lad = &pf_lad.completed()[0];

    // Optimistic: entry=100, exit=95. P&L = -$5.
    assert!((float(t_opt.exit_price) - 95.0).abs() < 1e-9);
    // Ladder: entry=99.5 (BETTER), exit=walked bid VWAP.
    //   100 contracts = 1.0 BTC. Level 0 = 0.2 BTC = 20ct. Level 1 = 1.0 BTC.
    //   Take 20ct @ 94.8, then 80ct @ 94.5 → VWAP = (20*94.8 + 80*94.5)/100 = 94.56
    assert!((float(t_lad.exit_price) - 94.56).abs() < 1e-6,
        "ladder exit should be 94.56, got {}", float(t_lad.exit_price));
    // Ladder exit is WORSE (lower) than optimistic exit for a long position.
    assert!(float(t_lad.exit_price) < float(t_opt.exit_price));
}

#[test]
fn process_book_updates_current_book() {
    let mut pf = BacktestPortfolio::new(num(10_000.0));
    assert!(pf.current_book().is_empty());
    let book = mk_book(100.0, 1.0, 1.0);
    pf.process_book(book.clone());
    assert!(!pf.current_book().is_empty());
    assert_eq!(pf.current_book().ask_prices[0], book.ask_prices[0]);
}

#[test]
fn config_fill_mode_defaults_to_optimistic() {
    let cfg = BacktestConfig::with_defaults("/tmp".to_string(), num(10_000.0));
    assert_eq!(cfg.fill_mode, FillMode::Optimistic);
}

#[test]
fn exits_beyond_the_book_end_at_its_deepest_level() {
    let mut pf = BacktestPortfolio::new(num(10_000.0));
    let book = |bids: [f64; 5], sizes: [f64; 5]| BookSnapshot {
        timestamp_ms: 0,
        bid_prices: nums(bids),
        bid_sizes: nums(sizes),
        ask_prices: nums([99.5, 100.0, 100.5, 101.0, 101.5]),
        ask_sizes: nums([5.0; 5]),
    };
    pf.process_book(book([94.8, 94.0, 0.0, 0.0, 0.0], [0.2, 0.3, 0.0, 0.0, 0.0]));
    let sig = mk_signal(PatternDirection::Bullish, EntryZone::Golden,
                        Timeframe::H1, 100.0, 95.0, 120.0);
    pf.submit(sig, 100);
    pf.process_tick_ladder(num(100.0), 200);
    pf.process_tick_ladder(num(95.0), 300);
    let t = &pf.completed()[0];
    assert_eq!(t.exit_reason, "stop");
    assert_eq!(t.contracts, 100);
    // 20 at 94.8, 30 at 94.0, and the other 50 at 94.0 too.
    assert!((float(t.exit_price) - 94.16).abs() < 1e-6, "got {}", float(t.exit_price));

    // A level that holds less than a contract is none.
    let face = Real { bits: BTC_USDT_SWAP_CONTRACT_FACE };
    let thin = market_exit_price(
        &nums([94.8, 94.0, 90.0, 0.0, 0.0]), &nums([0.2, 0.3, 0.005, 0.0, 0.0]), 100, face,
    );
    assert!((float(thin.unwrap()) - 94.16).abs() < 1e-6);
    // Where there is depth enough, the exit ends at the mean of what it takes.
    let deep = market_exit_price(&nums([94.8, 94.0, 0.0, 0.0, 0.0]), &nums([0.2, 0.3, 0.0, 0.0, 0.0]), 50, face);
    assert!((float(deep.unwrap()) - 94.32).abs() < 1e-6);
    assert!(market_exit_price(&nums([0.0; 5]), &nums([0.0; 5]), 50, face).is_none());
}

/// An account with trades that each win a number of USDT at a time, in this order.
fn account(results: &[(f64, u64)]) -> BacktestPortfolio {
    let mut pf = BacktestPortfolio::new(num(10_000.0));
    for (pnl, ms) in results {
        let sig = mk_signal(PatternDirection::Bullish, EntryZone::Golden,
                            Timeframe::H1, 1000.0, 10.0, 1000.0 + pnl);
        pf.submit(sig, *ms);
        pf.process_tick(num(1000.0), *ms);
        pf.process_tick(num(1000.0 + pnl), *ms);
    }
    pf
}

#[test]
fn days_without_exits_have_no_return() {
    let day = 86_400_000;
    let m = BacktestMetrics::compute(&account(&[(100.0, 0), (100.0, 2 * day)]));
    assert_eq!(float(m.total_pnl), 200.0);
    assert!((float(m.sharpe_annualized) - 22.06).abs() < 0.01, "got {}", float(m.sharpe_annualized));

    // The same, from the returns of all three days.
    let returns = [0.01, 0.0, 100.0 / 10_100.0];
    let mean = returns.iter().sum::<f64>() / 3.0;
    let var = returns.iter().map(|r| (r - mean) * (r - mean)).sum::<f64>() / 2.0;
    let want = mean / var.sqrt() * 365f64.sqrt();
    assert!((float(m.sharpe_annualized) - want).abs() < 1e-6);

    let same_day = BacktestMetrics::compute(&account(&[(100.0, 0), (100.0, 1000)]));
    assert!(float(same_day.sharpe_annualized).is_nan());
}

#[test]
fn only_sums_of_days_matter_to_the_ratio() {
    let day = 86_400_000;
    let ratio = |results: &[(f64, u64)]| {
        BacktestMetrics::compute(&account(results)).sharpe_annualized
    };
    let one = ratio(&[(30.0, 0), (70.0, 500), (50.0, 3 * day), (20.0, 9 * day)]);
    assert!(!float(one).is_nan());
    assert_eq!(one, ratio(&[(20.0, 9 * day), (70.0, 500), (50.0, 3 * day), (30.0, 0)]));
    assert_eq!(one, ratio(&[(100.0, 77), (50.0, 3 * day), (20.0, 9 * day)]));
}

#[test]
fn accounts_keep_their_history() {
    let pf = account(&[(30.0, 5), (70.0, 500), (50.0, 900)]);
    assert_eq!(float(pf.starting_equity()), 10_000.0);
    assert_eq!(float(pf.equity()), 10_150.0);
    let after: Vec<f64> = pf.completed().iter().map(|t| float(t.equity_after)).collect();
    assert_eq!(after, vec![10_030.0, 10_100.0, 10_150.0]);
    for t in pf.completed() {
        assert_eq!(t.duration_ms, t.exit_time_ms - t.entry_time_ms);
    }
}

#[test]
fn winnings_without_a_winner_are_the_sum_of_no_numbers() {
    let mut pf = BacktestPortfolio::new(num(10_000.0));
    let sig = mk_signal(PatternDirection::Bullish, EntryZone::Golden,
                        Timeframe::H1, 100.0, 95.0, 120.0);
    pf.submit(sig, 100);
    pf.process_tick(num(100.0), 200);
    pf.process_tick(num(95.0), 300);
    let m = BacktestMetrics::compute(&pf);
    let none: [f64; 0] = [];
    assert_eq!(m.gross_win.bits, none.iter().sum::<f64>().to_bits());
    assert_eq!(m.gross_win.bits, (-0.0f64).to_bits());
    assert_eq!(m.profit_factor.bits, (-0.0f64).to_bits());
    assert_eq!(float(m.gross_loss), 5.0);
    assert_eq!(float(m.total_pnl), -5.0);
    let line = format!("  Gross win             : ${:>12.2}", -0.0f64);
    assert!(m.report().contains(&line), "got {}", m.report());
}

#[test]
fn accounts_begin_with_a_blank_book() {
    let pf = BacktestPortfolio::new(num(10_000.0));
    let book = pf.current_book();
    assert_eq!(book.timestamp_ms, 0);
    for side in [&book.bid_prices, &book.bid_sizes, &book.ask_prices, &book.ask_sizes] {
        assert_eq!(*side, nums([0.0; 5]));
    }
}

#[test]
fn trades_of_one_day_have_no_ratio() {
    let pf = account(&[(30.0, 5), (70.0, 500), (50.0, 86_399_999)]);
    let ratio = BacktestMetrics::compute_sharpe(pf.starting_equity(), pf.completed());
    assert!(float(ratio).is_nan());
    let pf = account(&[(30.0, 5), (70.0, 500), (50.0, 86_400_000)]);
    let ratio = BacktestMetrics::compute_sharpe(pf.starting_equity(), pf.completed());
    assert!(!float(ratio).is_nan());
    assert_eq!(ratio, BacktestMetrics::compute(&pf).sharpe_annualized);
}
