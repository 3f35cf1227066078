use augur::abc_brc::PatternDirection;
use augur::arguments::exit_code;
use augur::arguments::parse_args;
use augur::backtest::missing_data;
use augur::backtest::BacktestConfig;
use augur::backtest::BacktestEngine;
use augur::backtest::FillMode;
use augur::backtest::MissingData;
use augur::candle::Timeframe;
use augur::corpus::read_book_file;
use augur::corpus::read_trade_file;
use augur::instrument::Instrument;
use augur::live::client_id;
use augur::live::decide_golden;
use augur::live::decide_sniper;
use augur::live::find_pattern;
use augur::live::record_dry_run;
use augur::live::record_submission;
use augur::live::LiveStats;
use augur::live::Verdict;
use augur::number::Real;
use augur::order_manager::OrderSubmission;
use augur::order_manager::SubmissionError;
use augur::persistence::BookRecord;
use augur::persistence::Column;
use augur::persistence::TickRecord;
use augur::persistence::Writable;
use augur::position::OrderUpdate;
use augur::position::Positions;
use augur::risk::EntryZone;
use augur::risk::RejectionReason;
use augur::risk::RiskEngine;
use augur::risk::RiskParams;
use augur::risk::TradeSignal;
use augur::synthetic::book_beside;
use augur::synthetic::trades;
use augur::trader::Candidate;
use augur::trader::Step;
use augur::trader::Trader;
use augur::ws_types::BookLevel;
use augur::ws_types::OrderBookUpdate;
use augur::ws_types::TradeUpdate;

fn num(x: f64) -> Real {
    Real { bits: x.to_bits() }
}

fn float(x: Real) -> f64 {
    f64::from_bits(x.bits)
}

fn args(list: &[&str]) -> Vec<String> {
    list.iter().map(|s| s.to_string()).collect()
}

fn refusal(list: &[&str]) -> String {
    parse_args(&args(list)).err().unwrap()
}

fn read(columns: Vec<Column>) -> Vec<Option<Column>> {
    columns.into_iter().map(Some).collect()
}

fn recorded_trades() -> Vec<TradeUpdate> {
    let mut buffer = TickRecord::new_buffer(10);
    for t in trades() {
        TickRecord::push(&mut buffer, t);
    }
    read_trade_file(&vec![read(TickRecord::into_batch(buffer))]).unwrap()
}

#[test]
fn arguments_are_read() {
    let c = parse_args(&args(&["--data", "/data"])).unwrap();
    assert_eq!(c.data_dir, "/data");
    assert_eq!(c.starting_equity, num(10_000.0));
    assert_eq!(c.fill_mode, FillMode::Optimistic);
    assert!(c.csv_output.is_none());
    let c = parse_args(&args(&[
        "--fill-mode", "ladder", "--csv", "out.csv", "--equity", "2.5e4", "--data", "a", "--data",
        "b",
    ]))
    .unwrap();
    assert_eq!(c.data_dir, "b");
    assert_eq!(c.starting_equity, num(25_000.0));
    assert_eq!(c.risk_params.account_balance, num(25_000.0));
    assert_eq!(c.csv_output, Some("out.csv".to_string()));
    assert_eq!(c.fill_mode, FillMode::Ladder);
    assert_eq!(parse_args(&args(&["--data", "--csv"])).unwrap().data_dir, "--csv");
}

#[test]
fn wrong_arguments_are_told() {
    assert_eq!(refusal(&[]), "--data is required");
    assert_eq!(refusal(&["--data"]), "--data requires a value");
    assert_eq!(refusal(&["--equity"]), "--equity requires a value");
    assert_eq!(refusal(&["--csv"]), "--csv requires a value");
    assert_eq!(refusal(&["--fill-mode"]), "--fill-mode requires a value");
    assert_eq!(refusal(&["--equity", "lots"]), "--equity must be a number");
    assert_eq!(
        refusal(&["--fill-mode", "exact"]),
        "--fill-mode must be 'optimistic' or 'ladder', got 'exact'",
    );
    assert_eq!(refusal(&["--data", "x", "-h"]), "help");
    assert_eq!(refusal(&["--help", "--nonsense"]), "help");
    assert_eq!(refusal(&["--nonsense"]), "unknown argument: --nonsense");
    assert_eq!(exit_code("help"), 0);
    assert_eq!(exit_code("--data is required"), 2);
}

#[test]
fn synthetic_data_follow_their_hours() {
    let t = trades();
    assert_eq!(t.len(), 1000);
    assert_eq!(t[0].timestamp_ms, 0);
    assert_eq!(t[999].timestamp_ms, 9 * 3_600_000 + 99 * 36_000);
    for (n, tick) in t.iter().enumerate() {
        let hours = [
            (95.0, 89.0), (92.0, 88.0), (90.0, 85.0), (95.0, 90.0), (98.0, 93.0),
            (105.0, 98.0), (100.0, 95.0), (95.0, 92.0), (100.0, 95.0), (115.0, 100.0),
        ];
        let (h, l): (f64, f64) = hours[n / 100];
        let frac = (n % 100) as f64 / 100.0;
        let p = if frac < 0.5 {
            l + (h - l) * (frac * 2.0)
        } else {
            h - (h - l) * ((frac - 0.5) * 2.0)
        };
        assert_eq!(float(tick.price), p);
        assert_eq!(float(tick.size), 0.01);
        let book = book_beside(tick);
        for lvl in 0..5 {
            let off = lvl as f64 * 0.1;
            assert_eq!(float(book.bid_prices[lvl]), p - 0.25 - off);
            assert_eq!(float(book.ask_prices[lvl]), p + 0.25 + off);
            assert_eq!(float(book.bid_sizes[lvl]), 2.0);
            assert_eq!(float(book.ask_sizes[lvl]), 2.0);
        }
    }
}

#[test]
fn replay_needs_its_files() {
    assert_eq!(missing_data(FillMode::Optimistic, 0, 3), Some(MissingData::NoTradeFiles));
    assert_eq!(missing_data(FillMode::Ladder, 0, 0), Some(MissingData::NoTradeFiles));
    assert_eq!(missing_data(FillMode::Ladder, 2, 0), Some(MissingData::NoBookFiles));
    assert_eq!(missing_data(FillMode::Ladder, 2, 1), None);
    assert_eq!(missing_data(FillMode::Optimistic, 1, 0), None);
    let config = BacktestConfig::with_defaults("/data".to_string(), num(10_000.0));
    let mut engine = BacktestEngine::new(config);
    let missing = engine.run(0, Vec::new(), 0, Vec::new()).err().unwrap();
    assert_eq!(missing.to_text("/data"), "no trade Parquet files found in /data");
    let mut config = BacktestConfig::with_defaults("/data".to_string(), num(10_000.0));
    config.fill_mode = FillMode::Ladder;
    let mut engine = BacktestEngine::new(config);
    let missing = engine.run(1, Vec::new(), 0, Vec::new()).err().unwrap();
    assert_eq!(
        missing.to_text("/data"),
        "no book Parquet files found in /data — ladder mode requires book data. Did you record with AUGUR_PERSISTENCE_ENABLED=1 on v0.9+?",
    );
}

#[test]
fn synthetic_data_replay_in_both_modes() {
    let mut engine =
        BacktestEngine::new(BacktestConfig::with_defaults("/data".to_string(), num(10_000.0)));
    let ticks = recorded_trades();
    assert!(engine.accepts(&ticks));
    let m = engine.run(1, ticks, 0, Vec::new()).unwrap();
    assert_eq!(m.total_trades, engine.portfolio().completed().len());
    assert_eq!(float(m.starting_equity), 10_000.0);

    let mut buffer = BookRecord::new_buffer(10);
    for t in trades().iter() {
        BookRecord::push(&mut buffer, book_beside(t));
    }
    let books = read_book_file(&vec![read(BookRecord::into_batch(buffer))]).unwrap();
    assert_eq!(books.len(), 1000);
    let mut config = BacktestConfig::with_defaults("/data".to_string(), num(10_000.0));
    config.fill_mode = FillMode::Ladder;
    let mut engine = BacktestEngine::new(config);
    let m = engine.run(1, recorded_trades(), 1, books).unwrap();
    assert_eq!(m.total_trades, engine.portfolio().completed().len());
}

/// Hours that form a bullish pattern on the hourly candles, pivots confirmed by three hours on
/// each side.
fn patterned_trades() -> Vec<TradeUpdate> {
    let lows_and_highs = [
        (104.0, 110.0), (103.0, 109.0), (102.0, 108.0),
        (90.0, 100.0),
        (101.0, 112.0), (103.0, 114.0), (105.0, 116.0),
        (110.0, 120.0),
        (106.0, 117.0), (105.5, 115.0), (105.2, 113.0),
        (100.0, 111.0),
        (103.0, 112.0), (104.0, 113.0), (105.0, 114.0), (106.0, 115.0),
    ];
    let mut trades = Vec::new();
    for (i, (low, high)) in lows_and_highs.iter().enumerate() {
        for (k, price) in [low, high].iter().enumerate() {
            trades.push(TradeUpdate {
                inst_id: "BTC-USDT-SWAP".to_string(),
                price: num(**price),
                size: num(0.01),
                side: "buy".to_string(),
                timestamp_ms: i as u64 * 3_600_000 + k as u64 * 1000,
            });
        }
    }
    trades
}

/// A market after these hours.
fn patterned() -> Instrument {
    let mut instrument = Instrument::new("BTC-USDT-SWAP");
    for trade in patterned_trades() {
        assert!(instrument.accepts(trade.timestamp_ms));
        instrument.update_from_trade(&trade);
    }
    instrument
}

#[test]
fn live_entries_go_through_both_gates() {
    let instrument = patterned();
    let risk = RiskEngine::new(RiskParams::fmg_default(num(10_000.0)));
    let mut positions = Positions::new();
    assert!(find_pattern(&instrument, Timeframe::M1).is_none());
    let pattern = find_pattern(&instrument, Timeframe::H1).expect("pattern");
    assert_eq!(pattern.direction, PatternDirection::Bullish);
    assert_eq!(float(pattern.a.price), 90.0);
    assert_eq!(float(pattern.b.price), 120.0);
    assert_eq!(float(pattern.c.price), 100.0);

    assert!(matches!(
        decide_sniper(&positions, &risk, &pattern, Timeframe::H1),
        Verdict::Gated
    ));
    let signal = match decide_golden(&positions, &risk, &pattern, Timeframe::H1) {
        Verdict::Enter(s) => s,
        other => panic!("{:?}", other),
    };
    assert_eq!(signal.entry_zone, EntryZone::Golden);
    let taken = OrderSubmission {
        entry_ord_id: "ord_1".to_string(),
        client_ord_id: client_id(&signal, 57_600_000),
    };
    assert_eq!(taken.client_ord_id, "augur_1h_GOLDEN_57600000");
    assert!(record_submission(&mut positions, &signal, &Ok(taken), 57_600_000));
    assert!(matches!(
        decide_golden(&positions, &risk, &pattern, Timeframe::H1),
        Verdict::Skipped
    ));
    assert!(matches!(
        decide_sniper(&positions, &risk, &pattern, Timeframe::H1),
        Verdict::Gated
    ));
    positions.apply_order_update(&OrderUpdate {
        client_ord_id: "augur_1h_GOLDEN_57600000".to_string(),
        ord_id: "ord_1".to_string(),
        state: "filled".to_string(),
        fill_price: Some(signal.entry_price),
        acc_fill_size: Some(signal.contracts),
        timestamp_ms: 57_700_000,
    });
    let sniper = match decide_sniper(&positions, &risk, &pattern, Timeframe::H1) {
        Verdict::Enter(s) => s,
        other => panic!("{:?}", other),
    };
    assert_eq!(sniper.entry_zone, EntryZone::Sniper);
    record_dry_run(&mut positions, &sniper, 57_800_000);
    assert!(matches!(
        decide_sniper(&positions, &risk, &pattern, Timeframe::H1),
        Verdict::Skipped
    ));
}

/// The program after the hours above, with the entries that they suggested in the end.
fn traded(trading: bool) -> (Trader, Vec<Candidate>) {
    let params = RiskParams::fmg_default(num(10_000.0));
    let mut trader = Trader::new("BTC-USDT-SWAP", params, trading);
    let mut last = Vec::new();
    for trade in patterned_trades() {
        assert!(trader.accepts(trade.timestamp_ms));
        let news = trader.on_trade(&trade);
        if !news.candidates.is_empty() {
            last = news.candidates;
        }
    }
    (trader, last)
}

#[test]
fn patterns_suggest_two_entries() {
    let (trader, suggested) = traded(true);
    assert_eq!(trader.stats().trades, 32);
    assert_eq!(suggested.len(), 2);
    assert_eq!(suggested[0].zone, EntryZone::Golden);
    assert_eq!(suggested[1].zone, EntryZone::Sniper);
    for c in &suggested {
        assert_eq!(c.timeframe, Timeframe::H1);
        assert_eq!(Some(c.pattern), find_pattern(trader.instrument(), Timeframe::H1));
    }
}

#[test]
fn entries_are_sent_and_answered_in_turn() {
    let (mut trader, suggested) = traded(true);
    let mut positions = Positions::new();
    let (signal, id) = match trader.consider(&mut positions, &suggested[0], 7) {
        Step::Send(s, id) => (s, id),
        other => panic!("{:?}", other),
    };
    assert_eq!(id, "augur_1h_GOLDEN_7");
    assert!(positions.all().is_empty());
    let refused = Err(SubmissionError::Transport("timed out".to_string()));
    assert!(!trader.on_reply(&mut positions, &signal, &refused, 7));
    assert!(matches!(trader.consider(&mut positions, &suggested[0], 8), Step::Send(_, _)));
    let taken = OrderSubmission { entry_ord_id: "ord_1".to_string(), client_ord_id: id };
    assert!(trader.on_reply(&mut positions, &signal, &Ok(taken), 7));
    assert!(matches!(trader.consider(&mut positions, &suggested[0], 9), Step::Skipped));
    assert!(matches!(trader.consider(&mut positions, &suggested[1], 9), Step::Gated));
    positions.apply_order_update(&OrderUpdate {
        client_ord_id: "augur_1h_GOLDEN_7".to_string(),
        ord_id: "ord_1".to_string(),
        state: "filled".to_string(),
        fill_price: Some(signal.entry_price),
        acc_fill_size: Some(signal.contracts),
        timestamp_ms: 10,
    });
    assert!(matches!(trader.consider(&mut positions, &suggested[1], 11), Step::Send(_, _)));
    let stats = trader.stats();
    assert_eq!(stats.signals_built, 3);
    assert_eq!(stats.signals_submitted, 1);
    assert_eq!(stats.sniper_gated_off, 1);
}

#[test]
fn nothing_is_sent_while_trading_is_off() {
    let (mut trader, suggested) = traded(false);
    let mut positions = Positions::new();
    match trader.consider(&mut positions, &suggested[0], 7) {
        Step::Recorded(_, id) => assert_eq!(id, "augur_1h_GOLDEN_7"),
        other => panic!("{:?}", other),
    }
    assert!(positions.has_client_id("augur_1h_GOLDEN_7"));
    assert!(matches!(trader.consider(&mut positions, &suggested[0], 8), Step::Skipped));
    assert!(matches!(trader.consider(&mut positions, &suggested[1], 8), Step::Gated));
    let broke = RiskParams::fmg_default(num(0.0));
    let mut poor = Trader::new("BTC-USDT-SWAP", broke, false);
    assert!(matches!(
        poor.consider(&mut Positions::new(), &suggested[0], 8),
        Step::Rejected(RejectionReason::InvalidBalance)
    ));
}

#[test]
fn the_program_counts_books_and_losses() {
    let mut trader = Trader::new("BTC-USDT-SWAP", RiskParams::fmg_default(num(1.0)), false);
    let level = |price: f64| BookLevel { price: num(price), size: num(1.0) };
    let book = OrderBookUpdate {
        inst_id: "BTC-USDT-SWAP".to_string(),
        asks: vec![level(101.0)],
        bids: vec![level(99.0)],
        timestamp_ms: 5,
    };
    let mut told = 0;
    for _ in 0..1000 {
        if trader.on_book(&book) {
            told += 1;
        }
    }
    assert_eq!(told, 2);
    assert_eq!(float(trader.instrument().book.spread), 2.0);
    assert!(trader.on_dropped_tick());
    assert!(!trader.on_dropped_tick());
    assert!(trader.on_dropped_book());
    assert_eq!(trader.stats().ticks_dropped, 2);
    assert_eq!(trader.stats().books_dropped, 1);
    assert!(trader.stats().has_room());
    assert_eq!(float(trader.risk().params().account_balance), 1.0);
}

#[test]
fn dry_run_keeps_the_gate_closed() {
    let instrument = patterned();
    let risk = RiskEngine::new(RiskParams::fmg_default(num(10_000.0)));
    let pattern = find_pattern(&instrument, Timeframe::H1).expect("pattern");
    let mut positions = Positions::new();
    let signal = match decide_golden(&positions, &risk, &pattern, Timeframe::H1) {
        Verdict::Enter(s) => s,
        other => panic!("{:?}", other),
    };
    assert_eq!(record_dry_run(&mut positions, &signal, 5), "augur_1h_GOLDEN_5");
    assert!(positions.has_client_id("augur_1h_GOLDEN_5"));
    assert!(matches!(
        decide_golden(&positions, &risk, &pattern, Timeframe::H1),
        Verdict::Skipped
    ));
    assert!(matches!(
        decide_sniper(&positions, &risk, &pattern, Timeframe::H1),
        Verdict::Gated
    ));
    let broke = RiskEngine::new(RiskParams::fmg_default(num(0.0)));
    assert!(matches!(
        decide_golden(&Positions::new(), &broke, &pattern, Timeframe::H1),
        Verdict::Rejected(RejectionReason::InvalidBalance)
    ));
}

#[test]
fn refused_entries_are_not_recorded() {
    let signal = TradeSignal {
        direction: PatternDirection::Bearish,
        timeframe: Timeframe::H4,
        entry_zone: EntryZone::Sniper,
        entry_price: num(100.0),
        stop_price: num(105.0),
        target_price: num(80.0),
        contracts: 10,
        risk_amount: num(50.0),
        reward_amount: num(200.0),
        rr_ratio: num(4.0),
    };
    assert_eq!(client_id(&signal, 7), "augur_4h_SNIPER_7");
    let mut positions = Positions::new();
    let refused = Err(SubmissionError::Transport("timed out".to_string()));
    assert!(!record_submission(&mut positions, &signal, &refused, 7));
    assert!(positions.all().is_empty());
}

#[test]
fn counts_tell_when_to_speak() {
    let mut stats = LiveStats::new();
    let mut told = 0;
    for _ in 0..2500 {
        if stats.count_trade() {
            told += 1;
        }
    }
    assert_eq!(told, 2);
    assert_eq!(stats.trades, 2500);
    assert!(stats.count_dropped_tick());
    assert!(!stats.count_dropped_tick());
    stats.ticks_dropped = 100;
    assert!(stats.count_dropped_tick());
    assert!(stats.count_dropped_book());
    stats.books_dropped = 499;
    assert!(!stats.count_dropped_book());
    assert!(stats.count_dropped_book());
    stats.books = 499;
    assert!(stats.count_book());
    assert!(!stats.count_book());
    stats.signals_built = 2;
    stats.count_built();
    stats.signals_submitted = 1;
    stats.count_submitted();
    stats.sniper_gated_off = 8;
    stats.count_gated();
    assert_eq!(
        stats.status(num(67000.5), "none", "1m: 3"),
        "Trades: 2500 | Price: $67000.50 | Signals built/submitted: 3/2 | Sniper gated: 9 | Ticks/books dropped: 101/501 | Positions: none | Candles: [1m: 3]",
    );
}
