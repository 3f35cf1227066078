use augur::abc_brc::PatternDirection;
use augur::candle::Timeframe;
use augur::number::Real;
use augur::position::OrderUpdate;
use augur::position::Positions;
use augur::risk::EntryZone;
use augur::risk::TradeSignal;

fn num(x: f64) -> Real {
    Real { bits: x.to_bits() }
}

fn mk_signal(direction: PatternDirection, zone: EntryZone, tf: Timeframe) -> TradeSignal {
    TradeSignal {
        direction, timeframe: tf, entry_zone: zone,
        entry_price: num(100.0), stop_price: num(95.0), target_price: num(120.0),
        contracts: 10, risk_amount: num(50.0), reward_amount: num(200.0), rr_ratio: num(4.0),
    }
}

#[test]
fn new_submission_is_pending_and_active() {
    let mut p = Positions::new();
    let s = mk_signal(PatternDirection::Bullish, EntryZone::Golden, Timeframe::H1);
    p.record_submission(&s, "cl_1".into(), "ord_1".into(), 1_000);

    assert_eq!(p.active().len(), 1);
    assert!(p.has_active_entry(Timeframe::H1, PatternDirection::Bullish, EntryZone::Golden));
    // Pending, not Open — the Sniper gate is CLOSED.
    assert!(!p.has_open_golden(Timeframe::H1, PatternDirection::Bullish));
}

#[test]
fn filled_entry_opens_sniper_gate() {
    let mut p = Positions::new();
    let s = mk_signal(PatternDirection::Bullish, EntryZone::Golden, Timeframe::H1);
    p.record_submission(&s, "cl_1".into(), "ord_1".into(), 1_000);

    p.apply_order_update(&OrderUpdate {
        client_ord_id: "cl_1".into(),
        ord_id: "ord_1".into(),
        state: "filled".into(),
        fill_price: Some(num(100.0)),
        acc_fill_size: Some(10),
        timestamp_ms: 2_000,
    });

    // Now open — Sniper gate for (H1, Bullish) is open.
    assert!(p.has_open_golden(Timeframe::H1, PatternDirection::Bullish));
    // But not for other tfs or directions.
    assert!(!p.has_open_golden(Timeframe::H4, PatternDirection::Bullish));
    assert!(!p.has_open_golden(Timeframe::H1, PatternDirection::Bearish));
}

#[test]
fn partial_fill_keeps_gate_closed() {
    // Conservative: partial fill doesn't open the Sniper gate.
    let mut p = Positions::new();
    let s = mk_signal(PatternDirection::Bullish, EntryZone::Golden, Timeframe::H1);
    p.record_submission(&s, "cl_1".into(), "ord_1".into(), 1_000);
    p.apply_order_update(&OrderUpdate {
        client_ord_id: "cl_1".into(),
        ord_id: "ord_1".into(),
        state: "partially_filled".into(),
        fill_price: Some(num(100.0)),
        acc_fill_size: Some(3),
        timestamp_ms: 2_000,
    });
    assert!(!p.has_open_golden(Timeframe::H1, PatternDirection::Bullish));
}

#[test]
fn canceled_entry_becomes_inactive() {
    let mut p = Positions::new();
    let s = mk_signal(PatternDirection::Bullish, EntryZone::Golden, Timeframe::H1);
    p.record_submission(&s, "cl_1".into(), "ord_1".into(), 1_000);
    p.apply_order_update(&OrderUpdate {
        client_ord_id: "cl_1".into(),
        ord_id: "ord_1".into(),
        state: "canceled".into(),
        fill_price: None, acc_fill_size: None,
        timestamp_ms: 2_000,
    });
    assert!(!p.has_active_entry(Timeframe::H1, PatternDirection::Bullish, EntryZone::Golden));
}

#[test]
fn unsubmitted_entries_block_double_submit_but_never_open_gate() {
    // In dry-run (trading gate closed), we still record entries so the
    // main loop's "don't double submit" check keeps working.
    let mut p = Positions::new();
    let s = mk_signal(PatternDirection::Bullish, EntryZone::Golden, Timeframe::H1);
    p.record_unsubmitted(&s, "cl_dry_1".into(), 1_000);

    assert!(p.has_active_entry(Timeframe::H1, PatternDirection::Bullish, EntryZone::Golden));
    // No order events will ever arrive — gate stays closed.
    assert!(!p.has_open_golden(Timeframe::H1, PatternDirection::Bullish));
}

#[test]
fn closed_position_releases_gate() {
    let mut p = Positions::new();
    let s = mk_signal(PatternDirection::Bullish, EntryZone::Golden, Timeframe::H1);
    p.record_submission(&s, "cl_1".into(), "ord_1".into(), 1_000);
    p.apply_order_update(&OrderUpdate {
        client_ord_id: "cl_1".into(), ord_id: "ord_1".into(),
        state: "filled".into(),
        fill_price: Some(num(100.0)), acc_fill_size: Some(10),
        timestamp_ms: 2_000,
    });
    assert!(p.has_open_golden(Timeframe::H1, PatternDirection::Bullish));

    // OCO leg filled — position closes.
    p.mark_closed_by_parent("cl_1", 3_000);
    assert!(!p.has_open_golden(Timeframe::H1, PatternDirection::Bullish));
    assert!(!p.has_active_entry(Timeframe::H1, PatternDirection::Bullish, EntryZone::Golden));
}

#[test]
fn order_id_index_routes_updates_missing_client_id() {
    // Some OKX events omit clOrdId — the by_ord_id index routes them.
    let mut p = Positions::new();
    let s = mk_signal(PatternDirection::Bullish, EntryZone::Golden, Timeframe::H1);
    p.record_submission(&s, "cl_1".into(), "ord_1".into(), 1_000);

    p.apply_order_update(&OrderUpdate {
        client_ord_id: "".into(),      // missing
        ord_id: "ord_1".into(),
        state: "filled".into(),
        fill_price: Some(num(100.0)), acc_fill_size: Some(10),
        timestamp_ms: 2_000,
    });
    assert!(p.has_open_golden(Timeframe::H1, PatternDirection::Bullish));
}
