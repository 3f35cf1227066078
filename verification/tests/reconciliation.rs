use augur::abc_brc::PatternDirection;
use augur::candle::Timeframe;
use augur::number::Real;
use augur::position::PositionState;
use augur::position::Positions;
use augur::reconciliation::apply_history_to_positions;
use augur::reconciliation::parse_order_entry;
use augur::reconciliation::reconcile;
use augur::reconciliation::ReconciliationStats;
use augur::risk::EntryZone;
use augur::risk::TradeSignal;
use serde_json::Value;

fn num(x: f64) -> Real {
    Real { bits: x.to_bits() }
}

fn json(text: &str) -> Value {
    serde_json::from_str(text).unwrap()
}

fn with_entry(id: &str) -> Positions {
    let signal = TradeSignal {
        direction: PatternDirection::Bullish,
        timeframe: Timeframe::H1,
        entry_zone: EntryZone::Golden,
        entry_price: num(100.0),
        stop_price: num(95.0),
        target_price: num(120.0),
        contracts: 10,
        risk_amount: num(50.0),
        reward_amount: num(200.0),
        rr_ratio: num(4.0),
    };
    let mut p = Positions::new();
    p.record_submission(&signal, id.to_string(), "ord_1".to_string(), 1_000);
    p
}

#[test]
fn parse_filled_order_entry() {
    let entry = json(
        r#"{
            "instId": "BTC-USDT-SWAP",
            "clOrdId": "augur_h1_bull_golden_001",
            "ordId": "1234567890",
            "state": "filled",
            "fillPx": "75123.5",
            "accFillSz": "100",
            "uTime": "1745212800000"
        }"#,
    );
    let update = parse_order_entry(&entry).expect("should parse");
    assert_eq!(update.client_ord_id, "augur_h1_bull_golden_001");
    assert_eq!(update.ord_id, "1234567890");
    assert_eq!(update.state, "filled");
    assert_eq!(update.fill_price, Some(num(75123.5)));
    assert_eq!(update.acc_fill_size, Some(100));
    assert_eq!(update.timestamp_ms, 1745212800000);
}

#[test]
fn parse_skips_orders_without_cl_ord_id() {
    let entry = json(
        r#"{
            "instId": "BTC-USDT-SWAP",
            "clOrdId": "",
            "ordId": "9999999",
            "state": "filled"
        }"#,
    );
    assert!(parse_order_entry(&entry).is_none());
}

#[test]
fn parse_handles_canceled_with_no_fill() {
    let entry = json(
        r#"{
            "instId": "BTC-USDT-SWAP",
            "clOrdId": "augur_h1_bear_sniper_007",
            "ordId": "5555555",
            "state": "canceled",
            "fillPx": "",
            "accFillSz": "0",
            "uTime": "1745212800000"
        }"#,
    );
    let update = parse_order_entry(&entry).expect("should parse canceled");
    assert_eq!(update.state, "canceled");
    assert_eq!(update.fill_price, None);
    assert_eq!(update.acc_fill_size, Some(0));
}

#[test]
fn parse_returns_none_on_missing_required_field() {
    let entry = json(
        r#"{
            "instId": "BTC-USDT-SWAP",
            "ordId": "1111",
            "state": "filled"
        }"#,
    );
    assert!(parse_order_entry(&entry).is_none());
    assert!(parse_order_entry(&json(r#"{"clOrdId":"a","ordId":"1"}"#)).is_none());
    assert!(parse_order_entry(&json(r#"{"clOrdId":"a","state":"live"}"#)).is_none());
    assert!(parse_order_entry(&json(r#"{"clOrdId":7,"ordId":"1","state":"live"}"#)).is_none());
}

#[test]
fn apply_history_returns_zero_on_error_response() {
    let record = json(
        r#"{
            "code": "50113",
            "msg": "Invalid request",
            "data": []
        }"#,
    );
    let mut positions = Positions::new();
    let mut stats = ReconciliationStats::default();
    let changes = apply_history_to_positions(&record, &mut positions, &mut stats);
    assert_eq!(changes, 0);
    assert_eq!(stats.errors, 1);
}

#[test]
fn apply_history_with_no_recognized_orders_returns_zero() {
    let record = json(
        r#"{
            "code": "0",
            "msg": "",
            "data": [
                {
                    "instId": "BTC-USDT-SWAP",
                    "clOrdId": "augur_unknown_clOrdId",
                    "ordId": "99",
                    "state": "filled",
                    "fillPx": "75000",
                    "accFillSz": "10",
                    "uTime": "1745212800000"
                }
            ]
        }"#,
    );
    let mut positions = Positions::new();
    let mut stats = ReconciliationStats::default();
    let changes = apply_history_to_positions(&record, &mut positions, &mut stats);
    assert_eq!(changes, 0);
    assert_eq!(stats.orders_seen, 1);
    assert_eq!(stats.orders_recognized, 0);
}

#[test]
fn parse_order_entry_handles_partial_fill() {
    let entry = json(
        r#"{
            "instId": "BTC-USDT-SWAP",
            "clOrdId": "augur_h1_bull_golden_002",
            "ordId": "5555",
            "state": "partially_filled",
            "fillPx": "75100.0",
            "accFillSz": "50",
            "uTime": "1745212800000"
        }"#,
    );
    let update = parse_order_entry(&entry).expect("should parse");
    assert_eq!(update.state, "partially_filled");
    assert_eq!(update.acc_fill_size, Some(50));
}

#[test]
fn missed_fill_is_caught_up_once() {
    let record = || {
        json(
            r#"{"code":"0","data":[
                {"clOrdId":"cl_1","ordId":"ord_1","state":"filled","fillPx":"100.5","accFillSz":"10","uTime":"2000"},
                {"clOrdId":"foreign","ordId":"9","state":"filled"},
                {"ordId":"10","state":"filled"}
            ]}"#,
        )
    };
    let mut positions = with_entry("cl_1");
    let mut stats = ReconciliationStats::default();
    assert_eq!(reconcile(Ok(record()), &mut positions, &mut stats), Some(1));
    assert_eq!(positions.state_for_client_id("cl_1"), Some(PositionState::Open));
    assert_eq!(positions.all()[0].fill_price, Some(num(100.5)));
    assert_eq!(positions.all()[0].filled_size, 10);
    assert_eq!(positions.all()[0].last_update_ms, 2000);
    assert_eq!(reconcile(Ok(record()), &mut positions, &mut stats), Some(0));
    assert_eq!(
        stats,
        ReconciliationStats {
            api_calls: 2,
            orders_seen: 6,
            orders_recognized: 2,
            state_changes: 1,
            errors: 0,
        },
    );
}

#[test]
fn lost_replies_count_as_errors() {
    let mut positions = with_entry("cl_1");
    let mut stats = ReconciliationStats::default();
    assert_eq!(reconcile(Err("timed out".to_string()), &mut positions, &mut stats), Some(0));
    assert_eq!(reconcile(Ok(json(r#"{"code":"0"}"#)), &mut positions, &mut stats), Some(0));
    assert_eq!(reconcile(Ok(json("[]")), &mut positions, &mut stats), Some(0));
    assert_eq!(stats.api_calls, 2);
    assert_eq!(stats.errors, 2);
    assert_eq!(stats.orders_seen, 0);
}

#[test]
fn full_counters_leave_everything_alone() {
    let mut positions = with_entry("cl_1");
    let mut stats = ReconciliationStats::default();
    stats.orders_seen = u32::MAX;
    let before = stats;
    let record = json(r#"{"code":"0","data":[{"clOrdId":"cl_1","ordId":"1","state":"filled"}]}"#);
    assert_eq!(reconcile(Ok(record), &mut positions, &mut stats), None);
    assert_eq!(stats, before);
    assert_eq!(positions.state_for_client_id("cl_1"), Some(PositionState::Pending));
}

fn open_entry(id: &str) -> Positions {
    let mut p = with_entry(id);
    let mut stats = ReconciliationStats::default();
    let record = json(&format!(
        r#"{{"code":"0","data":[{{"clOrdId":"{}","ordId":"ord_1","state":"filled","fillPx":"100","accFillSz":"10","uTime":"2000"}}]}}"#,
        id,
    ));
    assert_eq!(apply_history_to_positions(&record, &mut p, &mut stats), 1);
    p
}

#[test]
fn missed_exits_close_their_entry() {
    let mut p = open_entry("cl_1");
    assert!(p.has_open_golden(Timeframe::H1, PatternDirection::Bullish));
    let record = json(
        r#"{"code":"0","data":[{"clOrdId":"cl_1_oco","ordId":"ord_2","state":"filled","fillPx":"95","accFillSz":"10","uTime":"5000"}]}"#,
    );
    let mut stats = ReconciliationStats::default();
    assert_eq!(apply_history_to_positions(&record, &mut p, &mut stats), 1);
    assert_eq!(p.state_for_client_id("cl_1"), Some(PositionState::Closed));
    assert!(!p.has_open_golden(Timeframe::H1, PatternDirection::Bullish));
    assert_eq!(p.all()[0].last_update_ms, 5000);
    assert_eq!((stats.orders_seen, stats.orders_recognized, stats.state_changes), (1, 1, 1));
    assert_eq!(apply_history_to_positions(&record, &mut p, &mut stats), 0);
    assert_eq!(stats.orders_recognized, 2);
}

#[test]
fn an_entry_and_its_exit_are_made_up_for_at_once() {
    let entry = r#"{"clOrdId":"cl_1","ordId":"ord_1","state":"filled","fillPx":"100","accFillSz":"10","uTime":"2000"}"#;
    let exit = r#"{"clOrdId":"cl_1_oco","ordId":"ord_2","state":"filled","uTime":"5000"}"#;
    for data in [format!("{},{}", entry, exit), format!("{},{}", exit, entry)] {
        let record = json(&format!(r#"{{"code":"0","data":[{}]}}"#, data));
        let mut p = with_entry("cl_1");
        let mut stats = ReconciliationStats::default();
        assert_eq!(apply_history_to_positions(&record, &mut p, &mut stats), 2);
        assert_eq!(p.state_for_client_id("cl_1"), Some(PositionState::Closed));
        assert_eq!(p.all()[0].fill_price, Some(num(100.0)));
        assert_eq!(apply_history_to_positions(&record, &mut p, &mut stats), 0);
        assert_eq!(p.state_for_client_id("cl_1"), Some(PositionState::Closed));
        assert_eq!(stats.state_changes, 2);
    }
}

#[test]
fn other_exits_are_foreign() {
    let mut p = open_entry("cl_1");
    let mut stats = ReconciliationStats::default();
    let record = json(
        r#"{"code":"0","data":[
            {"clOrdId":"cl_2_oco","ordId":"ord_2","state":"filled","uTime":"5000"},
            {"clOrdId":"cl_1_oco","ordId":"ord_3","state":"live","uTime":"5000"},
            {"clOrdId":"cl_1_oco_oco","ordId":"ord_4","state":"filled","uTime":"5000"}
        ]}"#,
    );
    assert_eq!(apply_history_to_positions(&record, &mut p, &mut stats), 0);
    assert_eq!((stats.orders_seen, stats.orders_recognized), (3, 0));
    assert_eq!(p.state_for_client_id("cl_1"), Some(PositionState::Open));
}
