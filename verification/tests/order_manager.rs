use augur::abc_brc::PatternDirection;
use augur::candle::Timeframe;
use augur::config::Config;
use augur::number::Real;
use augur::okx_interface::OkxInterface;
use augur::order_manager::build_payload;
use augur::order_manager::OrderManager;
use augur::order_manager::SubmissionError;
use augur::risk::EntryZone;
use augur::risk::TradeSignal;
use augur::signing::sign;
use serde_json::Value;

fn num(x: f64) -> Real {
    Real { bits: x.to_bits() }
}

fn sample_bullish_signal() -> TradeSignal {
    TradeSignal {
        direction: PatternDirection::Bullish,
        timeframe: Timeframe::H1,
        entry_zone: EntryZone::Golden,
        entry_price: num(84230.50),
        stop_price: num(83400.00),
        target_price: num(89500.00),
        contracts: 12,
        risk_amount: num(99.66),
        reward_amount: num(632.34),
        rr_ratio: num(6.35),
    }
}

fn sample_bearish_signal() -> TradeSignal {
    TradeSignal {
        direction: PatternDirection::Bearish,
        timeframe: Timeframe::H1,
        entry_zone: EntryZone::Sniper,
        entry_price: num(84250.00),
        stop_price: num(85000.00),
        target_price: num(80100.00),
        contracts: 13,
        risk_amount: num(97.50),
        reward_amount: num(539.50),
        rr_ratio: num(5.53),
    }
}

fn interface() -> OkxInterface {
    OkxInterface::new(Config {
        api_key: "the-key".to_string(),
        secret_key: "the-secret".to_string(),
        passphrase: "the-phrase".to_string(),
        is_paper_trading: true,
        trading_enabled: true,
        account_balance: num(10_000.0),
        persistence_enabled: false,
        persistence_path: "/tmp".to_string(),
    })
}

fn reply(text: &str) -> Result<Value, String> {
    Ok(serde_json::from_str(text).unwrap())
}

fn refusal(text: &str) -> (String, String) {
    match OrderManager::submission(reply(text), "cl_1") {
        Err(SubmissionError::Rejected { code, msg }) => (code, msg),
        other => panic!("expected a refusal, got {:?}", other),
    }
}

fn unreadable(text: &str) -> String {
    match OrderManager::submission(reply(text), "cl_1") {
        Err(SubmissionError::Malformed(e)) => e,
        other => panic!("expected an unreadable answer, got {:?}", other),
    }
}

#[test]
fn test_bullish_payload_shape() {
    let signal = sample_bullish_signal();
    let payload = build_payload("BTC-USDT-SWAP", &signal, "augur-test-1");
    assert_eq!(payload["instId"], "BTC-USDT-SWAP");
    assert_eq!(payload["side"], "buy");
    assert_eq!(payload["posSide"], "long");
    assert_eq!(payload["ordType"], "limit");
    assert_eq!(payload["px"], "84230.50");
    assert_eq!(payload["sz"], "12");
    assert_eq!(payload["clOrdId"], "augur-test-1");
    let algo = &payload["attachAlgoOrds"][0];
    assert_eq!(algo["attachAlgoClOrdId"], "augur-test-1_oco");
    assert_eq!(algo["tpTriggerPx"], "89500.00");
    assert_eq!(algo["slTriggerPx"], "83400.00");
}

#[test]
fn test_bearish_payload_flips_side() {
    let signal = sample_bearish_signal();
    let payload = build_payload("BTC-USDT-SWAP", &signal, "augur-test-2");
    assert_eq!(payload["side"], "sell");
    assert_eq!(payload["posSide"], "short");
    assert_eq!(payload["px"], "84250.00");
    assert_eq!(payload["attachAlgoOrds"][0]["slTriggerPx"], "85000.00");
    assert_eq!(payload["attachAlgoOrds"][0]["tpTriggerPx"], "80100.00");
}

#[test]
fn test_client_order_id_is_used_verbatim() {
    let signal = sample_bullish_signal();
    let my_id = "augur_H1_ABCD_1710000000";
    let payload = build_payload("BTC-USDT-SWAP", &signal, my_id);
    assert_eq!(payload["clOrdId"], my_id);
    assert_eq!(
        payload["attachAlgoOrds"][0]["attachAlgoClOrdId"],
        format!("{}_oco", my_id),
    );
}

#[test]
fn payload_holds_nothing_else() {
    let payload = build_payload("BTC-USDT-SWAP", &sample_bullish_signal(), "cl_1");
    let expected: Value = serde_json::from_str(
        r#"{
            "instId": "BTC-USDT-SWAP", "tdMode": "cross", "side": "buy", "posSide": "long",
            "ordType": "limit", "px": "84230.50", "sz": "12", "clOrdId": "cl_1",
            "attachAlgoOrds": [{
                "attachAlgoClOrdId": "cl_1_oco",
                "tpTriggerPx": "89500.00", "tpOrdPx": "-1", "tpTriggerPxType": "last",
                "slTriggerPx": "83400.00", "slOrdPx": "-1", "slTriggerPxType": "last"
            }]
        }"#,
    )
    .unwrap();
    assert_eq!(payload, expected);
}

#[test]
fn submitted_request_is_signed_over_its_body() {
    let signal = sample_bullish_signal();
    let request =
        OrderManager::submit_signal(&interface(), "BTC-USDT-SWAP", &signal, "cl \"1\"", 1_710_000_065, 123_456_789)
            .unwrap();
    assert_eq!(request.method, "POST");
    assert_eq!(request.url, "https://www.okx.com/api/v5/trade/order");
    let body = request.body.unwrap();
    let sent: Value = serde_json::from_str(&body).unwrap();
    assert_eq!(sent, build_payload("BTC-USDT-SWAP", &signal, "cl \"1\""));
    let time = "2024-03-09T16:01:05.123Z";
    let message = format!("{}POST/api/v5/trade/order{}", time, body);
    assert_eq!(
        request.headers,
        vec![
            ("OK-ACCESS-KEY".to_string(), "the-key".to_string()),
            ("OK-ACCESS-SIGN".to_string(), sign("the-secret", &message)),
            ("OK-ACCESS-TIMESTAMP".to_string(), time.to_string()),
            ("OK-ACCESS-PASSPHRASE".to_string(), "the-phrase".to_string()),
        ],
    );
}

#[test]
fn accepted_orders_give_their_name() {
    let taken = OrderManager::submission(
        reply(r#"{"code":"0","msg":"","data":[{"ordId":"77","sCode":"0","sMsg":""}]}"#),
        "cl_1",
    )
    .unwrap();
    assert_eq!(taken.entry_ord_id, "77");
    assert_eq!(taken.client_ord_id, "cl_1");
    let without_code =
        OrderManager::submission(reply(r#"{"code":"0","data":[{"ordId":"78"}]}"#), "cl_2").unwrap();
    assert_eq!(without_code.entry_ord_id, "78");
}

#[test]
fn refusals_carry_code_and_message() {
    assert_eq!(
        refusal(r#"{"code":"50113","msg":"Invalid Sign","data":[]}"#),
        ("50113".to_string(), "Invalid Sign".to_string()),
    );
    assert_eq!(refusal(r#"{"data":[]}"#), ("".to_string(), "".to_string()));
    assert_eq!(refusal(r#"{"code":0,"data":[{"ordId":"1"}]}"#), ("".to_string(), "".to_string()));
    assert_eq!(
        refusal(r#"{"code":"0","data":[{"sCode":"51008","sMsg":"Insufficient margin","ordId":""}]}"#),
        ("51008".to_string(), "Insufficient margin".to_string()),
    );
}

#[test]
fn unreadable_answers_say_what_is_missing() {
    assert_eq!(unreadable(r#"{"code":"0"}"#), "missing data array");
    assert_eq!(unreadable(r#"{"code":"0","data":{"0":{"ordId":"1"}}}"#), "missing data array");
    assert_eq!(unreadable(r#"{"code":"0","data":[]}"#), "empty data array");
    assert_eq!(unreadable(r#"{"code":"0","data":[{"sCode":"0"}]}"#), "missing ordId");
    assert_eq!(unreadable(r#"{"code":"0","data":[7]}"#), "missing ordId");
}

#[test]
fn transport_errors_are_passed_on() {
    match OrderManager::submission(Err("timed out".to_string()), "cl_1") {
        Err(e) => assert_eq!(e.to_text(), "transport error: timed out"),
        Ok(s) => panic!("taken: {:?}", s),
    }
}

#[test]
fn errors_in_words() {
    let refused = SubmissionError::Rejected { code: "1".to_string(), msg: "no".to_string() };
    assert_eq!(refused.to_text(), "OKX rejected order: code=1 msg=no");
    assert_eq!(
        SubmissionError::Malformed("missing ordId".to_string()).to_text(),
        "malformed response: missing ordId",
    );
}

#[test]
fn cancellations() {
    let request = OrderManager::cancel(&interface(), "BTC-USDT-SWAP", "77", 0, 0).unwrap();
    assert_eq!(request.url, "https://www.okx.com/api/v5/trade/cancel-order");
    let sent: Value = serde_json::from_str(&request.body.unwrap()).unwrap();
    assert_eq!(sent["instId"], "BTC-USDT-SWAP");
    assert_eq!(sent["ordId"], "77");
    assert!(OrderManager::cancel_reply(reply(r#"{"code":"0"}"#)).is_ok());
    match OrderManager::cancel_reply(reply(r#"{"code":"51400","msg":"gone"}"#)) {
        Err(SubmissionError::Rejected { code, msg }) => {
            assert_eq!(code, "51400");
            assert_eq!(msg, "gone");
        }
        other => panic!("expected a refusal, got {:?}", other),
    }
    assert!(matches!(
        OrderManager::cancel_reply(Err("timed out".to_string())),
        Err(SubmissionError::Transport(_))
    ));
}

#[test]
fn market_orders() {
    let request = OrderManager::market_buy(&interface(), "BTC-USDT-SWAP", "3", 0, 0).unwrap();
    let sent: Value = serde_json::from_str(&request.body.unwrap()).unwrap();
    let expected: Value = serde_json::from_str(
        r#"{"instId":"BTC-USDT-SWAP","tdMode":"cross","side":"buy","ordType":"market","sz":"3"}"#,
    )
    .unwrap();
    assert_eq!(sent, expected);
    let named = reply(r#"{"code":"0","data":[{"ordId":"5"}]}"#).unwrap();
    assert_eq!(OrderManager::market_buy_reply(&named), Some("5".to_string()));
    let nameless = reply(r#"{"code":"0","data":[]}"#).unwrap();
    assert_eq!(OrderManager::market_buy_reply(&nameless), Some("Unknown".to_string()));
    let keyed = reply(r#"{"code":"0","data":{"0":{"ordId":"5"}}}"#).unwrap();
    assert_eq!(OrderManager::market_buy_reply(&keyed), Some("Unknown".to_string()));
    let refused = reply(r#"{"code":"1","msg":"no"}"#).unwrap();
    assert_eq!(OrderManager::market_buy_reply(&refused), None);
}
