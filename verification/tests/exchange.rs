use augur::abc_brc::PatternDirection;
use augur::candle::Timeframe;
use augur::config::Config;
use augur::config::Environment;
use augur::number::Real;
use augur::okx_interface::OkxInterface;
use augur::position::OrderUpdate;
use augur::position::PositionState;
use augur::position::Positions;
use augur::private_ws::build_login_message;
use augur::private_ws::build_subscribe_message;
use augur::private_ws::entry_of_exit;
use augur::private_ws::handle_message;
use augur::private_ws::handle_positions;
use augur::private_ws::login_step;
use augur::private_ws::session_step;
use augur::private_ws::Action;
use augur::private_ws::PrivateWsConfig;
use augur::private_ws::Session;
use augur::private_ws::Step;
use augur::reconnect::Backoff;
use augur::risk::EntryZone;
use augur::risk::TradeSignal;
use augur::signing::integer_text;
use augur::signing::request_time;
use augur::signing::sign;
use augur::ws_client::parse_book;
use augur::ws_client::parse_message;
use augur::ws_client::parse_trades;
use augur::ws_client::read_step;
use augur::ws_client::ReadStep;
use augur::ws_client::Subject;
use augur::ws_client::WsClient;
use augur::ws_client::WsConfig;
use augur::ws_types::BookData;
use augur::ws_types::Frame;
use augur::ws_types::StreamEvent;
use augur::ws_types::TradeData;
use augur::ws_types::WsArg;
use augur::ws_types::WsEnvelope;
use serde_json::Value;

fn num(x: f64) -> Real {
    Real { bits: x.to_bits() }
}

fn text(s: &str) -> String {
    s.to_string()
}

fn json(s: &str) -> Value {
    serde_json::from_str(s).unwrap()
}

fn environment() -> Environment {
    Environment {
        api_key: Some(text("the-key")),
        secret_key: Some(text("the-secret")),
        passphrase: Some(text("the-phrase")),
        trading_enabled: None,
        account_balance: None,
        persistence_enabled: None,
        persistence_path: None,
    }
}

fn entry(id: &str) -> Positions {
    let signal = TradeSignal {
        direction: PatternDirection::Bullish,
        timeframe: Timeframe::H1,
        entry_zone: EntryZone::Golden,
        entry_price: num(100.0),
        stop_price: num(95.0),
        target_price: num(120.0),
        contracts: 10,
        risk_amount: num(50.0),
        reward_amount: num(200.0),
        rr_ratio: num(4.0),
    };
    let mut p = Positions::new();
    p.record_submission(&signal, text(id), text("ord_1"), 1_000);
    p
}

#[test]
fn settings_have_defaults() {
    let c = Config::load(environment()).unwrap();
    assert_eq!(c.api_key, "the-key");
    assert_eq!(c.secret_key, "the-secret");
    assert_eq!(c.passphrase, "the-phrase");
    assert!(c.is_paper_trading);
    assert!(!c.trading_enabled);
    assert_eq!(c.account_balance, num(10_000.0));
    assert!(c.persistence_enabled);
    assert_eq!(c.persistence_path, "/mnt/usb_ssd/augur_data");
}

#[test]
fn settings_are_read() {
    let mut env = environment();
    env.trading_enabled = Some(text("1"));
    env.account_balance = Some(text("2500.75"));
    env.persistence_enabled = Some(text("0"));
    env.persistence_path = Some(text("/data"));
    let c = Config::load(env).unwrap();
    assert!(c.trading_enabled);
    assert_eq!(c.account_balance, num(2500.75));
    assert!(!c.persistence_enabled);
    assert_eq!(c.persistence_path, "/data");
    let mut env = environment();
    env.trading_enabled = Some(text("true"));
    env.account_balance = Some(text("plenty"));
    let c = Config::load(env).unwrap();
    assert!(!c.trading_enabled);
    assert_eq!(c.account_balance, num(10_000.0));
}

#[test]
fn missing_credentials_are_named() {
    let mut env = environment();
    env.passphrase = None;
    assert_eq!(Config::load(env).err(), Some(text("Missing OKX_PASSPHRASE")));
    let mut env = environment();
    env.secret_key = None;
    env.passphrase = None;
    assert_eq!(Config::load(env).err(), Some(text("Missing OKX_SECRET_KEY")));
    let mut env = environment();
    env.api_key = None;
    env.secret_key = None;
    assert_eq!(Config::load(env).err(), Some(text("Missing OKX_API_KEY")));
}

#[test]
fn signatures_are_hmac_sha256_in_base64() {
    assert_eq!(
        sign("key", "The quick brown fox jumps over the lazy dog"),
        "97yD9DBThCSxMpjmqm+xQ+9NWaFJRhdZl0edvC0aPNg=",
    );
    assert_eq!(sign("", ""), "thNnmggU2ex3L5XXeMNfxf8Wl8STcVZTxscSFEKSxa0=");
}

#[test]
fn request_times_have_milliseconds() {
    assert_eq!(request_time(1_710_000_065, 123_456_789).unwrap(), "2024-03-09T16:01:05.123Z");
    assert_eq!(request_time(0, 0).unwrap(), "1970-01-01T00:00:00.000Z");
    assert!(request_time(i64::MIN, 0).is_none());
    assert_eq!(integer_text(-42), "-42");
    assert_eq!(integer_text(i64::MIN), "-9223372036854775808");
    assert_eq!(integer_text(1_710_000_065), "1710000065");
}

#[test]
fn simulated_trading_is_a_header() {
    let paper = OkxInterface::new(Config::load(environment()).unwrap());
    let names: Vec<String> = paper.default_headers().into_iter().map(|h| h.0).collect();
    assert_eq!(names, vec!["content-type", "accept", "x-simulated-trading"]);
    let mut config = Config::load(environment()).unwrap();
    config.is_paper_trading = false;
    let live = OkxInterface::new(config);
    assert_eq!(live.default_headers().len(), 2);
    assert!(!live.config().is_paper_trading);
}

#[test]
fn history_requests_sign_their_query() {
    let interface = OkxInterface::new(Config::load(environment()).unwrap());
    let q = interface.get_orders_history("SWAP", "BTC-USDT-SWAP", 0, 0).unwrap();
    let path = "/api/v5/trade/orders-history?instType=SWAP&instId=BTC-USDT-SWAP";
    assert_eq!(q.method, "GET");
    assert_eq!(q.url, format!("https://www.okx.com{}", path));
    assert!(q.body.is_none());
    let message = format!("1970-01-01T00:00:00.000ZGET{}", path);
    assert_eq!(q.headers[1], (text("OK-ACCESS-SIGN"), sign("the-secret", &message)));
    let t = interface.get_ticker("BTC-USDT-SWAP");
    assert_eq!(t.url, "https://www.okx.com/api/v5/market/ticker?instId=BTC-USDT-SWAP");
    assert!(t.headers.is_empty());
    assert!(interface.get_orders_history("SWAP", "X", i64::MAX, 0).is_none());
}

#[test]
fn private_stream_follows_the_settings() {
    let mut config = Config::load(environment()).unwrap();
    let paper = PrivateWsConfig::from_app_config(&config, vec![text("BTC-USDT-SWAP")]);
    assert_eq!(paper.url, "wss://wspap.okx.com:8443/ws/v5/private?brokerId=9999");
    assert_eq!(paper.instruments, vec!["BTC-USDT-SWAP"]);
    config.is_paper_trading = false;
    let live = PrivateWsConfig::from_app_config(&config, Vec::new());
    assert_eq!(live.url, "wss://ws.okx.com:8443/ws/v5/private");
    assert_eq!(live.secret_key, "the-secret");
}

#[test]
fn login_is_signed_with_its_time() {
    let config =
        PrivateWsConfig::from_app_config(&Config::load(environment()).unwrap(), Vec::new());
    let message = json(&build_login_message(&config, 1_710_000_065));
    assert_eq!(message["op"], "login");
    let arg = &message["args"][0];
    assert_eq!(arg["apiKey"], "the-key");
    assert_eq!(arg["passphrase"], "the-phrase");
    assert_eq!(arg["timestamp"], "1710000065");
    assert_eq!(arg["sign"], sign("the-secret", "1710000065GET/users/self/verify"));
}

#[test]
fn private_subscription_names_two_channels() {
    assert_eq!(
        json(&build_subscribe_message()),
        json(
            r#"{"op":"subscribe","args":[
                {"channel":"orders","instType":"SWAP"},
                {"channel":"positions","instType":"SWAP"}
            ]}"#,
        ),
    );
}

#[test]
fn login_waits_for_its_answer() {
    let said = |s: &str| login_step(Frame::Text(text(s)));
    assert!(matches!(said(r#"{"event":"login","code":"0"}"#), Step::LoggedIn));
    assert!(matches!(said("pong"), Step::Continue));
    assert!(matches!(said(r#"{"event":"error","code":"0"}"#), Step::Continue));
    assert!(matches!(login_step(Frame::Other), Step::Continue));
    assert!(matches!(login_step(Frame::Close), Step::Continue));
    let fault = |step: Step| match step {
        Step::Failed(e) => e,
        other => panic!("expected a failure, got {:?}", other),
    };
    assert_eq!(fault(said(r#"{"event":"login","code":"60009","msg":"no"}"#)), "login rejected");
    assert_eq!(fault(said(r#"{"event":"login"}"#)), "login rejected");
    assert_eq!(fault(login_step(Frame::Ended)), "connection closed during login");
    assert_eq!(fault(login_step(Frame::Failed(text("reset")))), "reset");
}

#[test]
fn session_ends_with_its_stream() {
    let mut p = Positions::new();
    assert!(matches!(session_step(Frame::Text(text("pong")), &mut p), Step::Continue));
    assert!(matches!(session_step(Frame::Text(text("not json")), &mut p), Step::Continue));
    assert!(matches!(session_step(Frame::Other, &mut p), Step::Continue));
    assert!(matches!(session_step(Frame::Close, &mut p), Step::Closed));
    assert!(matches!(session_step(Frame::Ended, &mut p), Step::Closed));
    assert!(matches!(session_step(Frame::Failed(text("reset")), &mut p), Step::Failed(_)));
}

#[test]
fn sessions_log_in_and_subscribe_before_they_listen() {
    let config = PrivateWsConfig::from_app_config(
        &Config::load(environment()).unwrap(),
        vec![text("BTC-USDT-SWAP")],
    );
    let mut p = entry("cl_1");
    let filled = r#"{"arg":{"channel":"orders"},"data":[{"clOrdId":"cl_1","ordId":"ord_1","state":"filled"}]}"#;
    let (mut session, login) = Session::start(&config, 1_710_000_065);
    assert_eq!(json(&login), json(&build_login_message(&config, 1_710_000_065)));
    assert!(matches!(session.on_interval(), Action::Wait));
    assert!(matches!(session.on_frame(Frame::Text(text(filled)), &mut p), Action::Wait));
    assert_eq!(p.state_for_client_id("cl_1"), Some(PositionState::Pending));

    let accepted = Frame::Text(text(r#"{"event":"login","code":"0"}"#));
    match session.on_frame(accepted, &mut p) {
        Action::Send(s) => assert_eq!(json(&s), json(&build_subscribe_message())),
        other => panic!("expected the subscription, got {:?}", other),
    }
    match session.on_interval() {
        Action::Send(s) => assert_eq!(s, "ping"),
        other => panic!("expected a sign of life, got {:?}", other),
    }
    assert!(matches!(session.on_frame(Frame::Text(text(filled)), &mut p), Action::Wait));
    assert_eq!(p.state_for_client_id("cl_1"), Some(PositionState::Open));
    assert!(matches!(session.on_frame(Frame::Close, &mut p), Action::Reconnect));
    assert!(matches!(session.on_frame(Frame::Ended, &mut p), Action::Reconnect));
    match session.on_frame(Frame::Failed(text("reset")), &mut p) {
        Action::Retry(e) => assert_eq!(e, "reset"),
        other => panic!("expected a pause, got {:?}", other),
    }
}

#[test]
fn sessions_that_cannot_log_in_fail() {
    let config = PrivateWsConfig::from_app_config(
        &Config::load(environment()).unwrap(),
        vec![text("BTC-USDT-SWAP")],
    );
    let mut p = Positions::new();
    let (mut session, _) = Session::start(&config, 0);
    let refused = Frame::Text(text(r#"{"event":"login","code":"60009"}"#));
    match session.on_frame(refused, &mut p) {
        Action::Retry(e) => assert_eq!(e, "login rejected"),
        other => panic!("expected a pause, got {:?}", other),
    }
    assert!(matches!(session.on_interval(), Action::Wait));
    match session.on_frame(Frame::Ended, &mut p) {
        Action::Retry(e) => assert_eq!(e, "connection closed during login"),
        other => panic!("expected a pause, got {:?}", other),
    }
}

#[test]
fn exits_close_entries_of_any_name() {
    let mut p = entry("a_oco");
    let event = |id: &str, ms: u64| {
        format!(
            r#"{{"arg":{{"channel":"orders"}},"data":[{{"clOrdId":"{}","ordId":"ord_1","state":"filled","uTime":"{}"}}]}}"#,
            id, ms,
        )
    };
    p.apply_order_update(&OrderUpdate {
        client_ord_id: text("a_oco"),
        ord_id: text("ord_1"),
        state: text("filled"),
        fill_price: Some(num(100.0)),
        acc_fill_size: Some(10),
        timestamp_ms: 2000,
    });
    assert_eq!(p.state_for_client_id("a_oco"), Some(PositionState::Open));
    handle_message(&event("a_oco_oco", 3000), &mut p);
    assert_eq!(p.state_for_client_id("a_oco"), Some(PositionState::Closed));
    assert_eq!(p.all()[0].last_update_ms, 3000);
}

#[test]
fn payloads_of_any_kind_are_sent() {
    let okx = OkxInterface::new(Config::load(environment()).unwrap());
    let payload = json(r#"{"instId":"X","reduceOnly":true,"sz":1.5,"px":null,"list":[1,"two",{"a":"b"}]}"#);
    let q = okx.place_order_payload(&payload, 1_710_000_065, 0).unwrap();
    assert_eq!(json(&q.body.unwrap()), payload);
}

#[test]
fn order_events_open_and_close_positions() {
    let mut p = entry("cl_1");
    handle_message(
        r#"{"arg":{"channel":"orders"},"data":[
            {"clOrdId":"cl_1","ordId":"ord_1","state":"partially_filled","fillPx":"100.25","accFillSz":"4.0","uTime":"1500"},
            {"clOrdId":"","ordId":"ord_1","state":"filled","fillPx":"100.5","accFillSz":"10.9","uTime":"2000"}
        ]}"#,
        &mut p,
    );
    assert_eq!(p.state_for_client_id("cl_1"), Some(PositionState::Open));
    assert_eq!(p.all()[0].filled_size, 10);
    assert_eq!(p.all()[0].fill_price, Some(num(100.5)));
    session_step(
        Frame::Text(text(
            r#"{"arg":{"channel":"orders"},"data":[{"clOrdId":"cl_1_oco","ordId":"ord_2","state":"live"}]}"#,
        )),
        &mut p,
    );
    assert_eq!(p.state_for_client_id("cl_1"), Some(PositionState::Open));
    handle_message(
        r#"{"arg":{"channel":"orders"},"data":[{"clOrdId":"cl_1_oco","ordId":"ord_2","state":"filled","uTime":"3000"}]}"#,
        &mut p,
    );
    assert_eq!(p.state_for_client_id("cl_1"), Some(PositionState::Closed));
    assert_eq!(p.all()[0].last_update_ms, 3000);
}

#[test]
fn other_messages_change_nothing() {
    let mut p = entry("cl_1");
    let fill = r#"[{"clOrdId":"cl_1","ordId":"ord_1","state":"filled"}]"#;
    handle_message(&format!(r#"{{"arg":{{"channel":"positions"}},"data":{}}}"#, fill), &mut p);
    handle_message(&format!(r#"{{"data":{}}}"#, fill), &mut p);
    handle_message(
        &format!(r#"{{"event":"subscribe","arg":{{"channel":"orders"}},"data":{}}}"#, fill),
        &mut p,
    );
    handle_message(r#"{"arg":{"channel":"orders"}}"#, &mut p);
    handle_message("{", &mut p);
    assert_eq!(p.state_for_client_id("cl_1"), Some(PositionState::Pending));
}

#[test]
fn exits_are_known_by_their_mark() {
    assert_eq!(entry_of_exit("cl_1_oco"), Some(text("cl_1")));
    assert_eq!(entry_of_exit("cl_1_oco_oco"), Some(text("cl_1_oco")));
    assert_eq!(entry_of_exit("_oco"), Some(text("")));
    assert_eq!(entry_of_exit("cl_oco_1"), None);
    assert_eq!(entry_of_exit("oco"), None);
    assert_eq!(entry_of_exit("ключ_oco"), Some(text("ключ")));
}

#[test]
fn position_messages_become_lines() {
    let message = json(
        r#"{"arg":{"channel":"positions"},"data":[
            {"instId":"BTC-USDT-SWAP","posSide":"long","pos":"10","avgPx":"100.5"},
            {}
        ]}"#,
    );
    assert_eq!(
        handle_positions(&message),
        vec!["BTC-USDT-SWAP long pos=10 avg=100.5", "? ? pos=0 avg=0"],
    );
    assert!(handle_positions(&json("{}")).is_empty());
}

#[test]
fn pauses_double_up_to_half_a_minute() {
    let mut b = Backoff::new();
    let mut pauses: Vec<u64> = Vec::new();
    for _ in 0..7 {
        pauses.push(b.failed());
    }
    assert_eq!(pauses, vec![1, 2, 4, 8, 16, 30, 30]);
    b.succeeded();
    assert_eq!(b.failed(), 1);
    assert_eq!(b.failed(), 2);
}

#[test]
fn public_streams_have_their_addresses() {
    let paper = WsConfig::paper_trading(vec![text("A")]);
    assert_eq!(paper.url, "wss://wspap.okx.com:8443/ws/v5/public?brokerId=9999");
    assert_eq!(paper.channel_buffer, 1024);
    let live = WsConfig::live(vec![text("A")]);
    assert_eq!(live.url, "wss://ws.okx.com:8443/ws/v5/public");
    assert_eq!(live.instruments, vec!["A"]);
}

#[test]
fn public_subscription_names_two_channels_per_instrument() {
    let client = WsClient::new(WsConfig::live(vec![text("A"), text("B\"")]));
    assert_eq!(
        json(&client.build_subscribe_message()),
        json(
            r#"{"op":"subscribe","args":[
                {"channel":"trades","instId":"A"},
                {"channel":"books5","instId":"A"},
                {"channel":"trades","instId":"B\""},
                {"channel":"books5","instId":"B\""}
            ]}"#,
        ),
    );
    let idle = WsClient::new(WsConfig::live(Vec::new()));
    assert_eq!(json(&idle.build_subscribe_message()), json(r#"{"op":"subscribe","args":[]}"#));
    assert_eq!(idle.config().channel_buffer, 1024);
}

#[test]
fn public_frames() {
    assert_eq!(read_step(&Frame::Text(text("pong"))), ReadStep::Skip);
    assert_eq!(read_step(&Frame::Text(text("{}"))), ReadStep::Parse);
    assert_eq!(read_step(&Frame::Other), ReadStep::Skip);
    assert_eq!(read_step(&Frame::Close), ReadStep::Stop);
    assert_eq!(read_step(&Frame::Failed(text("reset"))), ReadStep::Stop);
    assert_eq!(read_step(&Frame::Ended), ReadStep::Stop);
}

#[test]
fn messages_are_told_apart() {
    let envelope = |channel: &str, inst: Option<&str>| WsEnvelope {
        arg: Some(WsArg { channel: text(channel), inst_id: inst.map(text) }),
        data: Some(json("[]")),
        event: None,
    };
    assert!(matches!(parse_message(&envelope("trades", None)), Subject::Trades));
    match parse_message(&envelope("books5", Some("A"))) {
        Subject::Book(id) => assert_eq!(id, "A"),
        other => panic!("{:?}", other),
    }
    assert!(matches!(parse_message(&envelope("books5", None)), Subject::Nothing));
    match parse_message(&envelope("tickers", Some("A"))) {
        Subject::Unknown(channel) => assert_eq!(channel, "tickers"),
        other => panic!("{:?}", other),
    }
    let mut confirmed = envelope("trades", None);
    confirmed.event = Some(text("subscribe"));
    assert!(matches!(parse_message(&confirmed), Subject::Nothing));
    let mut empty = envelope("trades", None);
    empty.data = None;
    assert!(matches!(parse_message(&empty), Subject::Nothing));
    let nameless = WsEnvelope { arg: None, data: Some(json("[]")), event: None };
    assert!(matches!(parse_message(&nameless), Subject::Nothing));
}

fn trade_data(px: &str, sz: &str, ts: &str) -> TradeData {
    TradeData {
        inst_id: text("BTC-USDT-SWAP"),
        trade_id: text("1"),
        px: text(px),
        sz: text(sz),
        side: text("sell"),
        ts: text(ts),
    }
}

#[test]
fn trades_are_read() {
    let two = vec![trade_data("67000.1", "0.25", "1710000065000"), trade_data("1", "1", "1")];
    match parse_trades(&two) {
        Some(StreamEvent::Trade(t)) => {
            assert_eq!(t.inst_id, "BTC-USDT-SWAP");
            assert_eq!(t.price, num(67000.1));
            assert_eq!(t.size, num(0.25));
            assert_eq!(t.side, "sell");
            assert_eq!(t.timestamp_ms, 1_710_000_065_000);
        }
        other => panic!("{:?}", other),
    }
    assert!(parse_trades(&Vec::new()).is_none());
    assert!(parse_trades(&vec![trade_data("", "0.25", "1")]).is_none());
    assert!(parse_trades(&vec![trade_data("1", "x", "1")]).is_none());
    assert!(parse_trades(&vec![trade_data("1", "1", "-1")]).is_none());
}

#[test]
fn books_are_read_without_broken_levels() {
    let level = |parts: &[&str]| -> Vec<String> { parts.iter().map(|s| s.to_string()).collect() };
    let book = BookData {
        inst_id: None,
        asks: vec![
            level(&["101.5", "2", "0", "4"]),
            level(&["102"]),
            level(&[]),
            level(&["x", "1"]),
            level(&["103", "3"]),
        ],
        bids: vec![level(&["101", "1.5"])],
        ts: text("99"),
    };
    match parse_book(&vec![book.clone()], "A") {
        Some(StreamEvent::Book(b)) => {
            assert_eq!(b.inst_id, "A");
            assert_eq!(b.timestamp_ms, 99);
            assert_eq!(b.asks.len(), 2);
            assert_eq!(b.asks[0].price, num(101.5));
            assert_eq!(b.asks[1].size, num(3.0));
            assert_eq!(b.bids[0].price, num(101.0));
            assert_eq!(b.bids[0].size, num(1.5));
        }
        other => panic!("{:?}", other),
    }
    let mut late = book;
    late.ts = text("soon");
    assert!(parse_book(&vec![late], "A").is_none());
    assert!(parse_book(&Vec::new(), "A").is_none());
}
