//! What is sent to the exchange, and what its answers and messages mean.

use crate::config::ConfigView;
use crate::fixed::fixed_text;
use crate::json::flat_content;
use crate::json::integer_in;
use crate::json::list_in;
use crate::json::number_in;
use crate::json::parsed_json;
use crate::json::says;
use crate::json::text_in;
use crate::json::text_or;
use crate::okx_interface::cancellation;
use crate::okx_interface::history_path;
use crate::okx_interface::market_order;
use crate::okx_interface::signed_request_of;
use crate::order_manager::cancel_of_reply;
use crate::order_manager::entry_fields;
use crate::order_manager::entry_of_reply;
use crate::order_manager::exit_fields;
use crate::order_manager::exit_id;
use crate::order_manager::payload_members;
use crate::order_manager::SubmissionErrorView;
use crate::parse::parsed_real;
use crate::position::OrderUpdateView;
use crate::position::PositionsView;
use crate::private_ws::after_event;
use crate::private_ws::after_events;
use crate::private_ws::after_message;
use crate::private_ws::after_text;
use crate::private_ws::answers;
use crate::private_ws::is_exit;
use crate::private_ws::login_prehash;
use crate::private_ws::login_step_of;
use crate::private_ws::order_event;
use crate::private_ws::parent_id;
use crate::private_ws::private_url;
use crate::private_ws::session_step_of;
use crate::private_ws::subscription_content;
use crate::private_ws::Action;
use crate::private_ws::Step;
use crate::reconciliation::counted;
use crate::reconciliation::entered;
use crate::reconciliation::exits_in;
use crate::reconciliation::history;
use crate::reconciliation::is_exit_of;
use crate::reconciliation::left;
use crate::reconciliation::order_entry;
use crate::reconciliation::orders_in;
use crate::reconciliation::reconciled;
use crate::reconciliation::state_of;
use crate::reconciliation::without_exits;
use crate::reconciliation::Pass;
use crate::reconciliation::ReconciliationStats;
use crate::risk::TradeSignal;
use crate::signing::base64_of;
use crate::signing::hmac_sha256_of;
use crate::text::decimal;
use crate::text::parsed_u64;
use crate::ws_client::channels_of;
use crate::ws_client::is_trade_of;
use crate::ws_client::levels_of;
use crate::ws_client::read_step_of;
use crate::ws_client::readable_trade;
use crate::ws_client::subject_of;
use crate::ws_client::SubjectView;
use crate::ws_types::BookLevel;
use crate::ws_types::Frame;
use crate::ws_types::TradeData;
use crate::ws_types::TradeUpdate;
use crate::ws_types::WsEnvelope;
use vstd::prelude::*;

verus! {

/// The value of a named field.
pub open spec fn field(fields: Seq<(Seq<char>, Seq<char>)>, name: Seq<char>) -> Option<Seq<char>>
    decreases fields.len(),
{
    if fields.len() == 0 {
        None
    } else if fields.last().0 == name {
        Some(fields.last().1)
    } else {
        field(fields.drop_last(), name)
    }
}

proof fn lemma_field(fields: Seq<(Seq<char>, Seq<char>)>, k: int)
    requires
        0 <= k < fields.len(),
        forall|i: int| k < i < fields.len() ==> (#[trigger] fields[i]).0 != fields[k].0,
    ensures
        field(fields, fields[k].0) == Some(fields[k].1),
    decreases fields.len(),
{
    if k < fields.len() - 1 {
        let head = fields.drop_last();
        assert(fields.last() == fields[fields.len() - 1]);
        assert forall|i: int| k < i < head.len() implies (#[trigger] head[i]).0 != head[k].0 by {
            assert(head[i] == fields[i]);
        }
        lemma_field(head, k);
    }
}

/// An entry order is a limit order at the signal's entry price and of its size, across the margin,
/// under its name: a bullish one buys into a long position, a bearish one sells into a short one.
pub proof fn law_entry_orders(inst_id: Seq<char>, s: TradeSignal, id: Seq<char>)
    ensures
        ({
            let f = entry_fields(inst_id, s, id);
            &&& f.len() == 8
            &&& field(f, "instId"@) == Some(inst_id)
            &&& field(f, "tdMode"@) == Some("cross"@)
            &&& field(f, "ordType"@) == Some("limit"@)
            &&& field(f, "px"@) == Some(fixed_text(s.entry_price, 2))
            &&& field(f, "sz"@) == Some(decimal(s.contracts as nat))
            &&& field(f, "clOrdId"@) == Some(id)
            &&& s.direction is Bullish ==> field(f, "side"@) == Some("buy"@) && field(f, "posSide"@)
                == Some("long"@)
            &&& s.direction is Bearish ==> field(f, "side"@) == Some("sell"@) && field(f, "posSide"@)
                == Some("short"@)
        }),
{
    reveal_strlit("instId");
    reveal_strlit("tdMode");
    reveal_strlit("side");
    reveal_strlit("posSide");
    reveal_strlit("ordType");
    reveal_strlit("px");
    reveal_strlit("sz");
    reveal_strlit("clOrdId");
    let f = entry_fields(inst_id, s, id);
    assert(f[0].0[0] == 'i');
    assert(f[1].0[0] == 't');
    assert(f[2].0.len() == 4);
    assert(f[3].0[0] == 'p' && f[3].0.len() == 7);
    assert(f[4].0[0] == 'o');
    assert(f[5].0[0] == 'p' && f[5].0.len() == 2);
    assert(f[6].0[0] == 's' && f[6].0.len() == 2);
    assert(f[7].0[0] == 'c');
    assert(f.len() == 8);
    lemma_field(f, 0);
    lemma_field(f, 1);
    lemma_field(f, 2);
    lemma_field(f, 3);
    lemma_field(f, 4);
    lemma_field(f, 5);
    lemma_field(f, 6);
    lemma_field(f, 7);
}

/// The exits of an entry trigger at the signal's target and at its stop, by the last price, and are
/// done at market. They carry the name of the entry with a mark.
pub proof fn law_exit_orders(s: TradeSignal, id: Seq<char>)
    ensures
        ({
            let f = exit_fields(s, id);
            &&& f.len() == 7
            &&& field(f, "attachAlgoClOrdId"@) == Some(id + "_oco"@)
            &&& field(f, "tpTriggerPx"@) == Some(fixed_text(s.target_price, 2))
            &&& field(f, "tpOrdPx"@) == Some("-1"@)
            &&& field(f, "tpTriggerPxType"@) == Some("last"@)
            &&& field(f, "slTriggerPx"@) == Some(fixed_text(s.stop_price, 2))
            &&& field(f, "slOrdPx"@) == Some("-1"@)
            &&& field(f, "slTriggerPxType"@) == Some("last"@)
        }),
{
    reveal_strlit("attachAlgoClOrdId");
    reveal_strlit("tpTriggerPx");
    reveal_strlit("tpOrdPx");
    reveal_strlit("tpTriggerPxType");
    reveal_strlit("slTriggerPx");
    reveal_strlit("slOrdPx");
    reveal_strlit("slTriggerPxType");
    let f = exit_fields(s, id);
    assert(f[0].0[0] == 'a');
    assert(f[1].0[0] == 't' && f[1].0.len() == 11);
    assert(f[2].0[0] == 't' && f[2].0.len() == 7);
    assert(f[3].0[0] == 't' && f[3].0.len() == 15);
    assert(f[4].0[0] == 's' && f[4].0.len() == 11);
    assert(f[5].0[0] == 's' && f[5].0.len() == 7);
    assert(f[6].0[0] == 's' && f[6].0.len() == 15);
    lemma_field(f, 0);
    lemma_field(f, 1);
    lemma_field(f, 2);
    lemma_field(f, 3);
    lemma_field(f, 4);
    lemma_field(f, 5);
    lemma_field(f, 6);
}

/// An order goes out as its own texts and one attached list of one object, its exits.
pub proof fn law_exits_are_attached(inst_id: Seq<char>, s: TradeSignal, id: Seq<char>)
    ensures
        ({
            let m = payload_members(inst_id, s, id);
            let f = entry_fields(inst_id, s, id);
            &&& m.len() == f.len() + 1
            &&& forall|i: int|
                0 <= i < f.len() ==> #[trigger] m[i] == (
                    f[i].0,
                    crate::json::text_content(f[i].1),
                )
            &&& m.last() == (
                "attachAlgoOrds"@,
                crate::json::list_content(seq![flat_content(exit_fields(s, id))]),
            )
        }),
{
}

/// A market order names the instrument, the side and the size; a cancellation the instrument and the
/// order.
pub proof fn law_short_orders(inst_id: Seq<char>, side: Seq<char>, sz: Seq<char>, ord_id: Seq<char>)
    ensures
        ({
            let f = market_order(inst_id, side, sz);
            &&& f.len() == 5
            &&& field(f, "instId"@) == Some(inst_id)
            &&& field(f, "tdMode"@) == Some("cross"@)
            &&& field(f, "side"@) == Some(side)
            &&& field(f, "ordType"@) == Some("market"@)
            &&& field(f, "sz"@) == Some(sz)
        }),
        ({
            let f = cancellation(inst_id, ord_id);
            &&& f.len() == 2
            &&& field(f, "instId"@) == Some(inst_id)
            &&& field(f, "ordId"@) == Some(ord_id)
        }),
{
    reveal_strlit("instId");
    reveal_strlit("tdMode");
    reveal_strlit("side");
    reveal_strlit("ordType");
    reveal_strlit("sz");
    reveal_strlit("ordId");
    let f = market_order(inst_id, side, sz);
    assert(f[0].0[0] == 'i');
    assert(f[1].0[0] == 't');
    assert(f[2].0.len() == 4);
    assert(f[3].0.len() == 7);
    assert(f[4].0.len() == 2);
    lemma_field(f, 0);
    lemma_field(f, 1);
    lemma_field(f, 2);
    lemma_field(f, 3);
    lemma_field(f, 4);
    let g = cancellation(inst_id, ord_id);
    assert(g[0].0.len() == 6 && g[1].0.len() == 5);
    lemma_field(g, 0);
    lemma_field(g, 1);
}

/// A request is signed with the account's secret over its own time, method, path and body, and sent
/// with that signature, that time and the account's key and phrase.
pub proof fn law_requests_are_signed(
    config: ConfigView,
    time: Seq<char>,
    method: Seq<char>,
    path: Seq<char>,
    body: Option<Seq<char>>,
)
    ensures
        ({
            let q = signed_request_of(config, time, method, path, body);
            let signed = match body {
                Some(b) => time + method + path + b,
                None => time + method + path,
            };
            &&& q.method == method
            &&& q.url == "https://www.okx.com"@ + path
            &&& q.body == body
            &&& q.headers.len() == 4
            &&& field(q.headers, "OK-ACCESS-KEY"@) == Some(config.api_key)
            &&& field(q.headers, "OK-ACCESS-SIGN"@) == Some(
                base64_of(hmac_sha256_of(config.secret_key, signed)),
            )
            &&& field(q.headers, "OK-ACCESS-TIMESTAMP"@) == Some(time)
            &&& field(q.headers, "OK-ACCESS-PASSPHRASE"@) == Some(config.passphrase)
        }),
{
    reveal_strlit("OK-ACCESS-KEY");
    reveal_strlit("OK-ACCESS-SIGN");
    reveal_strlit("OK-ACCESS-TIMESTAMP");
    reveal_strlit("OK-ACCESS-PASSPHRASE");
    let f = signed_request_of(config, time, method, path, body).headers;
    assert(f[0].0.len() == 13);
    assert(f[1].0.len() == 14);
    assert(f[2].0.len() == 19);
    assert(f[3].0.len() == 20);
    lemma_field(f, 0);
    lemma_field(f, 1);
    lemma_field(f, 2);
    lemma_field(f, 3);
    assert(time + method + path + Seq::<char>::empty() =~= time + method + path);
}

/// Where orders of an instrument are asked for, and where the streams are.
pub proof fn law_addresses(inst_type: Seq<char>, inst_id: Seq<char>)
    ensures
        history_path(inst_type, inst_id) == "/api/v5/trade/orders-history?instType="@ + inst_type
            + "&instId="@ + inst_id,
        private_url(true) == "wss://wspap.okx.com:8443/ws/v5/private?brokerId=9999"@,
        private_url(false) == "wss://ws.okx.com:8443/ws/v5/private"@,
{
}

/// The answer to an order: taken exactly where the whole answer is good, there is an order in it that
/// is good, and that has a number. Otherwise the first of these that is missing is told.
pub proof fn law_answers_to_orders(texts: Map<Seq<char>, Seq<char>>, lists: Map<Seq<char>, nat>)
    ensures
        ({
            let r = entry_of_reply(texts, lists);
            let good = text_in(texts, "/code"@) == Some("0"@);
            let n = list_in(lists, "/data"@);
            let fine = text_in(texts, "/data/0/sCode"@) is None || text_in(texts, "/data/0/sCode"@)
                == Some("0"@);
            let number = text_in(texts, "/data/0/ordId"@);
            let told = |at: Seq<char>| match text_in(texts, at) {
                Some(s) => s,
                None => ""@,
            };
            &&& r is Ok <==> good && n is Some && n->0 > 0 && fine && number is Some
            &&& r matches Ok(id) ==> number == Some(id)
            &&& !good ==> r == Err::<Seq<char>, _>(
                SubmissionErrorView::Rejected { code: told("/code"@), msg: told("/msg"@) },
            )
            &&& good && n is None ==> r == Err::<Seq<char>, _>(
                SubmissionErrorView::Malformed("missing data array"@),
            )
            &&& good && n == Some(0nat) ==> r == Err::<Seq<char>, _>(
                SubmissionErrorView::Malformed("empty data array"@),
            )
            &&& good && n is Some && n->0 > 0 && !fine ==> r == Err::<Seq<char>, _>(
                SubmissionErrorView::Rejected {
                    code: told("/data/0/sCode"@),
                    msg: told("/data/0/sMsg"@),
                },
            )
            &&& good && n is Some && n->0 > 0 && fine && number is None ==> r == Err::<Seq<char>, _>(
                SubmissionErrorView::Malformed("missing ordId"@),
            )
        }),
{
    reveal_strlit("");
    reveal_strlit("0");
    assert(""@.len() != "0"@.len());
}

/// A cancellation is done exactly where the answer is good.
pub proof fn law_answers_to_cancellations(texts: Map<Seq<char>, Seq<char>>)
    ensures
        cancel_of_reply(texts) is Ok <==> text_in(texts, "/code"@) == Some("0"@),
        cancel_of_reply(texts) matches Err(e) ==> {
            let told = |at: Seq<char>| match text_in(texts, at) {
                Some(s) => s,
                None => ""@,
            };
            e == SubmissionErrorView::Rejected { code: told("/code"@), msg: told("/msg"@) }
        },
{
    reveal_strlit("");
    reveal_strlit("0");
    assert(""@.len() != "0"@.len());
}

/// A login signs the time with the account's secret, for the stream's own path.
pub proof fn law_login(time: Seq<char>)
    ensures
        login_prehash(time) == time + "GET"@ + "/users/self/verify"@,
{
    reveal_strlit("GET");
    reveal_strlit("/users/self/verify");
    reveal_strlit("GET/users/self/verify");
    assert("GET"@ + "/users/self/verify"@ =~= "GET/users/self/verify"@);
    assert(time + "GET"@ + "/users/self/verify"@ =~= time + "GET/users/self/verify"@);
}

/// Before the login is answered, a session waits; a good answer lets it subscribe and a bad one ends
/// it. Afterwards messages are read until the stream ends.
pub proof fn law_sessions(frame: Frame, step: Step)
    ensures
        login_step_of(frame, step) ==> {
            &&& frame matches Frame::Text(t) ==> {
                let texts = match parsed_json(t@) {
                    Some((x, _, _)) => Some(x),
                    None => None,
                };
                let answer = texts is Some && text_in(texts->0, "/event"@) == Some("login"@);
                let good = answer && text_in(texts->0, "/code"@) == Some("0"@);
                &&& step is LoggedIn <==> good
                &&& step is Failed <==> answer && !good
                &&& step is Continue <==> !answer
            }
            &&& frame is Close || frame is Other ==> step is Continue
            &&& frame is Ended ==> step is Failed
            &&& frame matches Frame::Failed(e) ==> (step matches Step::Failed(f) && f@ == e@)
        },
        session_step_of(frame, step) ==> {
            &&& frame is Text || frame is Other ==> step is Continue
            &&& frame is Close || frame is Ended ==> step is Closed
            &&& frame matches Frame::Failed(e) ==> (step matches Step::Failed(f) && f@ == e@)
        },
{
}

/// A session that has logged in subscribes, one that is over connects again at once, and one that
/// failed connects again later; every other one waits.
pub proof fn law_actions(step: Step, action: Action)
    requires
        answers(step, action),
    ensures
        step is Continue <==> action is Wait,
        step is LoggedIn <==> action is Send,
        step is Closed <==> action is Reconnect,
        step is Failed <==> action is Retry,
        action matches Action::Send(s) ==> says(s@, subscription_content()),
        step matches Step::Failed(e) ==> (action matches Action::Retry(f) && f@ == e@),
{
}

/// What an order event says: names and state as they stand, or empty; what was filled and when, where
/// it can be read.
pub proof fn law_order_events_are_read(texts: Map<Seq<char>, Seq<char>>, at: Seq<char>)
    ensures
        ({
            let u = order_event(texts, at);
            let told = |key: Seq<char>| match text_in(texts, at + key) {
                Some(s) => s,
                None => ""@,
            };
            &&& u.client_ord_id == told("/clOrdId"@)
            &&& u.ord_id == told("/ordId"@)
            &&& u.state == told("/state"@)
            &&& u.fill_price == number_in(texts, at + "/fillPx"@)
            &&& number_in(texts, at + "/accFillSz"@) matches Some(x) ==> u.acc_fill_size == Some(
                x.to_u64(),
            )
            &&& number_in(texts, at + "/accFillSz"@) is None ==> u.acc_fill_size is None
            &&& integer_in(texts, at + "/uTime"@) matches Some(t) ==> u.timestamp_ms == t
            &&& integer_in(texts, at + "/uTime"@) is None ==> u.timestamp_ms == 0
        }),
{
}

/// The fill of an exit closes the position of its entry; every other order event is taken in as it
/// stands.
pub proof fn law_events_of_the_stream(v: PositionsView, u: OrderUpdateView, id: Seq<char>)
    ensures
        u.state == "filled"@ && u.client_ord_id == id + "_oco"@ ==> after_event(v, u) == v.closed(
            id,
            u.timestamp_ms,
        ),
        u.state != "filled"@ ==> after_event(v, u) == v.after(u),
        (forall|x: Seq<char>| u.client_ord_id != #[trigger] exit_id(x)) ==> after_event(v, u)
            == v.after(u),
{
    crate::private_ws::law_exits_lead_to_their_entry(id);
    assert(exit_id(id) == id + "_oco"@);
    if is_exit(u.client_ord_id) {
        let x = parent_id(u.client_ord_id);
        assert(u.client_ord_id =~= exit_id(x));
    }
}

/// Only messages of the orders channel that are no events of the stream itself change positions, by
/// each of their orders in turn.
pub proof fn law_messages_of_the_stream(
    v: PositionsView,
    texts: Map<Seq<char>, Seq<char>>,
    lists: Map<Seq<char>, nat>,
    n: nat,
)
    ensures
        after_events(v, texts, 0) == v,
        after_events(v, texts, n + 1) == after_event(
            after_events(v, texts, n),
            order_event(texts, "/data/"@ + decimal(n)),
        ),
        text_in(texts, "/event"@) is None && text_in(texts, "/arg/channel"@) == Some("orders"@)
            && list_in(lists, "/data"@) == Some(n) ==> after_message(v, texts, lists) == after_events(
            v,
            texts,
            n,
        ),
        text_in(texts, "/event"@) is Some || text_in(texts, "/arg/channel"@) != Some("orders"@)
            || list_in(lists, "/data"@) is None ==> after_message(v, texts, lists) == v,
{
}

/// Texts that are no documents change nothing.
pub proof fn law_texts_of_the_stream(v: PositionsView, text: Seq<char>)
    ensures
        parsed_json(text) is None ==> after_text(v, text) == v,
        parsed_json(text) matches Some((texts, lists, _)) ==> after_text(v, text) == after_message(
            v,
            texts,
            lists,
        ),
{
}

/// An order of a record is one of ours or another's exactly where it has a name, a number and a
/// state; what was filled and when is read where it can be.
pub proof fn law_orders_of_a_record(texts: Map<Seq<char>, Seq<char>>, at: Seq<char>)
    ensures
        ({
            let r = order_entry(texts, at);
            let name = text_in(texts, at + "/clOrdId"@);
            let number = text_in(texts, at + "/ordId"@);
            let state = text_in(texts, at + "/state"@);
            &&& r is Some <==> name is Some && name->0.len() > 0 && number is Some && state is Some
            &&& r matches Some(u) ==> {
                &&& u.client_ord_id == name->0
                &&& u.ord_id == number->0
                &&& u.state == state->0
                &&& u.fill_price == number_in(texts, at + "/fillPx"@)
                &&& u.acc_fill_size == integer_in(texts, at + "/accFillSz"@)
                &&& integer_in(texts, at + "/uTime"@) matches Some(t) ==> u.timestamp_ms == t
                &&& integer_in(texts, at + "/uTime"@) is None ==> u.timestamp_ms == 0
            }
        }),
{
}

/// A record is read where it was not refused: all items of its list, in their order.
pub proof fn law_records_are_read(texts: Map<Seq<char>, Seq<char>>, lists: Map<Seq<char>, nat>, n: nat)
    ensures
        text_in(texts, "/code"@) != Some("0"@) ==> orders_in(texts, lists) == 0,
        text_in(texts, "/code"@) == Some("0"@) ==> orders_in(texts, lists) == match list_in(
            lists,
            "/data"@,
        ) {
            Some(k) => k,
            None => 0,
        },
        history(texts, n).len() == n,
        forall|i: int|
            0 <= i < n ==> #[trigger] history(texts, n)[i] == order_entry(
                texts,
                "/data/"@ + decimal(i as nat),
            ),
{
}

/// What one order of a record does. The filled exit of an entry that we know closes it. An order
/// that we know is taken in like an event. Any other does nothing. What is ours is counted, and so is
/// what changed a state.
pub proof fn law_record_of_one_order(v: PositionsView, u: OrderUpdateView, id: Seq<char>)
    ensures
        ({
            let r = reconciled(v, seq![Some(u)]);
            let leaves = u.state == "filled"@ && u.client_ord_id == id + "_oco"@ && v.knows(id);
            let exit = is_exit_of(v, u);
            &&& leaves ==> {
                &&& r.positions == v.closed(id, u.timestamp_ms)
                &&& r.recognized == 1
                &&& r.changes == if state_of(v, id) == state_of(r.positions, id) { 0nat } else { 1 }
            }
            &&& !exit && v.knows(u.client_ord_id) ==> {
                &&& r.positions == v.after(u)
                &&& r.recognized == 1
                &&& r.changes == if state_of(v, u.client_ord_id) == state_of(
                    r.positions,
                    u.client_ord_id,
                ) { 0nat } else { 1 }
            }
            &&& !exit && !v.knows(u.client_ord_id) ==> r.positions == v && r.recognized == 0
                && r.changes == 0
            &&& exit ==> exists|x: Seq<char>| u.client_ord_id == #[trigger] exit_id(x) && v.knows(x)
                && u.state == "filled"@
            &&& leaves ==> exit
        }),
{
    let one = seq![Some(u)];
    let none = Seq::<Option<OrderUpdateView>>::empty();
    let o1 = without_exits(v, one);
    let o2 = exits_in(v, one);
    assert(o1.drop_last() =~= none);
    assert(o2.drop_last() =~= none);
    assert(o1.last() == o1[0] && o2.last() == o2[0]);
    reveal_with_fuel(entered, 2);
    reveal_with_fuel(left, 2);
    crate::private_ws::law_exits_lead_to_their_entry(id);
    assert(exit_id(id) == id + "_oco"@);
    if is_exit_of(v, u) {
        let x = parent_id(u.client_ord_id);
        assert(u.client_ord_id =~= exit_id(x));
    }
}

/// A record takes its orders one after the other: first those that are no exits of ours, and then the
/// exits. Items that are no orders do nothing.
pub proof fn law_records_go_in_turn(
    v: PositionsView,
    orders: Seq<Option<OrderUpdateView>>,
    u: OrderUpdateView,
)
    ensures
        entered(v, Seq::empty()) == (Pass { positions: v, recognized: 0, changes: 0 }),
        left(v, Seq::empty()) == (Pass { positions: v, recognized: 0, changes: 0 }),
        entered(v, orders.push(None)) == entered(v, orders),
        left(v, orders.push(None)) == left(v, orders),
        ({
            let before = entered(v, orders);
            let after = entered(v, orders.push(Some(u)));
            let ours = before.positions.knows(u.client_ord_id);
            let next = before.positions.after(u);
            &&& !ours ==> after == before
            &&& ours ==> after.positions == next && after.recognized == before.recognized + 1
            &&& ours && state_of(next, u.client_ord_id) == state_of(
                before.positions,
                u.client_ord_id,
            ) ==> after.changes == before.changes
            &&& ours && state_of(next, u.client_ord_id) != state_of(
                before.positions,
                u.client_ord_id,
            ) ==> after.changes == before.changes + 1
        }),
        ({
            let r = reconciled(v, orders);
            let first = entered(v, without_exits(v, orders));
            let second = left(first.positions, exits_in(v, orders));
            &&& r.positions == second.positions
            &&& r.recognized == first.recognized + second.recognized
            &&& r.changes == first.changes + second.changes
            &&& without_exits(v, orders).len() == orders.len()
            &&& exits_in(v, orders).len() == orders.len()
            &&& forall|i: int|
                0 <= i < orders.len() && (#[trigger] orders[i]) is Some ==> {
                    &&& is_exit_of(v, orders[i]->0) ==> exits_in(v, orders)[i] == orders[i]
                        && without_exits(v, orders)[i] is None
                    &&& !is_exit_of(v, orders[i]->0) ==> without_exits(v, orders)[i] == orders[i]
                        && exits_in(v, orders)[i] is None
                }
        }),
{
    assert(orders.push(None).drop_last() =~= orders);
    assert(orders.push(Some(u)).drop_last() =~= orders);
}

/// What a record adds to the counts: all its orders, ours among them, the changes of states, and an
/// error where it was refused.
pub proof fn law_counts_of_records(
    stats: ReconciliationStats,
    texts: Map<Seq<char>, Seq<char>>,
    lists: Map<Seq<char>, nat>,
    v: PositionsView,
)
    requires
        crate::reconciliation::has_room(stats, texts, lists),
    ensures
        ({
            let s = counted(stats, texts, lists, v);
            let n = orders_in(texts, lists);
            let pass = reconciled(v, history(texts, n));
            &&& s.api_calls == stats.api_calls
            &&& s.orders_seen == stats.orders_seen + n
            &&& stats.orders_recognized + pass.recognized <= u32::MAX ==> s.orders_recognized
                == stats.orders_recognized + pass.recognized
            &&& stats.state_changes + pass.changes <= u32::MAX ==> s.state_changes == stats.state_changes
                + pass.changes
            &&& text_in(texts, "/code"@) == Some("0"@) ==> s.errors == stats.errors
            &&& text_in(texts, "/code"@) != Some("0"@) ==> s.errors == stats.errors + 1
        }),
{
}

/// Frames of the public stream: texts are read, but for the answer to a sign of life, until the stream
/// ends.
pub proof fn law_public_frames(frame: Frame)
    ensures
        frame matches Frame::Text(t) ==> (read_step_of(frame) is Skip <==> t@ == "pong"@) && (
        read_step_of(frame) is Parse <==> t@ != "pong"@),
        frame is Other ==> read_step_of(frame) is Skip,
        frame is Close || frame is Failed || frame is Ended ==> read_step_of(frame) is Stop,
{
}

/// What the data of a message of the public stream are goes by its channel.
pub proof fn law_public_messages(e: WsEnvelope)
    ensures
        e.event is Some || e.data is None || e.arg is None ==> subject_of(e) is Nothing,
        e.event is None && e.data is Some && e.arg is Some ==> {
            let a = e.arg->0;
            &&& subject_of(e) is Trades <==> a.channel@ == "trades"@
            &&& a.channel@ == "books5"@ && a.inst_id is Some ==> subject_of(e) == SubjectView::Book(
                a.inst_id->0@,
            )
            &&& a.channel@ == "books5"@ && a.inst_id is None ==> subject_of(e) is Nothing
            &&& a.channel@ != "trades"@ && a.channel@ != "books5"@ ==> subject_of(e)
                == SubjectView::Unknown(a.channel@)
        },
{
    reveal_strlit("trades");
    reveal_strlit("books5");
    assert("trades"@[0] != "books5"@[0]);
}

/// The trades and the best levels of every instrument are subscribed to, in turn.
pub proof fn law_public_subscription(instruments: Seq<Seq<char>>, i: int)
    requires
        0 <= i < instruments.len(),
    ensures
        channels_of(instruments).len() == 2 * instruments.len(),
        channels_of(instruments)[2 * i] == flat_content(
            seq![("channel"@, "trades"@), ("instId"@, instruments[i])],
        ),
        channels_of(instruments)[2 * i + 1] == flat_content(
            seq![("channel"@, "books5"@), ("instId"@, instruments[i])],
        ),
{
    assert((2 * i) % 2 == 0 && (2 * i) / 2 == i);
    assert((2 * i + 1) % 2 == 1 && (2 * i + 1) / 2 == i);
}

/// A level is read from its first two texts, the price and the size, where both are numbers; what
/// cannot be read is left out and the rest keeps its order.
pub proof fn law_levels_are_read(raw: Seq<Vec<String>>, next: Vec<String>)
    ensures
        levels_of(Seq::empty()) == Seq::<BookLevel>::empty(),
        ({
            let price = crate::parse::parsed_real(next@[0]@);
            let size = crate::parse::parsed_real(next@[1]@);
            let good = next@.len() >= 2 && price is Some && size is Some;
            &&& good ==> levels_of(raw.push(next)) == levels_of(raw).push(
                BookLevel { price: price->0, size: size->0 },
            )
            &&& !good ==> levels_of(raw.push(next)) == levels_of(raw)
        }),
{
    assert(raw.push(next).drop_last() =~= raw);
}

/// The exits of an entry bear its name with a mark at the end, and lead back to it. A name without the
/// mark is that of an entry.
pub proof fn law_names_of_exits(id: Seq<char>)
    ensures
        exit_id(id) == id + "_oco"@,
        is_exit(id + "_oco"@),
        parent_id(id + "_oco"@) == id,
        (forall|s: Seq<char>| id != #[trigger] (s + "_oco"@)) ==> !is_exit(id) && parent_id(id) == id,
{
    reveal_strlit("_oco");
    let s = id + "_oco"@;
    assert(s.skip(s.len() - 4) =~= "_oco"@);
    assert(s.take(s.len() - 4) =~= id);
    if is_exit(id) {
        assert(id =~= id.take(id.len() - 4) + "_oco"@);
    }
}

/// A trade of the stream has the price, the size, the side and the time that its record says.
pub proof fn law_trades_of_the_stream(t: TradeUpdate, d: TradeData)
    ensures
        is_trade_of(t, d) <==> {
            &&& t.inst_id@ == d.inst_id@
            &&& t.side@ == d.side@
            &&& parsed_real(d.px@) == Some(t.price)
            &&& parsed_real(d.sz@) == Some(t.size)
            &&& parsed_u64(d.ts@) == Some(t.timestamp_ms)
        },
        is_trade_of(t, d) ==> readable_trade(d),
        parsed_real(d.px@) is None || parsed_real(d.sz@) is None || parsed_u64(d.ts@) is None
            ==> !readable_trade(d),
        parsed_real(d.px@) is Some && parsed_real(d.sz@) is Some && parsed_u64(d.ts@) is Some
            ==> readable_trade(d),
{
}

/// What stands at a pointer is the text that is there, and the number that this text stands for.
pub proof fn law_values_at_pointers(
    texts: Map<Seq<char>, Seq<char>>,
    lists: Map<Seq<char>, nat>,
    at: Seq<char>,
    other: Seq<char>,
)
    ensures
        texts.contains_key(at) ==> {
            &&& text_in(texts, at) == Some(texts[at])
            &&& text_or(texts, at, other) == texts[at]
            &&& number_in(texts, at) == parsed_real(texts[at])
            &&& integer_in(texts, at) == parsed_u64(texts[at])
        },
        !texts.contains_key(at) ==> {
            &&& text_in(texts, at) is None
            &&& text_or(texts, at, other) == other
            &&& number_in(texts, at) is None
            &&& integer_in(texts, at) is None
        },
        lists.contains_key(at) ==> list_in(lists, at) == Some(lists[at]),
        !lists.contains_key(at) ==> list_in(lists, at) is None,
{
}

} // verus!
