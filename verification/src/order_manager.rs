//! Orders with their exits, and what the exchange says to them.
//!
//! An entry is a limit order that carries both of its exits, a stop and a target, of which one
//! fill cancels the other. Entry and exits reach the exchange in one request.

use crate::abc_brc::PatternDirection;
use crate::fixed::fixed_text;
use crate::json::content;
use crate::json::contents;
use crate::json::fields;
use crate::json::flat_content;
use crate::json::flat_object;
use crate::json::good_keys;
use crate::json::json_lists;
use crate::json::json_texts;
use crate::json::lemma_depth;
use crate::json::lemma_flat_depth;
use crate::json::lemma_flat_text;
use crate::json::lemma_member_text;
use crate::json::lemma_members_rooted;
use crate::json::list_at;
use crate::json::list_content;
use crate::json::list_in;
use crate::json::list_value;
use crate::json::member_contents;
use crate::json::member_pointer;
use crate::json::numbered;
use crate::json::object_content;
use crate::json::object_value;
use crate::json::pair_texts;
use crate::json::plain_key;
use crate::json::readable;
use crate::json::rooted;
use crate::json::says;
use crate::json::text_at;
use crate::json::text_at_or;
use crate::json::text_in;
use crate::json::text_members;
use crate::json::text_or;
use crate::json::Content;
use crate::okx_interface::cancellation;
use crate::okx_interface::market_order;
use crate::okx_interface::signed_request_of;
use crate::okx_interface::OkxInterface;
use crate::okx_interface::Request;
use crate::risk::TradeSignal;
use crate::signing::request_format;
use crate::signing::utc_formatted;
use crate::text::decimal;
use crate::text::decimal_text;
use crate::text::same_text;
use serde_json::Value;
use vstd::prelude::*;
use vstd::string::*;

verus! {

/// An order that the exchange has taken.
#[derive(Debug)]
pub struct OrderSubmission {
    /// The exchange's name of the entry.
    pub entry_ord_id: String,
    /// Our name of it.
    pub client_ord_id: String,
}

/// Why an order was not taken.
#[derive(Debug)]
pub enum SubmissionError {
    /// The exchange refused it.
    Rejected { code: String, msg: String },
    /// No answer came back.
    Transport(String),
    /// The answer cannot be read.
    Malformed(String),
}

/// The contents of a submission error.
pub enum SubmissionErrorView {
    Rejected { code: Seq<char>, msg: Seq<char> },
    Transport(Seq<char>),
    Malformed(Seq<char>),
}

impl View for SubmissionError {
    type V = SubmissionErrorView;

    open spec fn view(&self) -> SubmissionErrorView {
        match self {
            SubmissionError::Rejected { code, msg } => SubmissionErrorView::Rejected {
                code: code@,
                msg: msg@,
            },
            SubmissionError::Transport(e) => SubmissionErrorView::Transport(e@),
            SubmissionError::Malformed(e) => SubmissionErrorView::Malformed(e@),
        }
    }
}

impl SubmissionError {
    /// The error in words.
    pub fn to_text(&self) -> (s: String)
        ensures
            s@ == match self@ {
                SubmissionErrorView::Rejected { code, msg } => "OKX rejected order: code="@ + code
                    + " msg="@ + msg,
                SubmissionErrorView::Transport(e) => "transport error: "@ + e,
                SubmissionErrorView::Malformed(e) => "malformed response: "@ + e,
            },
    {
        match self {
            SubmissionError::Rejected { code, msg } => {
                let mut s = "OKX rejected order: code=".to_owned();
                s.append(code.as_str());
                s.append(" msg=");
                s.append(msg.as_str());
                s
            },
            SubmissionError::Transport(e) => {
                let mut s = "transport error: ".to_owned();
                s.append(e.as_str());
                s
            },
            SubmissionError::Malformed(e) => {
                let mut s = "malformed response: ".to_owned();
                s.append(e.as_str());
                s
            },
        }
    }
}

/// The name of the exits of an entry.
pub open spec fn exit_id(client_ord_id: Seq<char>) -> Seq<char> {
    client_ord_id + "_oco"@
}

/// The side of the position that a signal opens.
pub open spec fn position_side(direction: PatternDirection) -> Seq<char> {
    match direction {
        PatternDirection::Bullish => "long"@,
        PatternDirection::Bearish => "short"@,
    }
}

/// The texts of an entry order.
pub open spec fn entry_fields(
    inst_id: Seq<char>,
    signal: TradeSignal,
    client_ord_id: Seq<char>,
) -> Seq<(Seq<char>, Seq<char>)> {
    seq![
        ("instId"@, inst_id),
        ("tdMode"@, "cross"@),
        ("side"@, signal.entry_side_text()),
        ("posSide"@, position_side(signal.direction)),
        ("ordType"@, "limit"@),
        ("px"@, fixed_text(signal.entry_price, 2)),
        ("sz"@, decimal(signal.contracts as nat)),
        ("clOrdId"@, client_ord_id),
    ]
}

/// The texts of the exits of an entry: at the target or at the stop, each at market.
pub open spec fn exit_fields(signal: TradeSignal, client_ord_id: Seq<char>) -> Seq<
    (Seq<char>, Seq<char>),
> {
    seq![
        ("attachAlgoClOrdId"@, exit_id(client_ord_id)),
        ("tpTriggerPx"@, fixed_text(signal.target_price, 2)),
        ("tpOrdPx"@, "-1"@),
        ("tpTriggerPxType"@, "last"@),
        ("slTriggerPx"@, fixed_text(signal.stop_price, 2)),
        ("slOrdPx"@, "-1"@),
        ("slTriggerPxType"@, "last"@),
    ]
}

/// An entry order with its exits.
pub open spec fn payload_members(
    inst_id: Seq<char>,
    signal: TradeSignal,
    client_ord_id: Seq<char>,
) -> Seq<(Seq<char>, Content)> {
    text_members(entry_fields(inst_id, signal, client_ord_id)).push(
        (
            "attachAlgoOrds"@,
            list_content(seq![flat_content(exit_fields(signal, client_ord_id))]),
        ),
    )
}

/// What an entry order with its exits holds.
pub open spec fn payload_content(
    inst_id: Seq<char>,
    signal: TradeSignal,
    client_ord_id: Seq<char>,
) -> Content {
    object_content(payload_members(inst_id, signal, client_ord_id))
}

/// What the exchange's answer to an order means: the order's name at the exchange, or why there
/// is none.
pub open spec fn entry_of_reply(
    texts: Map<Seq<char>, Seq<char>>,
    lists: Map<Seq<char>, nat>,
) -> Result<Seq<char>, SubmissionErrorView> {
    let code = text_or(texts, "/code"@, ""@);
    let order_code = text_or(texts, "/data/0/sCode"@, "0"@);
    if code != "0"@ {
        Err(SubmissionErrorView::Rejected { code, msg: text_or(texts, "/msg"@, ""@) })
    } else if list_in(lists, "/data"@) is None {
        Err(SubmissionErrorView::Malformed("missing data array"@))
    } else if lists["/data"@] == 0 {
        Err(SubmissionErrorView::Malformed("empty data array"@))
    } else if order_code != "0"@ {
        Err(
            SubmissionErrorView::Rejected {
                code: order_code,
                msg: text_or(texts, "/data/0/sMsg"@, ""@),
            },
        )
    } else {
        match text_in(texts, "/data/0/ordId"@) {
            Some(id) => Ok(id),
            None => Err(SubmissionErrorView::Malformed("missing ordId"@)),
        }
    }
}

/// What the exchange's answer to a cancellation means.
pub open spec fn cancel_of_reply(texts: Map<Seq<char>, Seq<char>>) -> Result<
    (),
    SubmissionErrorView,
> {
    let code = text_or(texts, "/code"@, ""@);
    if code == "0"@ {
        Ok(())
    } else {
        Err(SubmissionErrorView::Rejected { code, msg: text_or(texts, "/msg"@, ""@) })
    }
}

/// The name of the exits of an entry.
pub fn exit_id_text(client_ord_id: &str) -> (s: String)
    ensures
        s@ == exit_id(client_ord_id@),
{
    let mut s = client_ord_id.to_owned();
    s.append("_oco");
    s
}

/// An entry order with its exits.
pub fn build_payload(inst_id: &str, signal: &TradeSignal, client_ord_id: &str) -> (r: Value)
    ensures
        content(r) == payload_content(inst_id@, *signal, client_ord_id@),
{
    let pos_side = match signal.direction {
        PatternDirection::Bullish => "long",
        PatternDirection::Bearish => "short",
    };
    let mut exit: Vec<(String, String)> = Vec::new();
    exit.push(("attachAlgoClOrdId".to_owned(), exit_id_text(client_ord_id)));
    exit.push(("tpTriggerPx".to_owned(), signal.target_price.fixed(2)));
    exit.push(("tpOrdPx".to_owned(), "-1".to_owned()));
    exit.push(("tpTriggerPxType".to_owned(), "last".to_owned()));
    exit.push(("slTriggerPx".to_owned(), signal.stop_price.fixed(2)));
    exit.push(("slOrdPx".to_owned(), "-1".to_owned()));
    exit.push(("slTriggerPxType".to_owned(), "last".to_owned()));
    proof {
        assert(pair_texts(exit@) =~= exit_fields(*signal, client_ord_id@));
        lemma_exit_keys(*signal, client_ord_id@);
    }
    let exit_object = flat_object(exit);
    let mut exits: Vec<Value> = Vec::new();
    exits.push(exit_object);
    proof {
        assert(contents(exits@) =~= seq![
            flat_content(exit_fields(*signal, client_ord_id@)),
        ]);
    }
    let mut entry: Vec<(String, String)> = Vec::new();
    entry.push(("instId".to_owned(), inst_id.to_owned()));
    entry.push(("tdMode".to_owned(), "cross".to_owned()));
    entry.push(("side".to_owned(), signal.entry_side().to_owned()));
    entry.push(("posSide".to_owned(), pos_side.to_owned()));
    entry.push(("ordType".to_owned(), "limit".to_owned()));
    entry.push(("px".to_owned(), signal.entry_price.fixed(2)));
    entry.push(("sz".to_owned(), decimal_text(signal.contracts)));
    entry.push(("clOrdId".to_owned(), client_ord_id.to_owned()));
    let ghost texts = entry_fields(inst_id@, *signal, client_ord_id@);
    assert(pair_texts(entry@) =~= texts);
    let mut members = fields(entry);
    let ghost before = members@;
    members.push(("attachAlgoOrds".to_owned(), list_value(exits)));
    proof {
        let all = payload_members(inst_id@, *signal, client_ord_id@);
        assert(member_contents(members@) =~= all) by {
            assert forall|i: int| 0 <= i < 8 implies member_contents(members@)[i] == all[i] by {
                assert(member_contents(before)[i] == text_members(texts)[i]);
                assert(members@[i] == before[i]);
            }
        }
        lemma_payload_keys(inst_id@, *signal, client_ord_id@);
        assert forall|i: int| 0 <= i < members.len() implies plain_key(
            #[trigger] members@[i].0@,
        ) by {
            assert(member_contents(members@)[i] == all[i]);
            assert(plain_key(all[i].0));
        }
        assert forall|i: int, j: int| 0 <= i < j < members.len() implies #[trigger] members@[i].0@
            != #[trigger] members@[j].0@ by {
            assert(member_contents(members@)[i] == all[i]);
            assert(member_contents(members@)[j] == all[j]);
            assert(all[i].0 != all[j].0);
        }
    }
    object_value(members)
}

/// Sends orders, and reads the answers.
pub struct OrderManager;

impl OrderManager {
    /// Buys at market.
    pub fn market_buy(interface: &OkxInterface, symbol: &str, size: &str, secs: i64, nanos: u32) -> (r:
        Option<Request>)
        ensures
            match (r, utc_formatted(secs, nanos, request_format())) {
                (Some(q), Some(time)) => {
                    &&& q@.body matches Some(body)
                    &&& says(body, flat_content(market_order(symbol@, "buy"@, size@)))
                    &&& q@ == signed_request_of(
                        interface.spec_config()@,
                        time,
                        "POST"@,
                        "/api/v5/trade/order"@,
                        Some(body),
                    )
                },
                (None, None) => true,
                _ => false,
            },
    {
        interface.place_order(symbol, "buy", size, secs, nanos)
    }

    /// The name of a market order that was taken, `Unknown` where the answer has none; `None`
    /// where the order was refused.
    pub fn market_buy_reply(reply: &Value) -> (r: Option<String>)
        ensures
            match r {
                Some(id) => {
                    &&& text_in(json_texts(*reply), "/code"@) == Some("0"@)
                    &&& id@ == match list_in(json_lists(*reply), "/data"@) {
                        Some(_) => text_or(json_texts(*reply), "/data/0/ordId"@, "Unknown"@),
                        None => "Unknown"@,
                    }
                },
                None => text_in(json_texts(*reply), "/code"@) != Some("0"@),
            },
    {
        match text_at(reply, "/code") {
            Some(code) => {
                if same_text(code.as_str(), "0") {
                    match list_at(reply, "/data") {
                        Some(_) => Some(text_at_or(reply, "/data/0/ordId", "Unknown")),
                        None => Some("Unknown".to_owned()),
                    }
                } else {
                    None
                }
            },
            None => None,
        }
    }

    /// Sends an entry with its exits.
    pub fn submit_signal(
        interface: &OkxInterface,
        inst_id: &str,
        signal: &TradeSignal,
        client_ord_id: &str,
        secs: i64,
        nanos: u32,
    ) -> (r: Option<Request>)
        ensures
            match (r, utc_formatted(secs, nanos, request_format())) {
                (Some(q), Some(time)) => {
                    &&& q@.body matches Some(body)
                    &&& says(body, payload_content(inst_id@, *signal, client_ord_id@))
                    &&& q@ == signed_request_of(
                        interface.spec_config()@,
                        time,
                        "POST"@,
                        "/api/v5/trade/order"@,
                        Some(body),
                    )
                },
                (None, None) => true,
                _ => false,
            },
    {
        let payload = build_payload(inst_id, signal, client_ord_id);
        proof {
            lemma_payload_depth(inst_id@, *signal, client_ord_id@);
        }
        interface.place_order_payload(&payload, secs, nanos)
    }

    /// What became of an entry: the answer of the exchange, or the error instead of one.
    pub fn submission(reply: Result<Value, String>, client_ord_id: &str) -> (r: Result<
        OrderSubmission,
        SubmissionError,
    >)
        ensures
            match reply {
                Ok(v) => match (r, entry_of_reply(json_texts(v), json_lists(v))) {
                    (Ok(s), Ok(id)) => s.entry_ord_id@ == id && s.client_ord_id@ == client_ord_id@,
                    (Err(e), Err(expected)) => e@ == expected,
                    _ => false,
                },
                Err(e) => r matches Err(f) && f@ == SubmissionErrorView::Transport(e@),
            },
    {
        let resp = match reply {
            Ok(v) => v,
            Err(e) => {
                return Err(SubmissionError::Transport(e));
            },
        };
        let code = text_at_or(&resp, "/code", "");
        let msg = text_at_or(&resp, "/msg", "");
        if !same_text(code.as_str(), "0") {
            return Err(SubmissionError::Rejected { code, msg });
        }
        let orders = match list_at(&resp, "/data") {
            Some(n) => n,
            None => {
                return Err(SubmissionError::Malformed("missing data array".to_owned()));
            },
        };
        if orders == 0 {
            return Err(SubmissionError::Malformed("empty data array".to_owned()));
        }
        let order_code = text_at_or(&resp, "/data/0/sCode", "0");
        if !same_text(order_code.as_str(), "0") {
            let order_msg = text_at_or(&resp, "/data/0/sMsg", "");
            return Err(SubmissionError::Rejected { code: order_code, msg: order_msg });
        }
        match text_at(&resp, "/data/0/ordId") {
            Some(id) => Ok(
                OrderSubmission { entry_ord_id: id, client_ord_id: client_ord_id.to_owned() },
            ),
            None => Err(SubmissionError::Malformed("missing ordId".to_owned())),
        }
    }

    /// Takes an order back.
    pub fn cancel(interface: &OkxInterface, inst_id: &str, ord_id: &str, secs: i64, nanos: u32) -> (r:
        Option<Request>)
        ensures
            match (r, utc_formatted(secs, nanos, request_format())) {
                (Some(q), Some(time)) => {
                    &&& q@.body matches Some(body)
                    &&& says(body, flat_content(cancellation(inst_id@, ord_id@)))
                    &&& q@ == signed_request_of(
                        interface.spec_config()@,
                        time,
                        "POST"@,
                        "/api/v5/trade/cancel-order"@,
                        Some(body),
                    )
                },
                (None, None) => true,
                _ => false,
            },
    {
        interface.cancel_order(inst_id, ord_id, secs, nanos)
    }

    /// What became of a cancellation.
    pub fn cancel_reply(reply: Result<Value, String>) -> (r: Result<(), SubmissionError>)
        ensures
            match reply {
                Ok(v) => match (r, cancel_of_reply(json_texts(v))) {
                    (Ok(_), Ok(_)) => true,
                    (Err(e), Err(expected)) => e@ == expected,
                    _ => false,
                },
                Err(e) => r matches Err(f) && f@ == SubmissionErrorView::Transport(e@),
            },
    {
        let resp = match reply {
            Ok(v) => v,
            Err(e) => {
                return Err(SubmissionError::Transport(e));
            },
        };
        let code = text_at_or(&resp, "/code", "");
        if same_text(code.as_str(), "0") {
            Ok(())
        } else {
            let msg = text_at_or(&resp, "/msg", "");
            Err(SubmissionError::Rejected { code, msg })
        }
    }
}

/// The keys of the exits can be told apart.
proof fn lemma_exit_keys(signal: TradeSignal, client_ord_id: Seq<char>)
    ensures
        good_keys(exit_fields(signal, client_ord_id)),
{
    reveal_strlit("attachAlgoClOrdId");
    reveal_strlit("tpTriggerPx");
    reveal_strlit("tpOrdPx");
    reveal_strlit("tpTriggerPxType");
    reveal_strlit("slTriggerPx");
    reveal_strlit("slOrdPx");
    reveal_strlit("slTriggerPxType");
    let order = exit_fields(signal, client_ord_id);
    assert(order[0].0[0] == 'a');
    assert(order[1].0[0] == 't' && order[1].0.len() == 11);
    assert(order[2].0[0] == 't' && order[2].0.len() == 7);
    assert(order[3].0[0] == 't' && order[3].0.len() == 15);
    assert(order[4].0[0] == 's' && order[4].0.len() == 11);
    assert(order[5].0[0] == 's' && order[5].0.len() == 7);
    assert(order[6].0[0] == 's' && order[6].0.len() == 15);
}

/// The keys of an entry order can be told apart.
proof fn lemma_payload_keys(inst_id: Seq<char>, signal: TradeSignal, client_ord_id: Seq<char>)
    ensures
        forall|i: int|
            0 <= i < 9 ==> plain_key(
                (#[trigger] payload_members(inst_id, signal, client_ord_id)[i]).0,
            ),
        forall|i: int, j: int|
            0 <= i < j < 9 ==> (#[trigger] payload_members(inst_id, signal, client_ord_id)[i]).0
                != (#[trigger] payload_members(inst_id, signal, client_ord_id)[j]).0,
        payload_members(inst_id, signal, client_ord_id).len() == 9,
{
    reveal_strlit("instId");
    reveal_strlit("tdMode");
    reveal_strlit("side");
    reveal_strlit("posSide");
    reveal_strlit("ordType");
    reveal_strlit("px");
    reveal_strlit("sz");
    reveal_strlit("clOrdId");
    reveal_strlit("attachAlgoOrds");
    let all = payload_members(inst_id, signal, client_ord_id);
    assert(all[0].0[0] == 'i');
    assert(all[1].0[0] == 't');
    assert(all[2].0.len() == 4);
    assert(all[3].0[0] == 'p' && all[3].0.len() == 7);
    assert(all[4].0[0] == 'o');
    assert(all[5].0[0] == 'p' && all[5].0.len() == 2);
    assert(all[6].0[0] == 's' && all[6].0.len() == 2);
    assert(all[7].0[0] == 'c');
    assert(all[8].0[0] == 'a');
}

/// An entry order is read back from its document.
proof fn lemma_payload_depth(inst_id: Seq<char>, signal: TradeSignal, client_ord_id: Seq<char>)
    ensures
        readable(payload_content(inst_id, signal, client_ord_id).depth),
{
    let exits = seq![flat_content(exit_fields(signal, client_ord_id))];
    lemma_flat_depth(exit_fields(signal, client_ord_id));
    lemma_depth(numbered(exits), 1);
    lemma_depth(payload_members(inst_id, signal, client_ord_id), 2);
}

/// An order carries the name that it was given, as it was given, and its exits that name with a
/// mark at its end. The exits trigger at the signal's target and at its stop.
pub proof fn law_order_is_found_by_its_name(
    inst_id: Seq<char>,
    signal: TradeSignal,
    client_ord_id: Seq<char>,
)
    ensures
        ({
            let texts = payload_content(inst_id, signal, client_ord_id).texts;
            let exits = "/attachAlgoOrds"@ + "/0"@;
            &&& text_in(texts, "/clOrdId"@) == Some(client_ord_id)
            &&& text_in(texts, exits + "/attachAlgoClOrdId"@) == Some(exit_id(client_ord_id))
            &&& text_in(texts, exits + "/tpTriggerPx"@) == Some(fixed_text(signal.target_price, 2))
            &&& text_in(texts, exits + "/slTriggerPx"@) == Some(fixed_text(signal.stop_price, 2))
        }),
{
    let members = payload_members(inst_id, signal, client_ord_id);
    let exit = exit_fields(signal, client_ord_id);
    let items = numbered(seq![flat_content(exit)]);
    lemma_payload_keys(inst_id, signal, client_ord_id);
    lemma_exit_keys(signal, client_ord_id);
    lemma_members_rooted(text_members(exit));
    lemma_members_rooted(items);
    assert forall|j: int| 0 <= j < members.len() implies rooted(
        (#[trigger] members[j]).1.texts,
    ) by {
        if j == 8 {
            assert(members[8].1 == list_content(seq![flat_content(exit)]));
        }
    }
    let none = Seq::<char>::empty();
    lemma_member_text(members, 7, none);
    reveal_strlit("/");
    reveal_strlit("/0");
    reveal_strlit("clOrdId");
    reveal_strlit("/clOrdId");
    assert(member_pointer("clOrdId"@) + none =~= "/clOrdId"@);
    assert(plain_key(decimal(0))) by {
        assert(decimal(0) =~= seq!['0']);
    }
    assert(items.len() == 1 && items[0] == (decimal(0), flat_content(exit)));
    reveal_strlit("attachAlgoOrds");
    reveal_strlit("/attachAlgoOrds");
    assert forall|k: int| 0 <= k < exit.len() implies text_in(
        payload_content(inst_id, signal, client_ord_id).texts,
        "/attachAlgoOrds"@ + "/0"@ + member_pointer((#[trigger] exit[k]).0),
    ) == Some(exit[k].1) by {
        let q = member_pointer(exit[k].0);
        lemma_flat_text(exit, k);
        lemma_member_text(items, 0, q);
        let below_list = member_pointer(decimal(0)) + q;
        lemma_member_text(members, 8, below_list);
        assert(decimal(0) =~= seq!['0']);
        assert(member_pointer("attachAlgoOrds"@) + below_list =~= "/attachAlgoOrds"@ + "/0"@ + q);
    }
    reveal_strlit("attachAlgoClOrdId");
    reveal_strlit("/attachAlgoClOrdId");
    reveal_strlit("tpTriggerPx");
    reveal_strlit("/tpTriggerPx");
    reveal_strlit("slTriggerPx");
    reveal_strlit("/slTriggerPx");
    assert(member_pointer(exit[0].0) =~= "/attachAlgoClOrdId"@);
    assert(member_pointer(exit[1].0) =~= "/tpTriggerPx"@);
    assert(member_pointer(exit[4].0) =~= "/slTriggerPx"@);
}

} // verus!
