//! The authenticated stream of the account: login, subscription, and what its messages do to
//! the positions.
//!
//! The messages are read and written elsewhere. Here it is decided what to send, and what a
//! message means.

use crate::config::Config;
use crate::json::content;
use crate::json::contents;
use crate::json::flat_content;
use crate::json::flat_object;
use crate::json::good_keys;
use crate::json::integer_below;
use crate::json::integer_in;
use crate::json::item_at;
use crate::json::item_pointer;
use crate::json::json_lists;
use crate::json::json_texts;
use crate::json::lemma_flat_depth;
use crate::json::list_at;
use crate::json::list_in;
use crate::json::number_below;
use crate::json::number_in;
use crate::json::op_content;
use crate::json::op_message;
use crate::json::pair_texts;
use crate::json::parse_json;
use crate::json::parsed_json;
use crate::json::says;
use crate::json::text_at;
use crate::json::text_below;
use crate::json::text_in;
use crate::json::text_or;
use crate::json::Content;
use crate::order_manager::exit_id;
use crate::position::exited;
use crate::position::lemma_place;
use crate::position::lemma_put_places;
use crate::position::OrderUpdate;
use crate::position::OrderUpdateView;
use crate::position::PositionState;
use crate::position::PositionView;
use crate::position::Positions;
use crate::position::PositionsView;
use crate::signing::integer_text;
use crate::signing::integer_text_of;
use crate::signing::sign;
use crate::signing::signature_of;
use crate::text::same_text;
use crate::ws_types::Frame;
use serde_json::Value;
use vstd::prelude::*;
use vstd::string::*;

verus! {

/// Seconds between two signs of life.
pub const PING_INTERVAL_SECS: u64 = 20;

/// Where and as whom to log in.
#[derive(Debug)]
pub struct PrivateWsConfig {
    pub url: String,
    pub api_key: String,
    pub secret_key: String,
    pub passphrase: String,
    pub instruments: Vec<String>,
}

/// The address of the stream, of the simulated market or of the other one.
pub open spec fn private_url(is_paper_trading: bool) -> Seq<char> {
    if is_paper_trading {
        "wss://wspap.okx.com:8443/ws/v5/private?brokerId=9999"@
    } else {
        "wss://ws.okx.com:8443/ws/v5/private"@
    }
}

impl PrivateWsConfig {
    /// The settings of the stream, from those of the program.
    pub fn from_app_config(config: &Config, instruments: Vec<String>) -> (r: Self)
        ensures
            r.url@ == private_url(config.is_paper_trading),
            r.api_key@ == config.api_key@,
            r.secret_key@ == config.secret_key@,
            r.passphrase@ == config.passphrase@,
            r.instruments == instruments,
    {
        let url = if config.is_paper_trading {
            "wss://wspap.okx.com:8443/ws/v5/private?brokerId=9999".to_owned()
        } else {
            "wss://ws.okx.com:8443/ws/v5/private".to_owned()
        };
        PrivateWsConfig {
            url,
            api_key: config.api_key.clone(),
            secret_key: config.secret_key.clone(),
            passphrase: config.passphrase.clone(),
            instruments,
        }
    }
}

/// What is signed to log in at a time.
pub open spec fn login_prehash(time: Seq<char>) -> Seq<char> {
    time + "GET/users/self/verify"@
}

/// The argument of a login.
pub open spec fn login_fields(
    api_key: Seq<char>,
    passphrase: Seq<char>,
    time: Seq<char>,
    signature: Seq<char>,
) -> Seq<(Seq<char>, Seq<char>)> {
    seq![
        ("apiKey"@, api_key),
        ("passphrase"@, passphrase),
        ("timestamp"@, time),
        ("sign"@, signature),
    ]
}

/// What a login says.
pub open spec fn login_content(
    api_key: Seq<char>,
    passphrase: Seq<char>,
    time: Seq<char>,
    signature: Seq<char>,
) -> Content {
    op_content("login"@, seq![flat_content(login_fields(api_key, passphrase, time, signature))])
}

/// The argument of a subscription to a channel of all perpetual swaps.
pub open spec fn swap_channel(channel: Seq<char>) -> Seq<(Seq<char>, Seq<char>)> {
    seq![("channel"@, channel), ("instType"@, "SWAP"@)]
}

/// What the subscription to orders and positions says.
pub open spec fn subscription_content() -> Content {
    op_content(
        "subscribe"@,
        seq![
            flat_content(swap_channel("orders"@)),
            flat_content(swap_channel("positions"@)),
        ],
    )
}

/// A login that carries a signature.
pub fn login_message(api_key: &str, passphrase: &str, time: &str, signature: &str) -> (r: String)
    ensures
        says(r@, login_content(api_key@, passphrase@, time@, signature@)),
{
    let mut pairs: Vec<(String, String)> = Vec::new();
    pairs.push(("apiKey".to_owned(), api_key.to_owned()));
    pairs.push(("passphrase".to_owned(), passphrase.to_owned()));
    pairs.push(("timestamp".to_owned(), time.to_owned()));
    pairs.push(("sign".to_owned(), signature.to_owned()));
    let ghost expected = login_fields(api_key@, passphrase@, time@, signature@);
    proof {
        reveal_strlit("apiKey");
        reveal_strlit("passphrase");
        reveal_strlit("timestamp");
        reveal_strlit("sign");
        assert(pair_texts(pairs@) =~= expected);
        assert(expected[0].0.len() == 6 && expected[1].0.len() == 10);
        assert(expected[2].0.len() == 9 && expected[3].0.len() == 4);
        assert(good_keys(expected));
        lemma_flat_depth(expected);
    }
    let mut args: Vec<Value> = Vec::new();
    args.push(flat_object(pairs));
    assert(contents(args@) =~= seq![flat_content(expected)]);
    op_message("login", args)
}

/// A login at a time, in seconds since the start of 1970.
pub fn build_login_message(config: &PrivateWsConfig, secs: i64) -> (r: String)
    ensures
        ({
            let time = integer_text_of(secs as int);
            says(
                r@,
                login_content(
                    config.api_key@,
                    config.passphrase@,
                    time,
                    signature_of(config.secret_key@, login_prehash(time)),
                ),
            )
        }),
{
    let time = integer_text(secs);
    let mut prehash = time.clone();
    prehash.append("GET/users/self/verify");
    let signature = sign(config.secret_key.as_str(), prehash.as_str());
    login_message(
        config.api_key.as_str(),
        config.passphrase.as_str(),
        time.as_str(),
        signature.as_str(),
    )
}

/// The argument of a subscription to a channel of all perpetual swaps.
fn channel_arg(channel: &str) -> (r: Value)
    ensures
        content(r) == flat_content(swap_channel(channel@)),
        content(r).depth <= 1,
{
    let mut pairs: Vec<(String, String)> = Vec::new();
    pairs.push(("channel".to_owned(), channel.to_owned()));
    pairs.push(("instType".to_owned(), "SWAP".to_owned()));
    proof {
        let expected = swap_channel(channel@);
        reveal_strlit("channel");
        reveal_strlit("instType");
        assert(pair_texts(pairs@) =~= expected);
        assert(expected[0].0.len() != expected[1].0.len());
        assert(good_keys(expected));
        lemma_flat_depth(expected);
    }
    flat_object(pairs)
}

/// The subscription to orders and positions.
pub fn build_subscribe_message() -> (r: String)
    ensures
        says(r@, subscription_content()),
{
    let mut args: Vec<Value> = Vec::new();
    args.push(channel_arg("orders"));
    args.push(channel_arg("positions"));
    proof {
        assert(contents(args@) =~= seq![
            flat_content(swap_channel("orders"@)),
            flat_content(swap_channel("positions"@)),
        ]);
    }
    op_message("subscribe", args)
}

/// What a frame leads to.
#[derive(Debug)]
pub enum Step {
    /// Read on.
    Continue,
    /// The login was accepted: subscribe, and read on.
    LoggedIn,
    /// The session is over.
    Closed,
    /// The session failed.
    Failed(String),
}

/// What the answer to a login means, `None` of another message.
pub open spec fn login_answer(texts: Map<Seq<char>, Seq<char>>) -> Option<bool> {
    if text_in(texts, "/event"@) == Some("login"@) {
        Some(text_in(texts, "/code"@) == Some("0"@))
    } else {
        None
    }
}

/// What a frame means before the login was answered.
pub open spec fn login_step_of(frame: Frame, step: Step) -> bool {
    match frame {
        Frame::Text(text) => match parsed_json(text@) {
            None => step is Continue,
            Some((texts, _, _)) => match login_answer(texts) {
                None => step is Continue,
                Some(true) => step is LoggedIn,
                Some(false) => step matches Step::Failed(e) && e@ == "login rejected"@,
            },
        },
        Frame::Close | Frame::Other => step is Continue,
        Frame::Failed(e) => step matches Step::Failed(f) && f@ == e@,
        Frame::Ended => step matches Step::Failed(e) && e@ == "connection closed during login"@,
    }
}

/// Whether a message answers the login, and how.
pub fn read_login_answer(message: &Value) -> (r: Option<bool>)
    ensures
        r == login_answer(json_texts(*message)),
{
    match text_at(message, "/event") {
        Some(event) => {
            if same_text(event.as_str(), "login") {
                match text_at(message, "/code") {
                    Some(code) => Some(same_text(code.as_str(), "0")),
                    None => Some(false),
                }
            } else {
                None
            }
        },
        None => None,
    }
}

/// What to do with a frame that arrives before the login was answered.
pub fn login_step(frame: Frame) -> (r: Step)
    ensures
        login_step_of(frame, r),
{
    match frame {
        Frame::Text(text) => match parse_json(text.as_str()) {
            Some(v) => match read_login_answer(&v) {
                Some(accepted) => {
                    if accepted {
                        Step::LoggedIn
                    } else {
                        Step::Failed("login rejected".to_owned())
                    }
                },
                None => Step::Continue,
            },
            None => Step::Continue,
        },
        Frame::Close => Step::Continue,
        Frame::Other => Step::Continue,
        Frame::Failed(e) => Step::Failed(e),
        Frame::Ended => Step::Failed("connection closed during login".to_owned()),
    }
}

/// Whether a name is that of exits.
pub open spec fn is_exit(id: Seq<char>) -> bool {
    id.len() >= 4 && id.skip(id.len() - 4) == "_oco"@
}

/// The name of the entry that exits belong to: theirs without the one mark at its end.
pub open spec fn parent_id(id: Seq<char>) -> Seq<char> {
    if is_exit(id) { id.take(id.len() - 4) } else { id }
}

/// The order event at a place in a message.
pub open spec fn order_event(texts: Map<Seq<char>, Seq<char>>, at: Seq<char>) -> OrderUpdateView {
    OrderUpdateView {
        client_ord_id: text_or(texts, at + "/clOrdId"@, ""@),
        ord_id: text_or(texts, at + "/ordId"@, ""@),
        state: text_or(texts, at + "/state"@, ""@),
        fill_price: number_in(texts, at + "/fillPx"@),
        acc_fill_size: match number_in(texts, at + "/accFillSz"@) {
            Some(x) => Some(x.to_u64()),
            None => None,
        },
        timestamp_ms: match integer_in(texts, at + "/uTime"@) {
            Some(t) => t,
            None => 0,
        },
    }
}

/// The positions after an order event. The fill of an exit closes the position of its entry.
pub open spec fn after_event(v: PositionsView, u: OrderUpdateView) -> PositionsView {
    if u.state == "filled"@ && is_exit(u.client_ord_id) {
        v.closed(parent_id(u.client_ord_id), u.timestamp_ms)
    } else {
        v.after(u)
    }
}

/// The positions after the first `n` order events of a message.
pub open spec fn after_events(
    v: PositionsView,
    texts: Map<Seq<char>, Seq<char>>,
    n: nat,
) -> PositionsView
    decreases n,
{
    if n == 0 {
        v
    } else {
        let i = (n - 1) as nat;
        after_event(after_events(v, texts, i), order_event(texts, item_pointer(i)))
    }
}

/// The positions after a message. Only those of the orders channel change anything.
pub open spec fn after_message(
    v: PositionsView,
    texts: Map<Seq<char>, Seq<char>>,
    lists: Map<Seq<char>, nat>,
) -> PositionsView {
    if text_in(texts, "/event"@) is Some {
        v
    } else if text_in(texts, "/arg/channel"@) != Some("orders"@) {
        v
    } else {
        match list_in(lists, "/data"@) {
            Some(n) => after_events(v, texts, n),
            None => v,
        }
    }
}

/// The positions after a text of the stream. One that is no JSON document changes nothing.
pub open spec fn after_text(v: PositionsView, text: Seq<char>) -> PositionsView {
    match parsed_json(text) {
        Some((texts, lists, _)) => after_message(v, texts, lists),
        None => v,
    }
}

/// What a frame means once logged in.
pub open spec fn session_step_of(frame: Frame, step: Step) -> bool {
    match frame {
        Frame::Text(_) | Frame::Other => step is Continue,
        Frame::Close | Frame::Ended => step is Closed,
        Frame::Failed(e) => step matches Step::Failed(f) && f@ == e@,
    }
}

/// Whether a name is that of exits, and of which entry.
pub fn entry_of_exit(id: &str) -> (r: Option<String>)
    ensures
        match r {
            Some(s) => is_exit(id@) && s@ == parent_id(id@),
            None => !is_exit(id@),
        },
{
    let len: usize = id.unicode_len();
    if len < 4 {
        return None;
    }
    assert(id@.skip(len - 4) =~= id@.subrange(len - 4, len as int));
    if same_text(id.substring_char(len - 4, len), "_oco") {
        assert(id@.take(len - 4) =~= id@.subrange(0, len - 4));
        Some(id.substring_char(0, len - 4).to_owned())
    } else {
        None
    }
}

/// The order event at a place in a message.
fn read_order_event(message: &Value, at: &str) -> (r: OrderUpdate)
    ensures
        r@ == order_event(json_texts(*message), at@),
{
    let client_ord_id = match text_below(message, at, "/clOrdId") {
        Some(s) => s,
        None => "".to_owned(),
    };
    let ord_id = match text_below(message, at, "/ordId") {
        Some(s) => s,
        None => "".to_owned(),
    };
    let state = match text_below(message, at, "/state") {
        Some(s) => s,
        None => "".to_owned(),
    };
    let fill_price = number_below(message, at, "/fillPx");
    let acc_fill_size: Option<u64> = match number_below(message, at, "/accFillSz") {
        Some(x) => Some(x.to_u64()),
        None => None,
    };
    let timestamp_ms: u64 = match integer_below(message, at, "/uTime") {
        Some(t) => t,
        None => 0,
    };
    OrderUpdate { client_ord_id, ord_id, state, fill_price, acc_fill_size, timestamp_ms }
}

/// Takes in the order events of a message, `n` of them.
pub fn handle_orders(message: &Value, n: usize, positions: &mut Positions)
    requires
        old(positions)@.wf(),
    ensures
        final(positions)@ == after_events(old(positions)@, json_texts(*message), n as nat),
        final(positions)@.wf(),
{
    let ghost before = positions@;
    let mut i: usize = 0;
    while i < n
        invariant
            i <= n,
            positions@ == after_events(before, json_texts(*message), i as nat),
            positions@.wf(),
        decreases n - i,
    {
        let at = item_at(i);
        let update = read_order_event(message, at.as_str());
        if same_text(update.state.as_str(), "filled") {
            match entry_of_exit(update.client_ord_id.as_str()) {
                Some(parent) => {
                    positions.mark_closed_by_parent(parent.as_str(), update.timestamp_ms);
                },
                None => {
                    positions.apply_order_update(&update);
                },
            }
        } else {
            positions.apply_order_update(&update);
        }
        i = i + 1;
    }
}

/// Takes in a message.
pub fn handle_value(message: &Value, positions: &mut Positions)
    requires
        old(positions)@.wf(),
    ensures
        final(positions)@ == after_message(
            old(positions)@,
            json_texts(*message),
            json_lists(*message),
        ),
        final(positions)@.wf(),
{
    if text_at(message, "/event").is_some() {
        return ;
    }
    let orders = match text_at(message, "/arg/channel") {
        Some(channel) => same_text(channel.as_str(), "orders"),
        None => false,
    };
    if orders {
        match list_at(message, "/data") {
            Some(n) => {
                handle_orders(message, n, positions);
            },
            None => {},
        }
    }
}

/// Takes in a text of the stream.
pub fn handle_message(raw: &str, positions: &mut Positions)
    requires
        old(positions)@.wf(),
    ensures
        final(positions)@ == after_text(old(positions)@, raw@),
        final(positions)@.wf(),
{
    match parse_json(raw) {
        Some(message) => {
            handle_value(&message, positions);
        },
        None => {},
    }
}

/// What to do with a frame that arrives once logged in. The answer to a sign of life is no
/// message.
pub fn session_step(frame: Frame, positions: &mut Positions) -> (r: Step)
    requires
        old(positions)@.wf(),
    ensures
        session_step_of(frame, r),
        final(positions)@.wf(),
        final(positions)@ == match frame {
            Frame::Text(text) => if text@ == "pong"@ {
                old(positions)@
            } else {
                after_text(old(positions)@, text@)
            },
            _ => old(positions)@,
        },
{
    match frame {
        Frame::Text(text) => {
            if !same_text(text.as_str(), "pong") {
                handle_message(text.as_str(), positions);
            }
            Step::Continue
        },
        Frame::Close => Step::Closed,
        Frame::Other => Step::Continue,
        Frame::Failed(e) => Step::Failed(e),
        Frame::Ended => Step::Closed,
    }
}

/// What to do next.
#[derive(Debug)]
pub enum Action {
    /// Wait for the next frame or sign of life.
    Wait,
    /// Send a text, and wait.
    Send(String),
    /// The session is over: connect again at once.
    Reconnect,
    /// The session failed: connect again after a pause.
    Retry(String),
}

/// A session on the stream, from its login on.
pub struct Session {
    logged_in: bool,
}

impl Session {
    /// Whether the login was accepted.
    pub closed spec fn spec_logged_in(&self) -> bool {
        self.logged_in
    }

    /// A session that has yet to log in. Returns it with the login to send.
    pub fn start(config: &PrivateWsConfig, secs: i64) -> (r: (Self, String))
        ensures
            !r.0.spec_logged_in(),
            ({
                let time = integer_text_of(secs as int);
                says(
                    r.1@,
                    login_content(
                        config.api_key@,
                        config.passphrase@,
                        time,
                        signature_of(config.secret_key@, login_prehash(time)),
                    ),
                )
            }),
    {
        (Session { logged_in: false }, build_login_message(config, secs))
    }

    /// Takes in a frame. An accepted login is followed by the subscription. Positions change only
    /// once logged in.
    pub fn on_frame(&mut self, frame: Frame, positions: &mut Positions) -> (r: Action)
        requires
            old(positions)@.wf(),
        ensures
            final(positions)@.wf(),
            final(positions)@ == match frame {
                Frame::Text(text) => if old(self).spec_logged_in() && text@ != "pong"@ {
                    after_text(old(positions)@, text@)
                } else {
                    old(positions)@
                },
                _ => old(positions)@,
            },
            exists|step: Step|
                {
                    &&& if old(self).spec_logged_in() {
                        session_step_of(frame, step)
                    } else {
                        login_step_of(frame, step)
                    }
                    &&& final(self).spec_logged_in() == (old(self).spec_logged_in() || step is LoggedIn)
                    &&& #[trigger] answers(step, r)
                },
    {
        let step = if self.logged_in {
            session_step(frame, positions)
        } else {
            login_step(frame)
        };
        let ghost taken = step;
        let r = match step {
            Step::Continue => Action::Wait,
            Step::LoggedIn => {
                self.logged_in = true;
                Action::Send(build_subscribe_message())
            },
            Step::Closed => Action::Reconnect,
            Step::Failed(e) => Action::Retry(e),
        };
        assert(answers(taken, r));
        r
    }

    /// The interval between two signs of life has elapsed.
    pub fn on_interval(&self) -> (r: Action)
        ensures
            if self.spec_logged_in() {
                r matches Action::Send(s) && s@ == "ping"@
            } else {
                r is Wait
            },
    {
        if self.logged_in {
            Action::Send("ping".to_owned())
        } else {
            Action::Wait
        }
    }
}

/// Whether an action is the one that a step calls for.
pub open spec fn answers(step: Step, action: Action) -> bool {
    match step {
        Step::Continue => action is Wait,
        Step::LoggedIn => action matches Action::Send(s) && says(s@, subscription_content()),
        Step::Closed => action is Reconnect,
        Step::Failed(e) => action matches Action::Retry(f) && f@ == e@,
    }
}

/// The line that tells of a position at a place in a message of the positions channel.
pub fn position_line(message: &Value, at: &str) -> (s: String)
    ensures
        ({
            let texts = json_texts(*message);
            s@ == text_or(texts, at@ + "/instId"@, "?"@) + " "@ + text_or(
                texts,
                at@ + "/posSide"@,
                "?"@,
            ) + " pos="@ + text_or(texts, at@ + "/pos"@, "0"@) + " avg="@ + text_or(
                texts,
                at@ + "/avgPx"@,
                "0"@,
            )
        }),
{
    let mut s = match text_below(message, at, "/instId") {
        Some(t) => t,
        None => "?".to_owned(),
    };
    s.append(" ");
    match text_below(message, at, "/posSide") {
        Some(t) => s.append(t.as_str()),
        None => s.append("?"),
    }
    s.append(" pos=");
    match text_below(message, at, "/pos") {
        Some(t) => s.append(t.as_str()),
        None => s.append("0"),
    }
    s.append(" avg=");
    match text_below(message, at, "/avgPx") {
        Some(t) => s.append(t.as_str()),
        None => s.append("0"),
    }
    s
}

/// The lines that tell of the positions in a message of the positions channel. The orders
/// channel alone decides over the state of a position.
pub fn handle_positions(message: &Value) -> (r: Vec<String>)
    ensures
        r@.len() == match list_in(json_lists(*message), "/data"@) {
            Some(n) => n,
            None => 0,
        },
        forall|i: int|
            0 <= i < r@.len() ==> {
                let texts = json_texts(*message);
                let at = item_pointer(i as nat);
                (#[trigger] r@[i])@ == text_or(texts, at + "/instId"@, "?"@) + " "@ + text_or(
                    texts,
                    at + "/posSide"@,
                    "?"@,
                ) + " pos="@ + text_or(texts, at + "/pos"@, "0"@) + " avg="@ + text_or(
                    texts,
                    at + "/avgPx"@,
                    "0"@,
                )
            },
{
    let mut r: Vec<String> = Vec::new();
    let n: usize = match list_at(message, "/data") {
        Some(n) => n,
        None => 0,
    };
    let mut i: usize = 0;
    while i < n
        invariant
            i <= n,
            r@.len() == i,
            forall|k: int|
                0 <= k < i ==> {
                    let texts = json_texts(*message);
                    let at = item_pointer(k as nat);
                    (#[trigger] r@[k])@ == text_or(texts, at + "/instId"@, "?"@) + " "@ + text_or(
                        texts,
                        at + "/posSide"@,
                        "?"@,
                    ) + " pos="@ + text_or(texts, at + "/pos"@, "0"@) + " avg="@ + text_or(
                        texts,
                        at + "/avgPx"@,
                        "0"@,
                    )
                },
        decreases n - i,
    {
        let at = item_at(i);
        r.push(position_line(message, at.as_str()));
        i = i + 1;
    }
    r
}

/// The name of an entry's exits leads back to the entry, whatever the entry is called.
pub proof fn law_exits_lead_to_their_entry(id: Seq<char>)
    ensures
        is_exit(exit_id(id)),
        parent_id(exit_id(id)) == id,
{
    reveal_strlit("_oco");
    let e = exit_id(id);
    assert(e.skip(e.len() - 4) =~= "_oco"@);
    assert(e.take(e.len() - 4) =~= id);
}

/// The fill of an entry's exit closes the entry's position, at the time of the fill, where it is
/// open. No other position changes.
pub proof fn law_filled_exit_closes(
    v: PositionsView,
    id: Seq<char>,
    u: OrderUpdateView,
    other: Seq<char>,
)
    requires
        v.wf(),
        u.client_ord_id == exit_id(id),
        u.state == "filled"@,
    ensures
        after_event(v, u) == v.closed(id, u.timestamp_ms),
        v.get(id) matches Some(p) ==> p.state == PositionState::Open ==> after_event(v, u).get(id)
            == Some(
            PositionView {
                state: PositionState::Closed,
                last_update_ms: u.timestamp_ms,
                ..p
            },
        ),
        other != id ==> after_event(v, u).get(other) == v.get(other),
{
    law_exits_lead_to_their_entry(id);
    if let Some(p) = v.get(id) {
        lemma_place(v.entries, id);
        let q = exited(p, u.timestamp_ms);
        lemma_put_places(v, q, id);
        lemma_put_places(v, q, other);
    }
}

/// Messages of other channels leave the positions as they are.
pub proof fn law_only_orders_count(
    v: PositionsView,
    texts: Map<Seq<char>, Seq<char>>,
    lists: Map<Seq<char>, nat>,
)
    requires
        text_in(texts, "/arg/channel"@) != Some("orders"@),
    ensures
        after_message(v, texts, lists) == v,
{
}

} // verus!
