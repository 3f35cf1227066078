//! The public stream of market data: what to subscribe to, and what its messages mean.

use crate::json::content;
use crate::json::contents;
use crate::json::flat_content;
use crate::json::flat_object;
use crate::json::good_keys;
use crate::json::lemma_flat_depth;
use crate::json::op_content;
use crate::json::op_message;
use crate::json::pair_texts;
use crate::json::says;
use crate::json::Content;
use crate::number::Real;
use crate::parse::parsed_real;
use crate::text::parse_u64;
use crate::text::parsed_u64;
use crate::text::same_text;
use crate::text::texts_of;
use crate::ws_types::BookData;
use crate::ws_types::BookLevel;
use crate::ws_types::Frame;
use crate::ws_types::OrderBookUpdate;
use crate::ws_types::StreamEvent;
use crate::ws_types::TradeData;
use crate::ws_types::TradeUpdate;
use crate::ws_types::WsEnvelope;
use serde_json::Value;
use vstd::prelude::*;
use vstd::string::*;

verus! {

/// Seconds between two signs of life. The exchange drops a connection that is silent for twice
/// as long.
pub const PING_INTERVAL_SECS: u64 = 15;

/// Messages that may wait to be taken in.
pub const CHANNEL_BUFFER: usize = 1024;

/// Which stream to read, and for which instruments.
#[derive(Debug)]
pub struct WsConfig {
    pub url: String,
    pub instruments: Vec<String>,
    /// Messages that may wait to be taken in. More are dropped.
    pub channel_buffer: usize,
}

impl WsConfig {
    /// The stream of the simulated market.
    pub fn paper_trading(instruments: Vec<String>) -> (r: Self)
        ensures
            r.url@ == "wss://wspap.okx.com:8443/ws/v5/public?brokerId=9999"@,
            r.instruments == instruments,
            r.channel_buffer == CHANNEL_BUFFER,
    {
        WsConfig {
            url: "wss://wspap.okx.com:8443/ws/v5/public?brokerId=9999".to_owned(),
            instruments,
            channel_buffer: CHANNEL_BUFFER,
        }
    }

    /// The stream of the market.
    pub fn live(instruments: Vec<String>) -> (r: Self)
        ensures
            r.url@ == "wss://ws.okx.com:8443/ws/v5/public"@,
            r.instruments == instruments,
            r.channel_buffer == CHANNEL_BUFFER,
    {
        WsConfig {
            url: "wss://ws.okx.com:8443/ws/v5/public".to_owned(),
            instruments,
            channel_buffer: CHANNEL_BUFFER,
        }
    }
}

/// The argument of a subscription to a channel of an instrument.
pub open spec fn channel_of(channel: Seq<char>, inst_id: Seq<char>) -> Seq<(Seq<char>, Seq<char>)> {
    seq![("channel"@, channel), ("instId"@, inst_id)]
}

/// The arguments of a subscription: two channels for each instrument, the trades and the best
/// five levels of the order book.
pub open spec fn channels_of(instruments: Seq<Seq<char>>) -> Seq<Content> {
    Seq::new(
        2 * instruments.len(),
        |i: int|
            flat_content(
                channel_of(if i % 2 == 0 { "trades"@ } else { "books5"@ }, instruments[i / 2]),
            ),
    )
}

/// What a subscription says.
pub open spec fn subscription_of(instruments: Seq<Seq<char>>) -> Content {
    op_content("subscribe"@, channels_of(instruments))
}

/// The argument of a subscription to a channel of an instrument.
fn channel_arg(channel: &str, inst_id: &str) -> (r: Value)
    ensures
        content(r) == flat_content(channel_of(channel@, inst_id@)),
        content(r).depth <= 1,
{
    let mut pairs: Vec<(String, String)> = Vec::new();
    pairs.push(("channel".to_owned(), channel.to_owned()));
    pairs.push(("instId".to_owned(), inst_id.to_owned()));
    proof {
        let expected = channel_of(channel@, inst_id@);
        reveal_strlit("channel");
        reveal_strlit("instId");
        assert(pair_texts(pairs@) =~= expected);
        assert(expected[0].0.len() != expected[1].0.len());
        assert(good_keys(expected));
        lemma_flat_depth(expected);
    }
    flat_object(pairs)
}

/// A reader of the public stream.
pub struct WsClient {
    config: WsConfig,
}

impl WsClient {
    pub closed spec fn spec_config(&self) -> WsConfig {
        self.config
    }

    pub fn new(config: WsConfig) -> (r: Self)
        ensures
            r.spec_config() == config,
    {
        WsClient { config }
    }

    pub fn config(&self) -> (r: &WsConfig)
        ensures
            *r == self.spec_config(),
    {
        &self.config
    }

    /// The subscription to trades and books of all instruments.
    pub fn build_subscribe_message(&self) -> (r: String)
        ensures
            says(r@, subscription_of(texts_of(self.spec_config().instruments@))),
    {
        let ghost names = texts_of(self.config.instruments@);
        let mut args: Vec<Value> = Vec::new();
        let mut i: usize = 0;
        while i < self.config.instruments.len()
            invariant
                i <= self.config.instruments@.len(),
                names == texts_of(self.config.instruments@),
                args@.len() == 2 * i,
                forall|k: int|
                    0 <= k < args@.len() ==> content(#[trigger] args@[k]) == channels_of(names)[k],
                forall|k: int|
                    0 <= k < args@.len() ==> content(#[trigger] args@[k]).depth <= 1,
            decreases self.config.instruments@.len() - i,
        {
            let name = self.config.instruments[i].as_str();
            args.push(channel_arg("trades", name));
            args.push(channel_arg("books5", name));
            proof {
                let k = 2 * i as int;
                assert(k % 2 == 0 && k / 2 == i as int);
                assert((k + 1) % 2 == 1 && (k + 1) / 2 == i as int);
                assert(names[i as int] == name@);
            }
            i = i + 1;
        }
        assert(contents(args@) =~= channels_of(names));
        op_message("subscribe", args)
    }
}

/// What a frame of the public stream leads to.
#[derive(Debug, Clone, Copy, PartialEq, Eq, Structural)]
pub enum ReadStep {
    /// Read on.
    Skip,
    /// Read the message.
    Parse,
    /// The stream is over.
    Stop,
}

/// What a frame of the public stream means. The answer to a sign of life is no message.
pub open spec fn read_step_of(frame: Frame) -> ReadStep {
    match frame {
        Frame::Text(text) => if text@ == "pong"@ { ReadStep::Skip } else { ReadStep::Parse },
        Frame::Other => ReadStep::Skip,
        Frame::Close | Frame::Failed(_) | Frame::Ended => ReadStep::Stop,
    }
}

/// What to do with a frame of the public stream.
pub fn read_step(frame: &Frame) -> (r: ReadStep)
    ensures
        r == read_step_of(*frame),
{
    match frame {
        Frame::Text(text) => {
            if same_text(text.as_str(), "pong") {
                ReadStep::Skip
            } else {
                ReadStep::Parse
            }
        },
        Frame::Other => ReadStep::Skip,
        Frame::Close => ReadStep::Stop,
        Frame::Failed(_) => ReadStep::Stop,
        Frame::Ended => ReadStep::Stop,
    }
}

/// What the data of a message are.
#[derive(Debug)]
pub enum Subject {
    /// No data, or data that cannot be placed.
    Nothing,
    /// Trades.
    Trades,
    /// The order book of an instrument.
    Book(String),
    /// Data of a channel that was not subscribed to.
    Unknown(String),
}

/// The contents of a subject.
pub enum SubjectView {
    Nothing,
    Trades,
    Book(Seq<char>),
    Unknown(Seq<char>),
}

impl View for Subject {
    type V = SubjectView;

    open spec fn view(&self) -> SubjectView {
        match self {
            Subject::Nothing => SubjectView::Nothing,
            Subject::Trades => SubjectView::Trades,
            Subject::Book(id) => SubjectView::Book(id@),
            Subject::Unknown(channel) => SubjectView::Unknown(channel@),
        }
    }
}

/// What the data of a message are. Events of the stream itself carry none.
pub open spec fn subject_of(envelope: WsEnvelope) -> SubjectView {
    if envelope.event is Some || envelope.data is None {
        SubjectView::Nothing
    } else {
        match envelope.arg {
            None => SubjectView::Nothing,
            Some(arg) => if arg.channel@ == "trades"@ {
                SubjectView::Trades
            } else if arg.channel@ == "books5"@ {
                match arg.inst_id {
                    Some(id) => SubjectView::Book(id@),
                    None => SubjectView::Nothing,
                }
            } else {
                SubjectView::Unknown(arg.channel@)
            },
        }
    }
}

/// Finds out what the data of a message are.
pub fn parse_message(envelope: &WsEnvelope) -> (r: Subject)
    ensures
        r@ == subject_of(*envelope),
{
    if envelope.event.is_some() || envelope.data.is_none() {
        return Subject::Nothing;
    }
    match &envelope.arg {
        None => Subject::Nothing,
        Some(arg) => {
            if same_text(arg.channel.as_str(), "trades") {
                Subject::Trades
            } else if same_text(arg.channel.as_str(), "books5") {
                match &arg.inst_id {
                    Some(id) => Subject::Book(id.clone()),
                    None => Subject::Nothing,
                }
            } else {
                Subject::Unknown(arg.channel.clone())
            }
        },
    }
}

/// Whether a trade was read from its data.
pub open spec fn is_trade_of(t: TradeUpdate, d: TradeData) -> bool {
    &&& t.inst_id@ == d.inst_id@
    &&& parsed_real(d.px@) == Some(t.price)
    &&& parsed_real(d.sz@) == Some(t.size)
    &&& t.side@ == d.side@
    &&& parsed_u64(d.ts@) == Some(t.timestamp_ms)
}

/// Whether the numbers of a trade can be read.
pub open spec fn readable_trade(d: TradeData) -> bool {
    parsed_real(d.px@) is Some && parsed_real(d.sz@) is Some && parsed_u64(d.ts@) is Some
}

/// The first trade of a message. None where there is no trade, or it cannot be read.
pub fn parse_trades(trades: &Vec<TradeData>) -> (r: Option<StreamEvent>)
    ensures
        match r {
            Some(StreamEvent::Trade(t)) => trades@.len() > 0 && is_trade_of(t, trades@[0]),
            Some(StreamEvent::Book(_)) => false,
            None => trades@.len() == 0 || !readable_trade(trades@[0]),
        },
{
    if trades.len() == 0 {
        return None;
    }
    let d = &trades[0];
    match (Real::parse(d.px.as_str()), Real::parse(d.sz.as_str()), parse_u64(d.ts.as_str())) {
        (Some(price), Some(size), Some(timestamp_ms)) => Some(
            StreamEvent::Trade(
                TradeUpdate {
                    inst_id: d.inst_id.clone(),
                    price,
                    size,
                    side: d.side.clone(),
                    timestamp_ms,
                },
            ),
        ),
        _ => None,
    }
}

/// A level of an order book: its price and its size, where both can be read.
pub open spec fn level_of(raw: Seq<String>) -> Option<BookLevel> {
    if raw.len() < 2 {
        None
    } else {
        match (parsed_real(raw[0]@), parsed_real(raw[1]@)) {
            (Some(price), Some(size)) => Some(BookLevel { price, size }),
            _ => None,
        }
    }
}

/// The levels of one side of an order book. One that cannot be read is left out.
pub open spec fn levels_of(raw: Seq<Vec<String>>) -> Seq<BookLevel>
    decreases raw.len(),
{
    if raw.len() == 0 {
        Seq::empty()
    } else {
        let rest = levels_of(raw.drop_last());
        match level_of(raw.last()@) {
            Some(level) => rest.push(level),
            None => rest,
        }
    }
}

/// A level of an order book.
fn parse_level(raw: &Vec<String>) -> (r: Option<BookLevel>)
    ensures
        r == level_of(raw@),
{
    if raw.len() < 2 {
        return None;
    }
    match (Real::parse(raw[0].as_str()), Real::parse(raw[1].as_str())) {
        (Some(price), Some(size)) => Some(BookLevel { price, size }),
        _ => None,
    }
}

/// The levels of one side of an order book.
fn parse_levels(raw: &Vec<Vec<String>>) -> (r: Vec<BookLevel>)
    ensures
        r@ == levels_of(raw@),
{
    let mut r: Vec<BookLevel> = Vec::new();
    let mut i: usize = 0;
    while i < raw.len()
        invariant
            i <= raw.len(),
            r@ == levels_of(raw@.take(i as int)),
        decreases raw.len() - i,
    {
        match parse_level(&raw[i]) {
            Some(level) => {
                r.push(level);
            },
            None => {},
        }
        proof {
            let next = raw@.take(i + 1);
            assert(next.drop_last() =~= raw@.take(i as int));
            assert(next.last() == raw@[i as int]);
        }
        i = i + 1;
    }
    assert(raw@.take(i as int) =~= raw@);
    r
}

/// The first order book of a message. None where there is no book, or its time cannot be read.
pub fn parse_book(books: &Vec<BookData>, inst_id: &str) -> (r: Option<StreamEvent>)
    ensures
        match r {
            Some(StreamEvent::Book(b)) => {
                &&& books@.len() > 0
                &&& b.inst_id@ == inst_id@
                &&& b.asks@ == levels_of(books@[0].asks@)
                &&& b.bids@ == levels_of(books@[0].bids@)
                &&& parsed_u64(books@[0].ts@) == Some(b.timestamp_ms)
            },
            Some(StreamEvent::Trade(_)) => false,
            None => books@.len() == 0 || parsed_u64(books@[0].ts@) is None,
        },
{
    if books.len() == 0 {
        return None;
    }
    let d = &books[0];
    match parse_u64(d.ts.as_str()) {
        Some(timestamp_ms) => Some(
            StreamEvent::Book(
                OrderBookUpdate {
                    inst_id: inst_id.to_owned(),
                    asks: parse_levels(&d.asks),
                    bids: parse_levels(&d.bids),
                    timestamp_ms,
                },
            ),
        ),
        None => None,
    }
}

/// Levels that can be read all stay, in their order.
pub proof fn law_readable_levels_are_kept(raw: Seq<Vec<String>>)
    requires
        forall|i: int| 0 <= i < raw.len() ==> level_of((#[trigger] raw[i])@) is Some,
    ensures
        levels_of(raw).len() == raw.len(),
        forall|i: int|
            0 <= i < raw.len() ==> Some(#[trigger] levels_of(raw)[i]) == level_of(raw[i]@),
    decreases raw.len(),
{
    if raw.len() > 0 {
        let rest = raw.drop_last();
        assert forall|i: int| 0 <= i < rest.len() implies level_of((#[trigger] rest[i])@) is Some by {
            assert(rest[i] == raw[i]);
        }
        law_readable_levels_are_kept(rest);
        assert(raw.last() == raw[raw.len() - 1]);
        assert forall|i: int| 0 <= i < raw.len() implies Some(#[trigger] levels_of(raw)[i])
            == level_of(raw[i]@) by {
            if i < rest.len() {
                assert(levels_of(rest)[i] == levels_of(raw)[i]);
                assert(rest[i] == raw[i]);
            }
        }
    }
}

} // verus!
