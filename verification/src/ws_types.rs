//! Messages of the public market data stream, raw and cleaned.

use crate::number::Real;
use vstd::prelude::*;

verus! {

/// The channel that a message belongs to.
#[derive(Debug)]
pub struct WsArg {
    pub channel: String,
    pub inst_id: Option<String>,
}

/// What every message is wrapped in: a channel and its data, or an event of the stream itself.
#[derive(Debug)]
pub struct WsEnvelope {
    pub arg: Option<WsArg>,
    pub data: Option<serde_json::Value>,
    pub event: Option<String>,
}

/// One executed trade as the exchange sends it, numbers as text.
#[derive(Debug, Clone)]
pub struct TradeData {
    pub inst_id: String,
    pub trade_id: String,
    pub px: String,
    pub sz: String,
    /// "buy" or "sell": the taker's side.
    pub side: String,
    /// Milliseconds since the epoch.
    pub ts: String,
}

/// The best levels of an order book as the exchange sends them, numbers as text.
#[derive(Debug, Clone)]
pub struct BookData {
    pub inst_id: Option<String>,
    /// Each entry: price, size, an unused field, count of orders.
    pub asks: Vec<Vec<String>>,
    /// Each entry: price, size, an unused field, count of orders.
    pub bids: Vec<Vec<String>>,
    pub ts: String,
}

/// One executed trade.
#[derive(Debug)]
pub struct TradeUpdate {
    pub inst_id: String,
    pub price: Real,
    pub size: Real,
    pub side: String,
    pub timestamp_ms: u64,
}

impl Clone for TradeUpdate {
    fn clone(&self) -> (r: Self)
        ensures
            r == *self,
    {
        TradeUpdate {
            inst_id: self.inst_id.clone(),
            price: self.price,
            size: self.size,
            side: self.side.clone(),
            timestamp_ms: self.timestamp_ms,
        }
    }
}

/// One level of an order book.
#[derive(Debug, Clone, Copy, PartialEq, Eq, Structural)]
pub struct BookLevel {
    pub price: Real,
    pub size: Real,
}

/// The best levels of an order book: lowest ask first, highest bid first.
#[derive(Debug)]
pub struct OrderBookUpdate {
    pub inst_id: String,
    pub asks: Vec<BookLevel>,
    pub bids: Vec<BookLevel>,
    pub timestamp_ms: u64,
}

/// What a stream hands over.
#[derive(Debug)]
pub enum Frame {
    Text(String),
    Close,
    /// Binary data, a ping or a pong.
    Other,
    /// The stream failed.
    Failed(String),
    /// The stream is over.
    Ended,
}

/// What the public stream delivers.
#[derive(Debug)]
pub enum StreamEvent {
    Trade(TradeUpdate),
    Book(OrderBookUpdate),
}

} // verus!
