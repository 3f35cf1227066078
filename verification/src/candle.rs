//! Aggregation of trades into candles whose boundaries are aligned to the epoch.

use crate::fixed::fixed_text;
use crate::number::Real;
use crate::text::decimal;
use crate::text::decimal_text;
use crate::ws_types::TradeUpdate;
use std::collections::VecDeque;
use vstd::prelude::*;
use vstd::string::*;

verus! {

/// The duration of a candle.
#[derive(Debug, Clone, Copy, PartialEq, Eq, Hash, Structural)]
pub enum Timeframe {
    M1,
    M5,
    M15,
    H1,
    H4,
    D1,
}

impl Timeframe {
    pub open spec fn spec_duration_ms(&self) -> u64 {
        match *self {
            Timeframe::M1 => 60_000,
            Timeframe::M5 => 300_000,
            Timeframe::M15 => 900_000,
            Timeframe::H1 => 3_600_000,
            Timeframe::H4 => 14_400_000,
            Timeframe::D1 => 86_400_000,
        }
    }

    /// The duration in milliseconds.
    #[verifier::when_used_as_spec(spec_duration_ms)]
    pub fn duration_ms(&self) -> (r: u64)
        ensures
            r == self.spec_duration_ms(),
    {
        match self {
            Timeframe::M1 => 60_000,
            Timeframe::M5 => 300_000,
            Timeframe::M15 => 900_000,
            Timeframe::H1 => 3_600_000,
            Timeframe::H4 => 14_400_000,
            Timeframe::D1 => 86_400_000,
        }
    }

    pub open spec fn label_text(self) -> Seq<char> {
        match self {
            Timeframe::M1 => "1m"@,
            Timeframe::M5 => "5m"@,
            Timeframe::M15 => "15m"@,
            Timeframe::H1 => "1h"@,
            Timeframe::H4 => "4h"@,
            Timeframe::D1 => "1d"@,
        }
    }

    /// The name of the timeframe.
    pub fn label(&self) -> (r: &'static str)
        ensures
            r@ == self.label_text(),
    {
        match self {
            Timeframe::M1 => "1m",
            Timeframe::M5 => "5m",
            Timeframe::M15 => "15m",
            Timeframe::H1 => "1h",
            Timeframe::H4 => "4h",
            Timeframe::D1 => "1d",
        }
    }
}

/// The start of the period that a time falls into.
pub open spec fn period_start(ts: nat, period: nat) -> nat {
    (ts / period) * period
}

/// A bounded history after one more item: the oldest one leaves when the history is full. A
/// history without room keeps nothing.
pub open spec fn kept<T>(s: Seq<T>, x: T, cap: nat) -> Seq<T> {
    if cap == 0 {
        Seq::empty()
    } else if s.len() >= cap {
        s.skip(1).push(x)
    } else {
        s.push(x)
    }
}

/// The newest `n` items, oldest first; all of them when there are fewer.
pub open spec fn newest<T>(s: Seq<T>, n: nat) -> Seq<T> {
    if n >= s.len() {
        s
    } else {
        s.skip(s.len() - n)
    }
}

/// One bar of prices and volume. It spans `open_time` up to but not `close_time`.
#[derive(Debug, Clone, Copy, PartialEq, Eq, Structural)]
pub struct Candle {
    pub open_time: u64,
    pub close_time: u64,
    pub open: Real,
    pub high: Real,
    pub low: Real,
    pub close: Real,
    /// Traded volume in base currency.
    pub volume: Real,
    pub trade_count: u64,
}

/// The candle that a first trade opens.
pub open spec fn opened(open_time: u64, close_time: u64, price: Real, size: Real) -> Candle {
    Candle {
        open_time,
        close_time,
        open: price,
        high: price,
        low: price,
        close: price,
        volume: size,
        trade_count: 1,
    }
}

/// A candle after one more trade of its period.
pub open spec fn folded(c: Candle, price: Real, size: Real) -> Candle {
    Candle {
        high: if c.high.lt(price) { price } else { c.high },
        low: if price.lt(c.low) { price } else { c.low },
        close: price,
        volume: c.volume.plus(size),
        trade_count: (c.trade_count + 1) as u64,
        ..c
    }
}

impl Candle {
    fn new(open_time: u64, close_time: u64, trade: &TradeUpdate) -> (c: Candle)
        ensures
            c == opened(open_time, close_time, trade.price, trade.size),
    {
        Candle {
            open_time,
            close_time,
            open: trade.price,
            high: trade.price,
            low: trade.price,
            close: trade.price,
            volume: trade.size,
            trade_count: 1,
        }
    }

    fn update(&mut self, trade: &TradeUpdate)
        requires
            old(self).trade_count < u64::MAX,
        ensures
            *final(self) == folded(*old(self), trade.price, trade.size),
    {
        if self.high.lt(trade.price) {
            self.high = trade.price;
        }
        if trade.price.lt(self.low) {
            self.low = trade.price;
        }
        self.close = trade.price;
        self.volume = self.volume.plus(trade.size);
        self.trade_count = self.trade_count + 1;
    }

    /// The distance between open and close.
    pub fn body(&self) -> (r: Real)
        ensures
            r == self.close.minus(self.open).magnitude(),
    {
        self.close.minus(self.open).magnitude()
    }

    /// The distance between high and low.
    pub fn range(&self) -> (r: Real)
        ensures
            r == self.high.minus(self.low),
    {
        self.high.minus(self.low)
    }

    /// Whether the close is above the open.
    pub fn is_bullish(&self) -> (r: bool)
        ensures
            r == self.open.lt(self.close),
    {
        self.open.lt(self.close)
    }

    /// Whether the close is below the open.
    pub fn is_bearish(&self) -> (r: bool)
        ensures
            r == self.close.lt(self.open),
    {
        self.close.lt(self.open)
    }

    /// The middle between high and low.
    pub fn midpoint(&self) -> (r: Real)
        ensures
            r == self.high.plus(self.low).over(Real::from_u64(2)),
    {
        self.high.plus(self.low).over(Real::from_u64(2))
    }

    /// The mean of high, low and close.
    pub fn typical_price(&self) -> (r: Real)
        ensures
            r == self.high.plus(self.low).plus(self.close).over(Real::from_u64(3)),
    {
        self.high.plus(self.low).plus(self.close).over(Real::from_u64(3))
    }

    pub open spec fn text(self) -> Seq<char> {
        (if self.open.lt(self.close) { "▲"@ } else { "▼"@ }) + " O:"@ + fixed_text(self.open, 2) + " H:"@
            + fixed_text(self.high, 2) + " L:"@ + fixed_text(self.low, 2) + " C:"@ + fixed_text(
            self.close,
            2,
        ) + " V:"@ + fixed_text(self.volume, 4) + " ("@ + decimal(self.trade_count as nat) + "t)"@
    }

    /// The candle on one line.
    pub fn to_text(&self) -> (s: String)
        ensures
            s@ == self.text(),
    {
        let mut s = if self.is_bullish() { "▲".to_owned() } else { "▼".to_owned() };
        s.append(" O:");
        s.append(self.open.fixed(2).as_str());
        s.append(" H:");
        s.append(self.high.fixed(2).as_str());
        s.append(" L:");
        s.append(self.low.fixed(2).as_str());
        s.append(" C:");
        s.append(self.close.fixed(2).as_str());
        s.append(" V:");
        s.append(self.volume.fixed(4).as_str());
        s.append(" (");
        s.append(decimal_text(self.trade_count).as_str());
        s.append("t)");
        s
    }
}

/// The state of an aggregator.
pub struct AggregatorView {
    pub timeframe: Timeframe,
    /// The candle that is being built.
    pub current: Option<Candle>,
    /// Closed candles, oldest first.
    pub history: Seq<Candle>,
    pub max_history: nat,
    /// How many candles have been closed.
    pub produced: nat,
}

impl AggregatorView {
    /// The start of the period of a trade.
    pub open spec fn start_of(self, ts: u64) -> u64 {
        period_start(ts as nat, self.timeframe.duration_ms() as nat) as u64
    }

    /// The state after a trade.
    pub open spec fn after(self, price: Real, size: Real, ts: u64) -> AggregatorView {
        let start = self.start_of(ts);
        let end = (start + self.timeframe.duration_ms()) as u64;
        match self.current {
            None => AggregatorView { current: Some(opened(start, end, price, size)), ..self },
            Some(c) => if c.open_time == start {
                AggregatorView { current: Some(folded(c, price, size)), ..self }
            } else {
                AggregatorView {
                    current: Some(opened(start, end, price, size)),
                    history: kept(self.history, c, self.max_history),
                    produced: self.produced + 1,
                    ..self
                }
            },
        }
    }

    /// The candle that a trade closes: the one being built, when the trade belongs to another
    /// period.
    pub open spec fn closes(self, ts: u64) -> Option<Candle> {
        match self.current {
            Some(c) => if c.open_time == self.start_of(ts) {
                None
            } else {
                Some(c)
            },
            None => None,
        }
    }

    /// A bound on the counters: no more than the trades that have been fed in.
    pub open spec fn load(self) -> nat {
        self.produced + (match self.current {
            Some(c) => c.trade_count as nat,
            None => 0,
        })
    }

    /// Whether the counters and the end of the period fit into 64 bits after a trade.
    pub open spec fn has_room(self, ts: u64) -> bool {
        &&& self.load() < u64::MAX
        &&& self.start_of(ts) + self.timeframe.duration_ms() <= u64::MAX
    }

    /// A candle spans one period of the timeframe.
    pub open spec fn aligned(self, c: Candle) -> bool {
        let p = self.timeframe.duration_ms();
        &&& c.open_time % p == 0
        &&& c.close_time == c.open_time + p
        &&& c.trade_count >= 1
    }

    /// What every operation keeps.
    pub open spec fn wf(self) -> bool {
        &&& self.history.len() <= self.max_history
        &&& self.current matches Some(c) ==> self.aligned(c)
        &&& forall|i: int| 0 <= i < self.history.len() ==> self.aligned(#[trigger] self.history[i])
    }
}

/// Turns a stream of trades into candles of one timeframe.
pub struct CandleAggregator {
    timeframe: Timeframe,
    current_candle: Option<Candle>,
    history: VecDeque<Candle>,
    max_history: usize,
    /// How many candles have been closed.
    pub candles_produced: u64,
}

impl View for CandleAggregator {
    type V = AggregatorView;

    closed spec fn view(&self) -> AggregatorView {
        AggregatorView {
            timeframe: self.timeframe,
            current: self.current_candle,
            history: self.history@,
            max_history: self.max_history as nat,
            produced: self.candles_produced as nat,
        }
    }
}

/// The state of an aggregator that has seen nothing.
pub open spec fn fresh_aggregator(timeframe: Timeframe, max_history: nat) -> AggregatorView {
    AggregatorView { timeframe, current: None, history: Seq::empty(), max_history, produced: 0 }
}

impl CandleAggregator {
    /// An aggregator that keeps the newest `max_history` closed candles.
    pub fn new(timeframe: Timeframe, max_history: usize) -> (r: Self)
        ensures
            r@ == fresh_aggregator(timeframe, max_history as nat),
            r@.wf(),
    {
        CandleAggregator {
            timeframe,
            current_candle: None,
            history: VecDeque::new(),
            max_history,
            candles_produced: 0,
        }
    }

    /// Whether a trade at a time can be taken in.
    pub fn accepts(&self, timestamp_ms: u64) -> (r: bool)
        ensures
            r == self@.has_room(timestamp_ms),
    {
        let p: u64 = self.timeframe.duration_ms();
        proof {
            lemma_start_at_most(timestamp_ms as nat, p as nat);
        }
        let start: u64 = (timestamp_ms / p) * p;
        let count: u64 = match self.current_candle {
            Some(c) => c.trade_count,
            None => 0,
        };
        start <= u64::MAX - p && self.candles_produced < u64::MAX - count
    }

    /// Takes a trade in. Returns the candle that it closed, if it closed one.
    ///
    /// No candle is made up for a period without trades.
    pub fn update(&mut self, trade: &TradeUpdate) -> (r: Option<Candle>)
        requires
            old(self)@.wf(),
            old(self)@.has_room(trade.timestamp_ms),
        ensures
            final(self)@ == old(self)@.after(trade.price, trade.size, trade.timestamp_ms),
            r == old(self)@.closes(trade.timestamp_ms),
            final(self)@.wf(),
            final(self)@.load() <= old(self)@.load() + 1,
    {
        let period_ms: u64 = self.timeframe.duration_ms();
        proof {
            lemma_start_at_most(trade.timestamp_ms as nat, period_ms as nat);
        }
        let candle_open: u64 = (trade.timestamp_ms / period_ms) * period_ms;
        let candle_close: u64 = candle_open + period_ms;
        match self.current_candle {
            None => {
                self.current_candle = Some(Candle::new(candle_open, candle_close, trade));
                None
            },
            Some(c) => {
                if candle_open == c.open_time {
                    let mut current: Candle = c;
                    current.update(trade);
                    self.current_candle = Some(current);
                    None
                } else {
                    self.current_candle = Some(Candle::new(candle_open, candle_close, trade));
                    self.push_to_history(c);
                    Some(c)
                }
            },
        }
    }

    fn push_to_history(&mut self, candle: Candle)
        requires
            old(self).candles_produced < u64::MAX,
            old(self)@.history.len() <= old(self)@.max_history,
        ensures
            final(self)@ == (AggregatorView {
                history: kept(old(self)@.history, candle, old(self)@.max_history),
                produced: old(self)@.produced + 1,
                ..old(self)@
            }),
    {
        if self.max_history > 0 {
            if self.history.len() >= self.max_history {
                let _ = self.history.pop_front();
            }
            self.history.push_back(candle);
        }
        self.candles_produced = self.candles_produced + 1;
        proof {
            assert(self.history@ =~= kept(old(self)@.history, candle, old(self)@.max_history));
        }
    }

    /// The candle that is being built.
    pub fn current(&self) -> (r: Option<&Candle>)
        ensures
            match r {
                Some(c) => self@.current == Some(*c),
                None => self@.current is None,
            },
    {
        match &self.current_candle {
            Some(c) => Some(c),
            None => None,
        }
    }

    /// The newest closed candle.
    pub fn last_closed(&self) -> (r: Option<&Candle>)
        ensures
            match r {
                Some(c) => self@.history.len() > 0 && *c == self@.history.last(),
                None => self@.history.len() == 0,
            },
    {
        self.candle_ago(0)
    }

    /// The closed candle that `n` others have followed.
    pub fn candle_ago(&self, n: usize) -> (r: Option<&Candle>)
        ensures
            match r {
                Some(c) => n < self@.history.len() && *c == self@.history[self@.history.len() - 1 - n],
                None => n >= self@.history.len(),
            },
    {
        if n >= self.history.len() {
            return None;
        }
        Some(&self.history[self.history.len() - 1 - n])
    }

    /// How many closed candles are kept.
    pub fn history_len(&self) -> (r: usize)
        ensures
            r == self@.history.len(),
    {
        self.history.len()
    }

    /// The closed candles, oldest first.
    pub fn history(&self) -> (r: &VecDeque<Candle>)
        ensures
            r@ == self@.history,
    {
        &self.history
    }

    /// The newest `n` closed candles.
    fn recent(&self, n: usize) -> (r: Vec<Candle>)
        ensures
            r@ == newest(self@.history, n as nat),
    {
        let len: usize = self.history.len();
        let start: usize = if n >= len { 0 } else { len - n };
        let mut out: Vec<Candle> = Vec::new();
        let mut i: usize = start;
        while i < len
            invariant
                start <= i <= len,
                len == self.history@.len(),
                out@ == self.history@.subrange(start as int, i as int),
            decreases len - i,
        {
            out.push(self.history[i]);
            i = i + 1;
            proof {
                assert(self.history@.subrange(start as int, i as int) =~= self.history@.subrange(
                    start as int,
                    i - 1,
                ).push(self.history@[i - 1]));
            }
        }
        proof {
            assert(self.history@.subrange(start as int, len as int) =~= newest(self@.history, n as nat));
        }
        out
    }

    /// The close prices of the newest `n` closed candles, oldest first.
    pub fn recent_closes(&self, n: usize) -> (r: Vec<Real>)
        ensures
            r@ == newest(self@.history, n as nat).map_values(|c: Candle| c.close),
    {
        let candles: Vec<Candle> = self.recent(n);
        let mut out: Vec<Real> = Vec::new();
        let mut i: usize = 0;
        while i < candles.len()
            invariant
                i <= candles@.len(),
                out@ == candles@.take(i as int).map_values(|c: Candle| c.close),
            decreases candles@.len() - i,
        {
            out.push(candles[i].close);
            i = i + 1;
            proof {
                assert(candles@.take(i as int) =~= candles@.take(i - 1).push(candles@[i - 1]));
            }
        }
        proof {
            assert(candles@.take(i as int) =~= candles@);
        }
        out
    }

    /// The highs of the newest `n` closed candles, oldest first.
    pub fn recent_highs(&self, n: usize) -> (r: Vec<Real>)
        ensures
            r@ == newest(self@.history, n as nat).map_values(|c: Candle| c.high),
    {
        let candles: Vec<Candle> = self.recent(n);
        let mut out: Vec<Real> = Vec::new();
        let mut i: usize = 0;
        while i < candles.len()
            invariant
                i <= candles@.len(),
                out@ == candles@.take(i as int).map_values(|c: Candle| c.high),
            decreases candles@.len() - i,
        {
            out.push(candles[i].high);
            i = i + 1;
            proof {
                assert(candles@.take(i as int) =~= candles@.take(i - 1).push(candles@[i - 1]));
            }
        }
        proof {
            assert(candles@.take(i as int) =~= candles@);
        }
        out
    }

    /// The lows of the newest `n` closed candles, oldest first.
    pub fn recent_lows(&self, n: usize) -> (r: Vec<Real>)
        ensures
            r@ == newest(self@.history, n as nat).map_values(|c: Candle| c.low),
    {
        let candles: Vec<Candle> = self.recent(n);
        let mut out: Vec<Real> = Vec::new();
        let mut i: usize = 0;
        while i < candles.len()
            invariant
                i <= candles@.len(),
                out@ == candles@.take(i as int).map_values(|c: Candle| c.low),
            decreases candles@.len() - i,
        {
            out.push(candles[i].low);
            i = i + 1;
            proof {
                assert(candles@.take(i as int) =~= candles@.take(i - 1).push(candles@[i - 1]));
            }
        }
        proof {
            assert(candles@.take(i as int) =~= candles@);
        }
        out
    }

    /// The volumes of the newest `n` closed candles, oldest first.
    pub fn recent_volumes(&self, n: usize) -> (r: Vec<Real>)
        ensures
            r@ == newest(self@.history, n as nat).map_values(|c: Candle| c.volume),
    {
        let candles: Vec<Candle> = self.recent(n);
        let mut out: Vec<Real> = Vec::new();
        let mut i: usize = 0;
        while i < candles.len()
            invariant
                i <= candles@.len(),
                out@ == candles@.take(i as int).map_values(|c: Candle| c.volume),
            decreases candles@.len() - i,
        {
            out.push(candles[i].volume);
            i = i + 1;
            proof {
                assert(candles@.take(i as int) =~= candles@.take(i - 1).push(candles@[i - 1]));
            }
        }
        proof {
            assert(candles@.take(i as int) =~= candles@);
        }
        out
    }

    /// The timeframe of the candles.
    pub fn timeframe(&self) -> (r: Timeframe)
        ensures
            r == self@.timeframe,
    {
        self.timeframe
    }

    /// Whether at least `min_candles` closed candles are kept.
    pub fn is_warmed_up(&self, min_candles: usize) -> (r: bool)
        ensures
            r == (self@.history.len() >= min_candles),
    {
        self.history.len() >= min_candles
    }

    /// The fill of the history on one line.
    pub fn to_text(&self) -> (s: String)
        ensures
            s@ == "CandleAggregator["@ + self@.timeframe.label_text() + "] history: "@ + decimal(
                self@.history.len(),
            ) + "/"@ + decimal(self@.max_history) + ", produced: "@ + decimal(self@.produced),
    {
        let mut s = "CandleAggregator[".to_owned();
        s.append(self.timeframe.label());
        s.append("] history: ");
        s.append(decimal_text(self.history.len() as u64).as_str());
        s.append("/");
        s.append(decimal_text(self.max_history as u64).as_str());
        s.append(", produced: ");
        s.append(decimal_text(self.candles_produced).as_str());
        s
    }
}

proof fn lemma_start_at_most(ts: nat, p: nat)
    requires
        p > 0,
    ensures
        period_start(ts, p) <= ts < period_start(ts, p) + p,
        period_start(ts, p) % p == 0,
{
    vstd::arithmetic::div_mod::lemma_fundamental_div_mod(ts as int, p as int);
    vstd::arithmetic::div_mod::lemma_mod_multiples_basic((ts / p) as int, p as int);
    vstd::arithmetic::mul::lemma_mul_is_commutative((ts / p) as int, p as int);
}

/// The candles that a trade closes, in the order of the aggregators.
pub open spec fn closed_by(v: Seq<AggregatorView>, ts: u64) -> Seq<(Timeframe, Candle)>
    decreases v.len(),
{
    if v.len() == 0 {
        Seq::empty()
    } else {
        let head = closed_by(v.drop_last(), ts);
        match v.last().closes(ts) {
            Some(c) => head.push((v.last().timeframe, c)),
            None => head,
        }
    }
}

/// The first place of a timeframe; the length when it is not there.
pub open spec fn place_of(v: Seq<AggregatorView>, timeframe: Timeframe) -> nat
    decreases v.len(),
{
    if v.len() == 0 {
        0
    } else if v[0].timeframe == timeframe {
        0
    } else {
        1 + place_of(v.skip(1), timeframe)
    }
}

/// The fill of one history, as in a summary.
pub open spec fn summary_item(a: AggregatorView) -> Seq<char> {
    a.timeframe.label_text() + ":"@ + decimal(a.history.len()) + "/"@ + decimal(a.produced)
}

/// The fills of all histories, separated by bars.
pub open spec fn summary(v: Seq<AggregatorView>) -> Seq<char>
    decreases v.len(),
{
    if v.len() == 0 {
        Seq::empty()
    } else if v.len() == 1 {
        summary_item(v[0])
    } else {
        summary(v.drop_last()) + " | "@ + summary_item(v.last())
    }
}

/// Hands every trade to one aggregator per timeframe.
pub struct MultiTimeframeAggregator {
    aggregators: Vec<CandleAggregator>,
}

impl View for MultiTimeframeAggregator {
    type V = Seq<AggregatorView>;

    closed spec fn view(&self) -> Seq<AggregatorView> {
        Seq::new(self.aggregators@.len(), |i: int| self.aggregators@[i]@)
    }
}

/// Every aggregator is in order and has room for a trade.
pub open spec fn all_have_room(v: Seq<AggregatorView>, ts: u64) -> bool {
    forall|i: int| 0 <= i < v.len() ==> (#[trigger] v[i]).has_room(ts)
}

/// Every aggregator is in order.
pub open spec fn all_wf(v: Seq<AggregatorView>) -> bool {
    forall|i: int| 0 <= i < v.len() ==> (#[trigger] v[i]).wf()
}

impl MultiTimeframeAggregator {
    /// One aggregator for each timeframe and size of history.
    pub fn new(configs: Vec<(Timeframe, usize)>) -> (r: Self)
        ensures
            r@ == Seq::new(
                configs@.len(),
                |i: int| fresh_aggregator(configs@[i].0, configs@[i].1 as nat),
            ),
            all_wf(r@),
    {
        let mut aggregators: Vec<CandleAggregator> = Vec::new();
        let mut i: usize = 0;
        while i < configs.len()
            invariant
                i <= configs@.len(),
                aggregators@.len() == i,
                forall|j: int| 0 <= j < i ==> (#[trigger] aggregators@[j])@ == fresh_aggregator(
                    configs@[j].0,
                    configs@[j].1 as nat,
                ),
            decreases configs@.len() - i,
        {
            let (timeframe, max_history) = configs[i];
            aggregators.push(CandleAggregator::new(timeframe, max_history));
            i = i + 1;
        }
        let r = MultiTimeframeAggregator { aggregators };
        proof {
            assert(r@ =~= Seq::new(
                configs@.len(),
                |j: int| fresh_aggregator(configs@[j].0, configs@[j].1 as nat),
            ));
        }
        r
    }

    /// Whether a trade at a time can be taken in.
    pub fn accepts(&self, timestamp_ms: u64) -> (r: bool)
        ensures
            r == all_have_room(self@, timestamp_ms),
    {
        let mut i: usize = 0;
        while i < self.aggregators.len()
            invariant
                i <= self.aggregators@.len(),
                forall|j: int| 0 <= j < i ==> (#[trigger] self@[j]).has_room(timestamp_ms),
            decreases self.aggregators@.len() - i,
        {
            if !self.aggregators[i].accepts(timestamp_ms) {
                proof {
                    assert(!self@[i as int].has_room(timestamp_ms));
                }
                return false;
            }
            i = i + 1;
        }
        true
    }

    /// Hands a trade to every aggregator. Returns the candles that it closed.
    pub fn update(&mut self, trade: &TradeUpdate) -> (r: Vec<(Timeframe, Candle)>)
        requires
            all_wf(old(self)@),
            all_have_room(old(self)@, trade.timestamp_ms),
        ensures
            final(self)@ == Seq::new(
                old(self)@.len(),
                |i: int| old(self)@[i].after(trade.price, trade.size, trade.timestamp_ms),
            ),
            r@ == closed_by(old(self)@, trade.timestamp_ms),
            all_wf(final(self)@),
            forall|i: int|
                0 <= i < final(self)@.len() ==> (#[trigger] final(self)@[i]).load() <= old(self)@[i].load()
                    + 1,
    {
        let mut closed: Vec<(Timeframe, Candle)> = Vec::new();
        let ghost start = self@;
        let n: usize = self.aggregators.len();
        let mut i: usize = 0;
        while i < n
            invariant
                i <= n,
                n == self.aggregators@.len(),
                n == start.len(),
                all_wf(start),
                all_have_room(start, trade.timestamp_ms),
                forall|j: int|
                    0 <= j < i ==> (#[trigger] self.aggregators@[j])@ == start[j].after(
                        trade.price,
                        trade.size,
                        trade.timestamp_ms,
                    ) && self.aggregators@[j]@.wf() && self.aggregators@[j]@.load() <= start[j].load() + 1,
                forall|j: int| i <= j < n ==> (#[trigger] self.aggregators@[j])@ == start[j],
                closed@ == closed_by(start.take(i as int), trade.timestamp_ms),
            decreases n - i,
        {
            proof {
                assert(start[i as int].wf());
                assert(start[i as int].has_room(trade.timestamp_ms));
                assert(start.take(i + 1).drop_last() =~= start.take(i as int));
                assert(start.take(i + 1).last() == start[i as int]);
            }
            let result: Option<Candle> = self.aggregators[i].update(trade);
            if let Some(candle) = result {
                closed.push((self.aggregators[i].timeframe(), candle));
            }
            i = i + 1;
        }
        proof {
            assert(start.take(n as int) =~= start);
            assert(self@ =~= Seq::new(
                start.len(),
                |j: int| start[j].after(trade.price, trade.size, trade.timestamp_ms),
            ));
            assert forall|j: int| 0 <= j < self@.len() implies (#[trigger] self@[j]).wf() && self@[j].load()
                <= start[j].load() + 1 by {
                assert(self@[j] == self.aggregators@[j]@);
            }
        }
        closed
    }

    fn find(&self, timeframe: Timeframe) -> (r: usize)
        ensures
            r == place_of(self@, timeframe),
            r <= self@.len(),
    {
        let n: usize = self.aggregators.len();
        let mut i: usize = 0;
        proof {
            assert(self@.skip(0) =~= self@);
        }
        while i < n && self.aggregators[i].timeframe() != timeframe
            invariant
                i <= n,
                n == self.aggregators@.len(),
                place_of(self@, timeframe) == i + place_of(self@.skip(i as int), timeframe),
            decreases n - i,
        {
            proof {
                assert(self@.skip(i as int).skip(1) =~= self@.skip(i + 1));
                assert(self@.skip(i as int)[0] == self.aggregators@[i as int]@);
            }
            i = i + 1;
        }
        proof {
            if i < n {
                assert(self@.skip(i as int)[0] == self.aggregators@[i as int]@);
            } else {
                assert(self@.skip(i as int).len() == 0);
            }
        }
        i
    }

    /// The aggregator of a timeframe.
    pub fn get(&self, timeframe: Timeframe) -> (r: Option<&CandleAggregator>)
        ensures
            match r {
                Some(a) => place_of(self@, timeframe) < self@.len() && a@ == self@[place_of(
                    self@,
                    timeframe,
                ) as int],
                None => place_of(self@, timeframe) == self@.len(),
            },
    {
        let i: usize = self.find(timeframe);
        if i < self.aggregators.len() {
            Some(&self.aggregators[i])
        } else {
            None
        }
    }

    /// The aggregator of a timeframe, to change it.
    pub fn get_mut(&mut self, timeframe: Timeframe) -> (r: Option<&mut CandleAggregator>)
        ensures
            match r {
                Some(a) => {
                    &&& place_of(old(self)@, timeframe) < old(self)@.len()
                    &&& a@ == old(self)@[place_of(old(self)@, timeframe) as int]
                    &&& final(self)@ == old(self)@.update(
                        place_of(old(self)@, timeframe) as int,
                        final(a)@,
                    )
                },
                None => place_of(old(self)@, timeframe) == old(self)@.len() && final(self)@ == old(self)@,
            },
    {
        let i: usize = self.find(timeframe);
        if i < self.aggregators.len() {
            Some(&mut self.aggregators[i])
        } else {
            None
        }
    }

    /// The fills of all histories, for a status line.
    pub fn status_summary(&self) -> (s: String)
        ensures
            s@ == summary(self@),
    {
        let mut s = String::new();
        let n: usize = self.aggregators.len();
        let mut i: usize = 0;
        while i < n
            invariant
                i <= n,
                n == self.aggregators@.len(),
                s@ == summary(self@.take(i as int)),
            decreases n - i,
        {
            if i > 0 {
                s.append(" | ");
            }
            let a: &CandleAggregator = &self.aggregators[i];
            s.append(a.timeframe().label());
            s.append(":");
            s.append(decimal_text(a.history_len() as u64).as_str());
            s.append("/");
            s.append(decimal_text(a.candles_produced).as_str());
            proof {
                let t = self@.take(i + 1);
                let v = self@[i as int];
                assert(t.drop_last() =~= self@.take(i as int));
                assert(t.last() == v);
                let head = if i > 0 { summary(self@.take(i as int)) + " | "@ } else { Seq::<char>::empty() };
                assert(s@ =~= head + summary_item(v));
                assert(Seq::<char>::empty() + summary_item(v) =~= summary_item(v));
            }
            i = i + 1;
        }
        proof {
            assert(self@.take(n as int) =~= self@);
        }
        s
    }
}

/// A trade lies in the period that it is counted to, and that period is aligned to the epoch.
pub proof fn law_boundaries_are_aligned(timeframe: Timeframe, ts: u64)
    ensures
        ({
            let p = timeframe.duration_ms() as nat;
            let start = period_start(ts as nat, p);
            start % p == 0 && start <= ts < start + p
        }),
{
    lemma_start_at_most(ts as nat, timeframe.duration_ms() as nat);
}

/// The boundaries of a longer timeframe are boundaries of every shorter one.
pub proof fn law_timeframes_stay_in_phase(short: Timeframe, long: Timeframe, ts: u64)
    requires
        short.duration_ms() <= long.duration_ms(),
    ensures
        period_start(ts as nat, long.duration_ms() as nat) % (short.duration_ms() as nat) == 0,
        period_start(ts as nat, long.duration_ms() as nat) <= period_start(
            ts as nat,
            short.duration_ms() as nat,
        ),
{
    let s = short.duration_ms() as nat;
    let l = long.duration_ms() as nat;
    let k = l / s;
    assert(l == k * s);
    let q = ts as nat / l;
    assert(q * l == (q * k) * s) by (nonlinear_arith)
        requires
            l == k * s,
    ;
    vstd::arithmetic::div_mod::lemma_mod_multiples_basic((q * k) as int, s as int);
    lemma_start_at_most(ts as nat, l);
    lemma_start_at_most(ts as nat, s);
    let t = ts as nat / s;
    assert(q * k <= t) by (nonlinear_arith)
        requires
            (q * k) * s <= ts,
            ts < t * s + s,
            s > 0,
    ;
    vstd::arithmetic::mul::lemma_mul_inequality((q * k) as int, t as int, s as int);
}

/// Whether the open and the close lie between the low and the high.
pub open spec fn within_range(c: Candle) -> bool {
    c.low.le(c.open) && c.open.le(c.high) && c.low.le(c.close) && c.close.le(c.high)
}

/// The open and the close of a candle lie between its low and its high, from its first trade
/// on, as long as prices are numbers.
pub proof fn law_candle_range(c: Candle, open_time: u64, close_time: u64, price: Real, size: Real)
    requires
        price.is_number(),
        within_range(c),
    ensures
        within_range(opened(open_time, close_time, price, size)),
        within_range(folded(c, price, size)),
        folded(c, price, size).open == c.open,
{
}

/// A bounded history is the newest part of the whole one.
pub proof fn lemma_kept_is_newest<T>(s: Seq<T>, x: T, cap: nat)
    ensures
        kept(newest(s, cap), x, cap) == newest(s.push(x), cap),
{
    assert(kept(newest(s, cap), x, cap) =~= newest(s.push(x), cap));
}

/// What candles take from a trade.
pub struct Tick {
    pub price: Real,
    pub size: Real,
    pub ts: u64,
}

impl AggregatorView {
    /// The state after some trades.
    pub open spec fn fed(self, ticks: Seq<Tick>) -> AggregatorView
        decreases ticks.len(),
    {
        if ticks.len() == 0 {
            self
        } else {
            let t = ticks.last();
            self.fed(ticks.drop_last()).after(t.price, t.size, t.ts)
        }
    }

    /// The candles that some trades close, in the order in which they are returned.
    pub open spec fn returned(self, ticks: Seq<Tick>) -> Seq<Candle>
        decreases ticks.len(),
    {
        if ticks.len() == 0 {
            Seq::empty()
        } else {
            let head = self.returned(ticks.drop_last());
            match self.fed(ticks.drop_last()).closes(ticks.last().ts) {
                Some(c) => head.push(c),
                None => head,
            }
        }
    }
}

/// How many trades some candles are made of.
pub open spec fn trades_in(candles: Seq<Candle>) -> nat
    decreases candles.len(),
{
    if candles.len() == 0 {
        0
    } else {
        trades_in(candles.drop_last()) + candles.last().trade_count as nat
    }
}

/// How many trades the candle that is being built is made of.
pub open spec fn trades_open(v: AggregatorView) -> nat {
    match v.current {
        Some(c) => c.trade_count as nat,
        None => 0,
    }
}

/// Whether the periods of some trades end within 64 bits, and the trades can be counted.
pub open spec fn countable(timeframe: Timeframe, ticks: Seq<Tick>) -> bool {
    &&& ticks.len() <= u64::MAX
    &&& forall|i: int|
        0 <= i < ticks.len() ==> period_start(
            (#[trigger] ticks[i]).ts as nat,
            timeframe.duration_ms() as nat,
        ) + timeframe.duration_ms() <= u64::MAX
}

/// No trade is lost or counted twice: over any run of trades, those in the candles that were
/// returned and those in the candle that is being built add up to all of them. Every candle spans
/// one whole period and holds at least one trade. The history is the newest part of what was
/// returned, and never longer than its bound.
pub proof fn law_no_trade_is_lost(timeframe: Timeframe, max_history: nat, ticks: Seq<Tick>)
    requires
        countable(timeframe, ticks),
    ensures
        ({
            let start = fresh_aggregator(timeframe, max_history);
            let v = start.fed(ticks);
            let closed = start.returned(ticks);
            &&& trades_in(closed) + trades_open(v) == ticks.len()
            &&& v.produced == closed.len()
            &&& v.history == newest(closed, max_history)
            &&& v.history.len() <= max_history
            &&& v.timeframe == timeframe
            &&& v.max_history == max_history
            &&& v.current is None <==> ticks.len() == 0
            &&& forall|i: int| 0 <= i < closed.len() ==> v.aligned(#[trigger] closed[i])
            &&& v.current matches Some(c) ==> v.aligned(c)
        }),
    decreases ticks.len(),
{
    let start = fresh_aggregator(timeframe, max_history);
    if ticks.len() == 0 {
        assert(newest(Seq::<Candle>::empty(), max_history) =~= Seq::<Candle>::empty());
    } else {
        let head = ticks.drop_last();
        assert forall|i: int| 0 <= i < head.len() implies period_start(
            (#[trigger] head[i]).ts as nat,
            timeframe.duration_ms() as nat,
        ) + timeframe.duration_ms() <= u64::MAX by {
            assert(head[i] == ticks[i]);
        }
        law_no_trade_is_lost(timeframe, max_history, head);
        let t = ticks.last();
        assert(t == ticks[ticks.len() - 1]);
        law_boundaries_are_aligned(timeframe, t.ts);
        let before = start.fed(head);
        let v = start.fed(ticks);
        let closed = start.returned(ticks);
        match before.closes(t.ts) {
            Some(c) => {
                assert(closed.drop_last() =~= start.returned(head));
                lemma_kept_is_newest(start.returned(head), c, max_history);
            },
            None => {},
        }
        assert forall|i: int| 0 <= i < closed.len() implies v.aligned(#[trigger] closed[i]) by {
            if i < start.returned(head).len() {
                assert(closed[i] == start.returned(head)[i]);
                assert(before.aligned(start.returned(head)[i]));
            }
        }
    }
}

/// The open and the close of every candle of a run of trades lie between its low and its high, as
/// long as prices are numbers.
pub proof fn law_candles_stay_in_range(timeframe: Timeframe, max_history: nat, ticks: Seq<Tick>)
    requires
        forall|i: int| 0 <= i < ticks.len() ==> (#[trigger] ticks[i]).price.is_number(),
    ensures
        ({
            let start = fresh_aggregator(timeframe, max_history);
            let closed = start.returned(ticks);
            &&& forall|i: int| 0 <= i < closed.len() ==> within_range(#[trigger] closed[i])
            &&& start.fed(ticks).current matches Some(c) ==> within_range(c)
        }),
    decreases ticks.len(),
{
    let start = fresh_aggregator(timeframe, max_history);
    if ticks.len() > 0 {
        let head = ticks.drop_last();
        assert forall|i: int| 0 <= i < head.len() implies (#[trigger] head[i]).price.is_number() by {
            assert(head[i] == ticks[i]);
        }
        law_candles_stay_in_range(timeframe, max_history, head);
        let t = ticks[ticks.len() - 1];
        let before = start.fed(head);
        assert(t.price.is_number());
        match before.current {
            Some(c) => law_candle_range(c, before.start_of(t.ts), 0, t.price, t.size),
            None => {},
        }
        let closed = start.returned(ticks);
        assert forall|i: int| 0 <= i < closed.len() implies within_range(#[trigger] closed[i]) by {
            if i < start.returned(head).len() {
                assert(closed[i] == start.returned(head)[i]);
            }
        }
    }
}

} // verus!
