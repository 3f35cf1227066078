//! The state of one market: last trade, top of book, candles and pivots.

use crate::candle::all_wf;
use crate::candle::closed_by;
use crate::candle::fresh_aggregator;
use crate::candle::place_of;
use crate::candle::summary;
use crate::candle::AggregatorView;
use crate::candle::Candle;
use crate::candle::CandleAggregator;
use crate::candle::MultiTimeframeAggregator;
use crate::candle::Timeframe;
use crate::number::Real;
use crate::swing::SwingDetector;
use crate::swing::SwingPoint;
use crate::swing::SwingView;
use crate::text::decimal;
use crate::text::decimal_text;
use crate::ws_types::BookLevel;
use crate::ws_types::OrderBookUpdate;
use crate::ws_types::TradeUpdate;
use vstd::prelude::*;
use vstd::string::*;

verus! {

/// The best levels of the order book and the gap between them.
#[derive(Debug, Clone, Copy)]
pub struct TopOfBook {
    pub best_bid: Option<BookLevel>,
    pub best_ask: Option<BookLevel>,
    pub spread: Real,
    /// The spread in hundredths of a percent of the bid.
    pub spread_bps: Real,
    pub last_update_ms: u64,
}

/// The first of some levels.
pub open spec fn first_level(levels: Seq<BookLevel>) -> Option<BookLevel> {
    if levels.len() > 0 {
        Some(levels[0])
    } else {
        None
    }
}

/// The top of book after an update. The spread changes only when both sides have a level, its
/// share of the bid only when the bid is also positive.
pub open spec fn refreshed(
    top: TopOfBook,
    bids: Seq<BookLevel>,
    asks: Seq<BookLevel>,
    timestamp_ms: u64,
) -> TopOfBook {
    let bid = first_level(bids);
    let ask = first_level(asks);
    let spread = ask.unwrap().price.minus(bid.unwrap().price);
    let both = bid is Some && ask is Some;
    TopOfBook {
        best_bid: bid,
        best_ask: ask,
        spread: if both { spread } else { top.spread },
        spread_bps: if both && Real::from_u64(0).lt(bid.unwrap().price) {
            spread.over(bid.unwrap().price).times(Real::from_u64(10_000))
        } else {
            top.spread_bps
        },
        last_update_ms: timestamp_ms,
    }
}

/// A top of book that has seen nothing.
pub open spec fn blank_top() -> TopOfBook {
    TopOfBook {
        best_bid: None,
        best_ask: None,
        spread: Real::from_u64(0),
        spread_bps: Real::from_u64(0),
        last_update_ms: 0,
    }
}

impl TopOfBook {
    fn new() -> (r: Self)
        ensures
            r == blank_top(),
    {
        TopOfBook {
            best_bid: None,
            best_ask: None,
            spread: Real::from_u64(0),
            spread_bps: Real::from_u64(0),
            last_update_ms: 0,
        }
    }

    fn update(&mut self, book: &OrderBookUpdate)
        ensures
            *final(self) == refreshed(*old(self), book.bids@, book.asks@, book.timestamp_ms),
    {
        self.best_bid = if book.bids.len() > 0 { Some(book.bids[0]) } else { None };
        self.best_ask = if book.asks.len() > 0 { Some(book.asks[0]) } else { None };
        self.last_update_ms = book.timestamp_ms;
        if let (Some(bid), Some(ask)) = (self.best_bid, self.best_ask) {
            self.spread = ask.price.minus(bid.price);
            if Real::from_u64(0).lt(bid.price) {
                self.spread_bps = self.spread.over(bid.price).times(Real::from_u64(10_000));
            }
        }
    }
}

/// What one trade brought about.
pub struct IngestOutcome {
    pub closed_candles: Vec<(Timeframe, Candle)>,
    pub new_swings: Vec<(Timeframe, SwingPoint)>,
}

/// The first place of a timeframe's detector; the length when it has none.
pub open spec fn detector_place(s: Seq<(Timeframe, SwingView)>, timeframe: Timeframe) -> nat
    decreases s.len(),
{
    if s.len() == 0 {
        0
    } else if s[0].0 == timeframe {
        0
    } else {
        1 + detector_place(s.skip(1), timeframe)
    }
}

/// Pivots with the timeframe that they are of.
pub open spec fn labelled(timeframe: Timeframe, points: Seq<SwingPoint>) -> Seq<(Timeframe, SwingPoint)> {
    Seq::new(points.len(), |i: int| (timeframe, points[i]))
}

/// The detectors after the candles of some timeframes were closed, and the pivots that they
/// found: each detector of such a timeframe scans the history of that timeframe.
pub open spec fn scanned(
    s: Seq<(Timeframe, SwingView)>,
    candles: Seq<AggregatorView>,
    closed: Seq<(Timeframe, Candle)>,
) -> (Seq<(Timeframe, SwingView)>, Seq<(Timeframe, SwingPoint)>)
    decreases closed.len(),
{
    if closed.len() == 0 {
        (s, Seq::empty())
    } else {
        let (t, found) = scanned(s, candles, closed.drop_last());
        let timeframe = closed.last().0;
        let d = detector_place(t, timeframe);
        let c = place_of(candles, timeframe);
        if d < t.len() && c < candles.len() {
            let history = candles[c as int].history;
            let v = t[d as int].1;
            (
                t.update(d as int, (t[d as int].0, v.after(history))),
                found + labelled(timeframe, v.found(history)),
            )
        } else {
            (t, found)
        }
    }
}

/// The candles after a trade.
pub open spec fn aggregated(
    candles: Seq<AggregatorView>,
    price: Real,
    size: Real,
    ts: u64,
) -> Seq<AggregatorView> {
    Seq::new(candles.len(), |i: int| candles[i].after(price, size, ts))
}

/// Whether the periods of all candles that a time falls into end within 64 bits.
pub open spec fn time_fits(candles: Seq<AggregatorView>, ts: u64) -> bool {
    forall|i: int|
        0 <= i < candles.len() ==> (#[trigger] candles[i]).start_of(ts) + candles[i].timeframe.duration_ms()
            <= u64::MAX
}

/// The state of an instrument.
pub struct InstrumentView {
    pub symbol: Seq<char>,
    pub last_price: Real,
    pub last_side: Seq<char>,
    pub last_trade_ms: u64,
    pub trade_count: nat,
    pub book: TopOfBook,
    pub candles: Seq<AggregatorView>,
    pub detectors: Seq<(Timeframe, SwingView)>,
}

impl InstrumentView {
    pub open spec fn wf(self) -> bool {
        &&& all_wf(self.candles)
        &&& forall|i: int| 0 <= i < self.candles.len() ==> (#[trigger] self.candles[i]).load() <= self.trade_count
        &&& forall|i: int| 0 <= i < self.detectors.len() ==> (#[trigger] self.detectors[i]).1.wf()
    }

    /// Whether a trade at a time can be taken in: the count of trades and the ends of the
    /// periods have to fit into 64 bits.
    pub open spec fn has_room(self, ts: u64) -> bool {
        self.trade_count < u64::MAX && time_fits(self.candles, ts)
    }

    /// The state after a trade.
    pub open spec fn after(self, price: Real, size: Real, side: Seq<char>, ts: u64) -> InstrumentView {
        let candles = aggregated(self.candles, price, size, ts);
        InstrumentView {
            last_price: price,
            last_side: side,
            last_trade_ms: ts,
            trade_count: self.trade_count + 1,
            candles,
            detectors: scanned(self.detectors, candles, closed_by(self.candles, ts)).0,
            ..self
        }
    }

    /// The pivots that a trade confirms.
    pub open spec fn swings(self, price: Real, size: Real, ts: u64) -> Seq<(Timeframe, SwingPoint)> {
        scanned(
            self.detectors,
            aggregated(self.candles, price, size, ts),
            closed_by(self.candles, ts),
        ).1
    }

    /// The aggregator of a timeframe.
    pub open spec fn candles_of(self, timeframe: Timeframe) -> Option<AggregatorView> {
        let i = place_of(self.candles, timeframe);
        if i < self.candles.len() {
            Some(self.candles[i as int])
        } else {
            None
        }
    }

    /// The detector of a timeframe.
    pub open spec fn detector_of(self, timeframe: Timeframe) -> Option<SwingView> {
        let i = detector_place(self.detectors, timeframe);
        if i < self.detectors.len() {
            Some(self.detectors[i as int].1)
        } else {
            None
        }
    }
}

/// The state of an instrument that has seen nothing.
pub open spec fn fresh_instrument(
    symbol: Seq<char>,
    candles: Seq<AggregatorView>,
    detectors: Seq<(Timeframe, SwingView)>,
) -> InstrumentView {
    InstrumentView {
        symbol,
        last_price: Real::from_u64(0),
        last_side: Seq::empty(),
        last_trade_ms: 0,
        trade_count: 0,
        book: blank_top(),
        candles,
        detectors,
    }
}

/// A detector that has seen nothing.
pub open spec fn fresh_detector(lookback: nat, max_swings: nat) -> SwingView {
    SwingView { lookback, confirmed: Seq::empty(), max_swings, cursor: None }
}

/// The usual candles: 500 of a minute, 200 of a quarter, 168 of an hour, 180 of four hours.
pub open spec fn usual_candles() -> Seq<AggregatorView> {
    seq![
        fresh_aggregator(Timeframe::M1, 500),
        fresh_aggregator(Timeframe::M15, 200),
        fresh_aggregator(Timeframe::H1, 168),
        fresh_aggregator(Timeframe::H4, 180),
    ]
}

/// The usual detectors: hourly and four-hourly, three neighbours, the newest 50 pivots.
pub open spec fn usual_detectors() -> Seq<(Timeframe, SwingView)> {
    seq![(Timeframe::H1, fresh_detector(3, 50)), (Timeframe::H4, fresh_detector(3, 50))]
}

/// How many pivots each detector keeps, separated by bars.
pub open spec fn swing_summary(s: Seq<(Timeframe, SwingView)>) -> Seq<char>
    decreases s.len(),
{
    if s.len() == 0 {
        Seq::empty()
    } else {
        let item = s.last().0.label_text() + ":"@ + decimal(s.last().1.confirmed.len()) + "swings"@;
        if s.len() == 1 {
            item
        } else {
            swing_summary(s.drop_last()) + " | "@ + item
        }
    }
}

/// One market.
pub struct Instrument {
    pub symbol: String,
    pub last_price: Real,
    pub last_side: String,
    pub last_trade_ms: u64,
    pub trade_count: u64,
    pub book: TopOfBook,
    candles: MultiTimeframeAggregator,
    swing_detectors: Vec<(Timeframe, SwingDetector)>,
}

impl View for Instrument {
    type V = InstrumentView;

    closed spec fn view(&self) -> InstrumentView {
        InstrumentView {
            symbol: self.symbol@,
            last_price: self.last_price,
            last_side: self.last_side@,
            last_trade_ms: self.last_trade_ms,
            trade_count: self.trade_count as nat,
            book: self.book,
            candles: self.candles@,
            detectors: detector_views(self.swing_detectors@),
        }
    }
}

/// The states of some detectors.
pub open spec fn detector_views(s: Seq<(Timeframe, SwingDetector)>) -> Seq<(Timeframe, SwingView)> {
    Seq::new(s.len(), |i: int| (s[i].0, s[i].1@))
}

impl Instrument {
    /// A market with the usual candles and detectors.
    pub fn new(symbol: &str) -> (r: Self)
        ensures
            r@ == fresh_instrument(symbol@, usual_candles(), usual_detectors()),
            r@.wf(),
    {
        let mut configs: Vec<(Timeframe, usize)> = Vec::new();
        configs.push((Timeframe::M1, 500));
        configs.push((Timeframe::M15, 200));
        configs.push((Timeframe::H1, 168));
        configs.push((Timeframe::H4, 180));
        let mut swing_configs: Vec<(Timeframe, usize, usize)> = Vec::new();
        swing_configs.push((Timeframe::H1, 3, 50));
        swing_configs.push((Timeframe::H4, 3, 50));
        let r = Self::with_config(symbol, configs, swing_configs);
        proof {
            assert(r@.candles =~= usual_candles());
            assert(r@.detectors =~= usual_detectors());
        }
        r
    }

    /// A market with the given candles and detectors.
    pub fn with_config(
        symbol: &str,
        candle_configs: Vec<(Timeframe, usize)>,
        swing_configs: Vec<(Timeframe, usize, usize)>,
    ) -> (r: Self)
        requires
            forall|i: int| 0 <= i < swing_configs@.len() ==> (#[trigger] swing_configs@[i]).1 > 0,
        ensures
            r@ == fresh_instrument(
                symbol@,
                Seq::new(
                    candle_configs@.len(),
                    |i: int| fresh_aggregator(candle_configs@[i].0, candle_configs@[i].1 as nat),
                ),
                Seq::new(
                    swing_configs@.len(),
                    |i: int|
                        (
                            swing_configs@[i].0,
                            fresh_detector(swing_configs@[i].1 as nat, swing_configs@[i].2 as nat),
                        ),
                ),
            ),
            r@.wf(),
    {
        let mut detectors: Vec<(Timeframe, SwingDetector)> = Vec::new();
        let mut i: usize = 0;
        while i < swing_configs.len()
            invariant
                i <= swing_configs@.len(),
                forall|k: int| 0 <= k < swing_configs@.len() ==> (#[trigger] swing_configs@[k]).1 > 0,
                detectors@.len() == i,
                forall|k: int|
                    0 <= k < i ==> (#[trigger] detectors@[k]).0 == swing_configs@[k].0 && detectors@[k].1@
                        == fresh_detector(swing_configs@[k].1 as nat, swing_configs@[k].2 as nat),
            decreases swing_configs@.len() - i,
        {
            let (timeframe, lookback, max_swings) = swing_configs[i];
            detectors.push((timeframe, SwingDetector::new(lookback, max_swings)));
            i = i + 1;
        }
        let r = Instrument {
            symbol: symbol.to_owned(),
            last_price: Real::from_u64(0),
            last_side: String::new(),
            last_trade_ms: 0,
            trade_count: 0,
            book: TopOfBook::new(),
            candles: MultiTimeframeAggregator::new(candle_configs),
            swing_detectors: detectors,
        };
        proof {
            assert(r@.detectors =~= Seq::new(
                swing_configs@.len(),
                |k: int|
                    (
                        swing_configs@[k].0,
                        fresh_detector(swing_configs@[k].1 as nat, swing_configs@[k].2 as nat),
                    ),
            ));
            assert forall|k: int| 0 <= k < r@.detectors.len() implies (#[trigger] r@.detectors[k]).1.wf() by {
                assert(swing_configs@[k].1 > 0);
            }
        }
        r
    }

    /// Whether a trade at a time can be taken in.
    pub fn accepts(&self, timestamp_ms: u64) -> (r: bool)
        requires
            self@.wf(),
        ensures
            r == self@.has_room(timestamp_ms),
    {
        let r: bool = self.trade_count < u64::MAX && self.candles.accepts(timestamp_ms);
        proof {
            if r {
                assert forall|i: int| 0 <= i < self@.candles.len() implies (#[trigger] self@.candles[i]).start_of(
                    timestamp_ms,
                ) + self@.candles[i].timeframe.duration_ms() <= u64::MAX by {
                    assert(self@.candles[i].has_room(timestamp_ms));
                }
            } else if self@.has_room(timestamp_ms) {
                assert forall|i: int| 0 <= i < self@.candles.len() implies (#[trigger] self@.candles[i]).has_room(
                    timestamp_ms,
                ) by {
                    assert(self@.candles[i].load() <= self@.trade_count);
                }
            }
        }
        r
    }

    /// How many trades have been taken in.
    pub fn trades_seen(&self) -> (r: u64)
        ensures
            r == self@.trade_count,
    {
        self.trade_count
    }

    fn find_detector(&self, timeframe: Timeframe) -> (r: usize)
        ensures
            r == detector_place(detector_views(self.swing_detectors@), timeframe),
            r <= self.swing_detectors@.len(),
    {
        let n: usize = self.swing_detectors.len();
        let ghost v = detector_views(self.swing_detectors@);
        let mut i: usize = 0;
        proof {
            assert(v.skip(0) =~= v);
        }
        while i < n && self.swing_detectors[i].0 != timeframe
            invariant
                i <= n,
                n == self.swing_detectors@.len(),
                v == detector_views(self.swing_detectors@),
                detector_place(v, timeframe) == i + detector_place(v.skip(i as int), timeframe),
            decreases n - i,
        {
            proof {
                assert(v.skip(i as int).skip(1) =~= v.skip(i + 1));
                assert(v.skip(i as int)[0] == v[i as int]);
            }
            i = i + 1;
        }
        proof {
            if i < n {
                assert(v.skip(i as int)[0] == v[i as int]);
            } else {
                assert(v.skip(i as int).len() == 0);
            }
        }
        i
    }

    /// Takes a trade in. Returns the candles that it closed and the pivots that it confirmed.
    pub fn update_from_trade(&mut self, trade: &TradeUpdate) -> (r: IngestOutcome)
        requires
            old(self)@.wf(),
            old(self)@.has_room(trade.timestamp_ms),
        ensures
            final(self)@ == old(self)@.after(trade.price, trade.size, trade.side@, trade.timestamp_ms),
            r.closed_candles@ == closed_by(old(self)@.candles, trade.timestamp_ms),
            r.new_swings@ == old(self)@.swings(trade.price, trade.size, trade.timestamp_ms),
            final(self)@.wf(),
    {
        let ghost before = self@;
        let ghost ts = trade.timestamp_ms;
        proof {
            assert forall|i: int| 0 <= i < before.candles.len() implies (#[trigger] before.candles[i]).has_room(
                ts,
            ) by {
                assert(before.candles[i].load() <= before.trade_count);
            }
        }
        self.last_price = trade.price;
        self.last_side = trade.side.clone();
        self.last_trade_ms = trade.timestamp_ms;
        self.trade_count = self.trade_count + 1;
        let closed_candles: Vec<(Timeframe, Candle)> = self.candles.update(trade);
        let ghost candles = self.candles@;
        proof {
            assert(candles =~= aggregated(before.candles, trade.price, trade.size, ts));
        }
        let mut new_swings: Vec<(Timeframe, SwingPoint)> = Vec::new();
        let mut i: usize = 0;
        let ghost start = detector_views(self.swing_detectors@);
        proof {
            assert forall|k: int| 0 <= k < self.swing_detectors@.len() implies (
            #[trigger] self.swing_detectors@[k]).1@.wf() by {
                assert(before.detectors[k].1.wf());
            }
        }
        while i < closed_candles.len()
            invariant
                i <= closed_candles@.len(),
                self.candles@ == candles,
                self.symbol@ == before.symbol,
                self.last_price == trade.price,
                self.last_side@ == trade.side@,
                self.last_trade_ms == trade.timestamp_ms,
                self.trade_count == before.trade_count + 1,
                self.book == before.book,
                start == before.detectors,
                (detector_views(self.swing_detectors@), new_swings@) == scanned(
                    start,
                    candles,
                    closed_candles@.take(i as int),
                ),
                forall|k: int|
                    0 <= k < self.swing_detectors@.len() ==> (#[trigger] self.swing_detectors@[k]).1@.wf(),
            decreases closed_candles@.len() - i,
        {
            let timeframe: Timeframe = closed_candles[i].0;
            let ghost held = detector_views(self.swing_detectors@);
            proof {
                let t = closed_candles@.take(i + 1);
                assert(t.drop_last() =~= closed_candles@.take(i as int));
                assert(t.last() == closed_candles@[i as int]);
            }
            let d: usize = self.find_detector(timeframe);
            if d < self.swing_detectors.len() {
                if let Some(agg) = self.candles.get(timeframe) {
                    let found: Vec<SwingPoint> = self.swing_detectors[d].1.update(agg.history());
                    let ghost fresh = labelled(timeframe, found@);
                    let ghost so_far = new_swings@;
                    let mut j: usize = 0;
                    while j < found.len()
                        invariant
                            j <= found@.len(),
                            fresh == labelled(timeframe, found@),
                            new_swings@ == so_far + fresh.take(j as int),
                        decreases found@.len() - j,
                    {
                        new_swings.push((timeframe, found[j]));
                        j = j + 1;
                        proof {
                            assert(fresh.take(j as int) =~= fresh.take(j - 1).push(fresh[j - 1]));
                            assert(so_far + fresh.take(j as int) =~= (so_far + fresh.take(j - 1)).push(
                                fresh[j - 1],
                            ));
                        }
                    }
                    proof {
                        assert(fresh.take(j as int) =~= fresh);
                        let history = candles[place_of(candles, timeframe) as int].history;
                        assert(detector_views(self.swing_detectors@) =~= held.update(
                            d as int,
                            (held[d as int].0, held[d as int].1.after(history)),
                        ));
                    }
                }
            }
            i = i + 1;
        }
        proof {
            assert(closed_candles@.take(i as int) =~= closed_candles@);
            assert(self@ == before.after(trade.price, trade.size, trade.side@, ts));
            assert forall|k: int| 0 <= k < self@.detectors.len() implies (#[trigger] self@.detectors[k]).1.wf() by {
                assert(self.swing_detectors@[k].1@.wf());
            }
            assert forall|k: int| 0 <= k < self@.candles.len() implies (#[trigger] self@.candles[k]).load()
                <= self@.trade_count by {
                assert(before.candles[k].load() <= before.trade_count);
                assert(candles[k].load() <= before.candles[k].load() + 1);
            }
        }
        IngestOutcome { closed_candles, new_swings }
    }

    /// Takes a book update in.
    pub fn update_from_book(&mut self, book: &OrderBookUpdate)
        ensures
            final(self)@ == (InstrumentView {
                book: refreshed(old(self)@.book, book.bids@, book.asks@, book.timestamp_ms),
                ..old(self)@
            }),
    {
        self.book.update(book);
    }

    /// The aggregator of a timeframe.
    pub fn candle_agg(&self, timeframe: Timeframe) -> (r: Option<&CandleAggregator>)
        ensures
            match r {
                Some(a) => self@.candles_of(timeframe) == Some(a@),
                None => self@.candles_of(timeframe) is None,
            },
    {
        self.candles.get(timeframe)
    }

    /// The candle of a timeframe that is being built.
    pub fn current_candle(&self, timeframe: Timeframe) -> (r: Option<&Candle>)
        ensures
            match r {
                Some(c) => self@.candles_of(timeframe) matches Some(a) && a.current == Some(*c),
                None => self@.candles_of(timeframe) matches Some(a) ==> a.current is None,
            },
    {
        match self.candles.get(timeframe) {
            Some(a) => a.current(),
            None => None,
        }
    }

    /// The newest closed candle of a timeframe.
    pub fn last_candle(&self, timeframe: Timeframe) -> (r: Option<&Candle>)
        ensures
            match r {
                Some(c) => self@.candles_of(timeframe) matches Some(a) && a.history.len() > 0 && a.history.last()
                    == *c,
                None => self@.candles_of(timeframe) matches Some(a) ==> a.history.len() == 0,
            },
    {
        match self.candles.get(timeframe) {
            Some(a) => a.last_closed(),
            None => None,
        }
    }

    /// Whether a timeframe has at least `min_candles` closed candles.
    pub fn is_warmed_up(&self, timeframe: Timeframe, min_candles: usize) -> (r: bool)
        ensures
            r == (self@.candles_of(timeframe) matches Some(a) && a.history.len() >= min_candles),
    {
        match self.candles.get(timeframe) {
            Some(a) => a.is_warmed_up(min_candles),
            None => false,
        }
    }

    /// The fills of the candle histories.
    pub fn candle_status(&self) -> (s: String)
        ensures
            s@ == summary(self@.candles),
    {
        self.candles.status_summary()
    }

    /// The detector of a timeframe.
    pub fn swing_detector(&self, timeframe: Timeframe) -> (r: Option<&SwingDetector>)
        ensures
            match r {
                Some(d) => self@.detector_of(timeframe) == Some(d@),
                None => self@.detector_of(timeframe) is None,
            },
    {
        let i: usize = self.find_detector(timeframe);
        if i < self.swing_detectors.len() {
            Some(&self.swing_detectors[i].1)
        } else {
            None
        }
    }

    /// How many pivots each detector keeps.
    pub fn swing_status(&self) -> (s: String)
        ensures
            s@ == swing_summary(self@.detectors),
    {
        let mut s = String::new();
        let n: usize = self.swing_detectors.len();
        let ghost v = self@.detectors;
        let mut i: usize = 0;
        while i < n
            invariant
                i <= n,
                n == self.swing_detectors@.len(),
                v == detector_views(self.swing_detectors@),
                s@ == swing_summary(v.take(i as int)),
            decreases n - i,
        {
            if i > 0 {
                s.append(" | ");
            }
            s.append(self.swing_detectors[i].0.label());
            s.append(":");
            s.append(decimal_text(self.swing_detectors[i].1.len() as u64).as_str());
            s.append("swings");
            proof {
                let t = v.take(i + 1);
                let x = v[i as int];
                let item = x.0.label_text() + ":"@ + decimal(x.1.confirmed.len()) + "swings"@;
                assert(t.drop_last() =~= v.take(i as int));
                assert(t.last() == x);
                let head = if i > 0 { swing_summary(v.take(i as int)) + " | "@ } else { Seq::<char>::empty() };
                assert(s@ =~= head + item);
                assert(Seq::<char>::empty() + item =~= item);
            }
            i = i + 1;
        }
        proof {
            assert(v.take(n as int) =~= v);
        }
        s
    }
}

} // verus!
