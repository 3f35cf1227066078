//! What a market makes of its trades: candles, pivots and the top of its book.

use crate::candle::closed_by;
use crate::candle::fresh_aggregator;
use crate::candle::newest;
use crate::candle::period_start;
use crate::candle::place_of;
use crate::candle::AggregatorView;
use crate::candle::Candle;
use crate::candle::Tick;
use crate::candle::Timeframe;
use crate::instrument::aggregated;
use crate::instrument::detector_place;
use crate::instrument::fresh_instrument;
use crate::instrument::refreshed;
use crate::instrument::scanned;
use crate::instrument::usual_candles;
use crate::instrument::usual_detectors;
use crate::instrument::InstrumentView;
use crate::instrument::TopOfBook;
use crate::number::Real;
use crate::swing::advanced;
use crate::swing::kept_all;
use crate::swing::pivots;
use crate::swing::SwingPoint;
use crate::swing::SwingType;
use crate::swing::SwingView;
use crate::ws_types::BookLevel;
use vstd::prelude::*;

verus! {

/// How many minutes a timeframe lasts, and what it is called.
pub proof fn law_timeframes()
    ensures
        Timeframe::M1.duration_ms() == 60_000,
        Timeframe::M5.duration_ms() == 5 * 60_000,
        Timeframe::M15.duration_ms() == 15 * 60_000,
        Timeframe::H1.duration_ms() == 60 * 60_000,
        Timeframe::H4.duration_ms() == 4 * 60 * 60_000,
        Timeframe::D1.duration_ms() == 24 * 60 * 60_000,
        Timeframe::M1.label_text() == "1m"@,
        Timeframe::M5.label_text() == "5m"@,
        Timeframe::M15.label_text() == "15m"@,
        Timeframe::H1.label_text() == "1h"@,
        Timeframe::H4.label_text() == "4h"@,
        Timeframe::D1.label_text() == "1d"@,
{
}

/// Whether a time falls into the period of a candle.
pub open spec fn in_period(c: Candle, ts: u64) -> bool {
    c.open_time <= ts < c.close_time
}

/// Whether a candle is that of a single trade: its period holds the trade, begins at a multiple of
/// its length, and all its prices are that of the trade.
pub open spec fn single(c: Candle, period: u64, price: Real, size: Real, ts: u64) -> bool {
    &&& in_period(c, ts)
    &&& c.open_time % period == 0
    &&& c.close_time == c.open_time + period
    &&& c.open == price
    &&& c.high == price
    &&& c.low == price
    &&& c.close == price
    &&& c.volume == size
    &&& c.trade_count == 1
}

/// A trade joins the candle of its period, and closes the candle of any other period. Joining, it
/// becomes the close, raises the high and lowers the low where it lies beyond them, and adds its size
/// and one trade. Otherwise it begins a candle of its own.
pub proof fn law_trades_make_candles(v: AggregatorView, price: Real, size: Real, ts: u64)
    requires
        v.wf(),
        v.has_room(ts),
    ensures
        ({
            let w = v.after(price, size, ts);
            let p = v.timeframe.duration_ms();
            &&& w.timeframe == v.timeframe
            &&& w.max_history == v.max_history
            &&& w.current is Some
            &&& v.current is None ==> {
                &&& single(w.current->0, p, price, size, ts)
                &&& v.closes(ts) is None
                &&& w.history == v.history
                &&& w.produced == v.produced
            }
            &&& v.current matches Some(c) ==> {
                let d = w.current->0;
                &&& in_period(c, ts) ==> {
                    &&& v.closes(ts) is None
                    &&& w.history == v.history
                    &&& w.produced == v.produced
                    &&& d.open_time == c.open_time
                    &&& d.close_time == c.close_time
                    &&& d.open == c.open
                    &&& d.close == price
                    &&& d.high == price || d.high == c.high
                    &&& !d.high.lt(price)
                    &&& !d.high.lt(c.high)
                    &&& c.high.is_number() && c.high.rank() == price.rank() ==> d.high == c.high
                    &&& d.low == price || d.low == c.low
                    &&& !price.lt(d.low)
                    &&& !c.low.lt(d.low)
                    &&& c.low.is_number() && c.low.rank() == price.rank() ==> d.low == c.low
                    &&& d.volume == c.volume.plus(size)
                    &&& d.trade_count == c.trade_count + 1
                }
                &&& !in_period(c, ts) ==> {
                    &&& v.closes(ts) == Some(c)
                    &&& single(d, p, price, size, ts)
                    &&& w.produced == v.produced + 1
                    &&& w.history == newest(v.history.push(c), v.max_history)
                }
            }
        }),
{
    let p = v.timeframe.duration_ms() as nat;
    lemma_period(ts as nat, p);
    if let Some(c) = v.current {
        lemma_period(c.open_time as nat, p);
        lemma_same_period(ts as nat, c.open_time as nat, p);
        let w = v.after(price, size, ts);
        if !in_period(c, ts) {
            assert(w.history =~= newest(v.history.push(c), v.max_history));
        }
    }
}

proof fn lemma_period(ts: nat, p: nat)
    requires
        p > 0,
    ensures
        period_start(ts, p) <= ts < period_start(ts, p) + p,
        period_start(ts, p) % p == 0,
{
    vstd::arithmetic::div_mod::lemma_fundamental_div_mod(ts as int, p as int);
    vstd::arithmetic::div_mod::lemma_mod_multiples_basic((ts / p) as int, p as int);
    vstd::arithmetic::mul::lemma_mul_is_commutative((ts / p) as int, p as int);
}

proof fn lemma_same_period(ts: nat, open: nat, p: nat)
    requires
        p > 0,
        open % p == 0,
    ensures
        period_start(ts, p) == open <==> open <= ts < open + p,
{
    lemma_period(ts, p);
    let s = period_start(ts, p);
    if open <= ts < open + p && s != open {
        let (a, b) = ((s / p) as int, (open / p) as int);
        vstd::arithmetic::div_mod::lemma_fundamental_div_mod(s as int, p as int);
        vstd::arithmetic::div_mod::lemma_fundamental_div_mod(open as int, p as int);
        assert(s == p * a && open == p * b);
        assert(false) by (nonlinear_arith)
            requires
                s == p * a,
                open == p * b,
                s != open,
                p > 0,
                -(p as int) < s - open < p,
        ;
    }
}

/// The candle of a run of trades in one period: it opens with the first and closes with the last, no
/// price lies above its high or below its low and both are prices of the run, and it holds the sizes
/// and the number of all.
pub proof fn law_candle_of_a_run(timeframe: Timeframe, room: nat, ticks: Seq<Tick>)
    requires
        0 < ticks.len() <= u64::MAX,
        forall|i: int|
            0 <= i < ticks.len() ==> (#[trigger] ticks[i]).ts / timeframe.duration_ms() == ticks[0].ts
                / timeframe.duration_ms(),
    ensures
        fresh_aggregator(timeframe, room).fed(ticks).current matches Some(c) && {
            &&& c.open == ticks[0].price
            &&& c.close == ticks.last().price
            &&& forall|i: int| 0 <= i < ticks.len() ==> !c.high.lt((#[trigger] ticks[i]).price)
            &&& exists|i: int| 0 <= i < ticks.len() && c.high == (#[trigger] ticks[i]).price
            &&& forall|i: int| 0 <= i < ticks.len() ==> !(#[trigger] ticks[i]).price.lt(c.low)
            &&& exists|i: int| 0 <= i < ticks.len() && c.low == (#[trigger] ticks[i]).price
            &&& c.volume == ticks.skip(1).fold_left(
                ticks[0].size,
                |sum: Real, t: Tick| sum.plus(t.size),
            )
            &&& c.trade_count == ticks.len()
        },
    decreases ticks.len(),
{
    let start = fresh_aggregator(timeframe, room);
    let head = ticks.drop_last();
    let t = ticks.last();
    assert(t == ticks[ticks.len() - 1]);
    let p = timeframe.duration_ms();
    assert(t.ts / p == ticks[0].ts / p);
    let f = |sum: Real, t: Tick| sum.plus(t.size);
    reveal_with_fuel(AggregatorView::fed, 2);
    if head.len() == 0 {
        assert(start.fed(head) == start);
        assert(ticks.skip(1) =~= Seq::<Tick>::empty());
        assert(ticks[0] == t);
        assert(start.fed(ticks).current matches Some(c) && c.open_time == start.start_of(ticks[0].ts));
    } else {
        assert forall|i: int| 0 <= i < head.len() implies (#[trigger] head[i]).ts / p == head[0].ts
            / p by {
            assert(head[i] == ticks[i]);
        }
        law_candle_of_a_run(timeframe, room, head);
        lemma_run_open(timeframe, room, head);
        let c = start.fed(head).current->0;
        assert(ticks.skip(1).drop_last() =~= head.skip(1));
        assert(ticks.skip(1).last() == t);
        let d = start.fed(ticks).current->0;
        assert(d == crate::candle::folded(c, t.price, t.size));
        assert forall|i: int| 0 <= i < ticks.len() implies !d.high.lt((#[trigger] ticks[i]).price)
            && !ticks[i].price.lt(d.low) by {
            if i < head.len() {
                assert(head[i] == ticks[i]);
            }
        }
        let i = choose|i: int| 0 <= i < head.len() && c.high == (#[trigger] head[i]).price;
        assert(head[i] == ticks[i]);
        let j = choose|j: int| 0 <= j < head.len() && c.low == (#[trigger] head[j]).price;
        assert(head[j] == ticks[j]);
    }
}

proof fn lemma_run_open(timeframe: Timeframe, room: nat, ticks: Seq<Tick>)
    requires
        0 < ticks.len(),
        forall|i: int|
            0 <= i < ticks.len() ==> (#[trigger] ticks[i]).ts / timeframe.duration_ms() == ticks[0].ts
                / timeframe.duration_ms(),
    ensures
        fresh_aggregator(timeframe, room).fed(ticks).current matches Some(c) && c.open_time
            == fresh_aggregator(timeframe, room).start_of(ticks[0].ts),
        fresh_aggregator(timeframe, room).fed(ticks).timeframe == timeframe,
    decreases ticks.len(),
{
    let start = fresh_aggregator(timeframe, room);
    let head = ticks.drop_last();
    let p = timeframe.duration_ms();
    reveal_with_fuel(AggregatorView::fed, 2);
    assert(ticks.last() == ticks[ticks.len() - 1]);
    if head.len() == 0 {
        assert(start.fed(head) == start);
    } else {
        assert forall|i: int| 0 <= i < head.len() implies (#[trigger] head[i]).ts / p == head[0].ts
            / p by {
            assert(head[i] == ticks[i]);
        }
        lemma_run_open(timeframe, room, head);
    }
}

/// The newest items of a sequence: as many as asked for or as there are, from its end.
pub proof fn law_newest_items<T>(s: Seq<T>, n: nat)
    ensures
        newest(s, n).len() == if n < s.len() { n } else { s.len() },
        forall|i: int|
            0 <= i < newest(s, n).len() ==> #[trigger] newest(s, n)[i] == s[s.len() - newest(s, n).len()
                + i],
{
}

/// A trade reaches the candles of every timeframe, and the candles that it closes are listed with
/// their timeframes, in the order of the timeframes.
pub proof fn law_every_timeframe_gets_the_trade(
    v: Seq<AggregatorView>,
    a: AggregatorView,
    price: Real,
    size: Real,
    ts: u64,
)
    ensures
        aggregated(v, price, size, ts).len() == v.len(),
        forall|i: int|
            0 <= i < v.len() ==> #[trigger] aggregated(v, price, size, ts)[i] == v[i].after(
                price,
                size,
                ts,
            ),
        closed_by(Seq::empty(), ts) == Seq::<(Timeframe, Candle)>::empty(),
        a.closes(ts) is None ==> closed_by(v.push(a), ts) == closed_by(v, ts),
        a.closes(ts) matches Some(c) ==> closed_by(v.push(a), ts) == closed_by(v, ts).push(
            (a.timeframe, c),
        ),
{
    assert(v.push(a).drop_last() =~= v);
}

/// A timeframe is found at its first place.
pub proof fn law_timeframes_are_found(
    v: Seq<AggregatorView>,
    s: Seq<(Timeframe, SwingView)>,
    timeframe: Timeframe,
)
    ensures
        place_of(v, timeframe) <= v.len(),
        place_of(v, timeframe) < v.len() ==> v[place_of(v, timeframe) as int].timeframe == timeframe,
        forall|i: int| 0 <= i < place_of(v, timeframe) ==> (#[trigger] v[i]).timeframe != timeframe,
        detector_place(s, timeframe) <= s.len(),
        detector_place(s, timeframe) < s.len() ==> s[detector_place(s, timeframe) as int].0 == timeframe,
        forall|i: int| 0 <= i < detector_place(s, timeframe) ==> (#[trigger] s[i]).0 != timeframe,
    decreases v.len() + s.len(),
{
    if v.len() > 0 && s.len() > 0 {
        law_timeframes_are_found(v.skip(1), s.skip(1), timeframe);
    } else if v.len() > 0 {
        law_timeframes_are_found(v.skip(1), s, timeframe);
    } else if s.len() > 0 {
        law_timeframes_are_found(v, s.skip(1), timeframe);
    }
    assert forall|i: int| 0 <= i < place_of(v, timeframe) implies (#[trigger] v[i]).timeframe
        != timeframe by {
        if i > 0 {
            assert(v.skip(1)[i - 1] == v[i]);
        }
    }
    assert forall|i: int| 0 <= i < detector_place(s, timeframe) implies (#[trigger] s[i]).0
        != timeframe by {
        if i > 0 {
            assert(s.skip(1)[i - 1] == s[i]);
        }
    }
}

/// A candle is a high where its high is above those of all its neighbours, and else a low where its
/// low is below those of all of them. Candles are looked at one after the other, each only once.
pub proof fn law_pivots(h: Seq<Candle>, n: nat, cursor: Option<u64>, i: int)
    requires
        n <= i,
    ensures
        pivots(h, n as int, cursor, n as int) == Seq::<SwingPoint>::empty(),
        advanced(h, n as int, cursor, n as int) == cursor,
        ({
            let before = pivots(h, n as int, cursor, i);
            let after = pivots(h, n as int, cursor, i + 1);
            let unseen = cursor is None || cursor->0 < h[i].open_time;
            let high = forall|j: int|
                i - n <= j <= i + n && j != i ==> (#[trigger] h[j]).high.lt(h[i].high);
            let low = forall|j: int|
                i - n <= j <= i + n && j != i ==> h[i].low.lt((#[trigger] h[j]).low);
            &&& unseen && high ==> after == before.push(
                SwingPoint { timestamp: h[i].open_time, price: h[i].high, swing_type: SwingType::High },
            )
            &&& unseen && !high && low ==> after == before.push(
                SwingPoint { timestamp: h[i].open_time, price: h[i].low, swing_type: SwingType::Low },
            )
            &&& !unseen || (!high && !low) ==> after == before
            &&& unseen ==> advanced(h, n as int, cursor, i + 1) == Some(h[i].open_time)
            &&& !unseen ==> advanced(h, n as int, cursor, i + 1) == advanced(h, n as int, cursor, i)
        }),
{
}

/// A detector looks at every candle that has its neighbours on both sides, and keeps the newest of
/// the pivots that it has found.
pub proof fn law_detector(v: SwingView, h: Seq<Candle>)
    requires
        v.wf(),
    ensures
        v.found(h) == pivots(h, v.lookback as int, v.cursor, h.len() - v.lookback),
        v.after(h).lookback == v.lookback,
        v.after(h).max_swings == v.max_swings,
        v.after(h).cursor == advanced(h, v.lookback as int, v.cursor, h.len() - v.lookback),
        v.after(h).confirmed == newest(v.confirmed + v.found(h), v.max_swings),
{
    lemma_kept_newest(v.confirmed, v.found(h), v.max_swings);
}

proof fn lemma_kept_newest(s: Seq<SwingPoint>, xs: Seq<SwingPoint>, cap: nat)
    requires
        s.len() <= cap,
    ensures
        kept_all(s, xs, cap) == newest(s + xs, cap),
    decreases xs.len(),
{
    if xs.len() == 0 {
        assert(s + xs =~= s);
        assert(newest(s, cap) =~= s);
    } else {
        let head = xs.drop_last();
        lemma_kept_newest(s, head, cap);
        assert(s + xs =~= (s + head).push(xs.last()));
        assert(kept_all(s, xs, cap) =~= newest(s + xs, cap));
    }
}

/// A market remembers its last trade and counts all, hands each to its candles, and lets the
/// detector of a timeframe look at the candles of that timeframe when one of them has closed.
pub proof fn law_market_after_a_trade(v: InstrumentView, price: Real, size: Real, side: Seq<char>, ts: u64)
    ensures
        ({
            let w = v.after(price, size, side, ts);
            let s = scanned(v.detectors, w.candles, closed_by(v.candles, ts));
            &&& w.symbol == v.symbol
            &&& w.last_price == price
            &&& w.last_side == side
            &&& w.last_trade_ms == ts
            &&& w.trade_count == v.trade_count + 1
            &&& w.book == v.book
            &&& w.candles == aggregated(v.candles, price, size, ts)
            &&& w.detectors == s.0
            &&& v.swings(price, size, ts) == s.1
        }),
{
}

/// Detectors look at the histories of the timeframes that have closed a candle, one after the other;
/// the detectors of other timeframes see nothing.
pub proof fn law_detectors_follow_closed_candles(
    s: Seq<(Timeframe, SwingView)>,
    candles: Seq<AggregatorView>,
    closed: Seq<(Timeframe, Candle)>,
    next: (Timeframe, Candle),
)
    ensures
        scanned(s, candles, Seq::empty()) == (s, Seq::<(Timeframe, SwingPoint)>::empty()),
        ({
            let (t, found) = scanned(s, candles, closed);
            let (u, all) = scanned(s, candles, closed.push(next));
            let d = detector_place(t, next.0) as int;
            let c = place_of(candles, next.0) as int;
            &&& d < t.len() && c < candles.len() ==> {
                let h = candles[c].history;
                let new = t[d].1.found(h);
                &&& u.len() == t.len()
                &&& u[d] == (t[d].0, t[d].1.after(h))
                &&& forall|i: int| 0 <= i < t.len() && i != d ==> #[trigger] u[i] == t[i]
                &&& all.len() == found.len() + new.len()
                &&& forall|i: int| 0 <= i < found.len() ==> #[trigger] all[i] == found[i]
                &&& forall|i: int|
                    0 <= i < new.len() ==> all[found.len() + i] == (next.0, #[trigger] new[i])
            }
            &&& d >= t.len() || c >= candles.len() ==> u == t && all == found
        }),
{
    assert(closed.push(next).drop_last() =~= closed);
    law_timeframes_are_found(candles, scanned(s, candles, closed).0, next.0);
}

/// The top of the book is the first level of each side. The spread is what the ask costs above the
/// bid, and in hundredths of a percent of the bid; both stay as they were while a side is missing.
pub proof fn law_top_of_book(top: TopOfBook, bids: Seq<BookLevel>, asks: Seq<BookLevel>, ts: u64)
    ensures
        ({
            let r = refreshed(top, bids, asks, ts);
            &&& r.last_update_ms == ts
            &&& bids.len() == 0 ==> r.best_bid is None
            &&& bids.len() > 0 ==> r.best_bid == Some(bids[0])
            &&& asks.len() == 0 ==> r.best_ask is None
            &&& asks.len() > 0 ==> r.best_ask == Some(asks[0])
            &&& bids.len() == 0 || asks.len() == 0 ==> r.spread == top.spread && r.spread_bps
                == top.spread_bps
            &&& bids.len() > 0 && asks.len() > 0 ==> {
                &&& r.spread == asks[0].price.minus(bids[0].price)
                &&& Real::from_u64(0).lt(bids[0].price) ==> r.spread_bps == r.spread.over(
                    bids[0].price,
                ).times(Real::from_u64(10_000))
                &&& !Real::from_u64(0).lt(bids[0].price) ==> r.spread_bps == top.spread_bps
            }
        }),
{
}

/// A market is watched by the minute, the quarter, the hour and four hours, and its pivots by the
/// hour and four hours, with three neighbours on each side.
pub proof fn law_usual_market(symbol: Seq<char>)
    ensures
        ({
            let v = fresh_instrument(symbol, usual_candles(), usual_detectors());
            &&& v.symbol == symbol
            &&& v.trade_count == 0
            &&& v.last_price == Real::from_u64(0)
            &&& v.candles.len() == 4
            &&& v.candles[0] == fresh_aggregator(Timeframe::M1, 500)
            &&& v.candles[1] == fresh_aggregator(Timeframe::M15, 200)
            &&& v.candles[2] == fresh_aggregator(Timeframe::H1, 168)
            &&& v.candles[3] == fresh_aggregator(Timeframe::H4, 180)
            &&& v.detectors.len() == 2
            &&& v.detectors[0].0 == Timeframe::H1
            &&& v.detectors[1].0 == Timeframe::H4
            &&& forall|i: int|
                0 <= i < 2 ==> (#[trigger] v.detectors[i]).1.lookback == 3
                    && v.detectors[i].1.max_swings == 50 && v.detectors[i].1.cursor is None
                    && v.detectors[i].1.confirmed.len() == 0
        }),
{
}

} // verus!
