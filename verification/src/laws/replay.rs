//! What a replay does with recorded trades and books.

use crate::abc_brc::abcd_in;
use crate::abc_brc::AbcdPattern;
use crate::backtest::golden_signal;
use crate::backtest::law_strategy_step;
use crate::backtest::merged;
use crate::backtest::missing;
use crate::backtest::sniper_signal;
use crate::backtest::strategy_on;
use crate::backtest::strategy_steps;
use crate::backtest::BacktestEvent;
use crate::backtest::EngineView;
use crate::backtest::FillMode;
use crate::backtest::MissingData;
use crate::candle::Timeframe;
use crate::fibonacci::law_ladder_steps;
use crate::instrument::InstrumentView;
use crate::ladder::BookSnapshot;
use crate::laws::account::nothing_on;
use crate::number::Real;
use crate::order::fraction;
use crate::portfolio::OpenPosition;
use crate::portfolio::PortfolioView;
use crate::risk::signal_of;
use crate::risk::EntryZone;
use crate::risk::RejectionReason;
use crate::risk::RiskParams;
use crate::risk::TradeSignal;
use crate::swing::SwingPoint;
use crate::ws_types::TradeUpdate;
use vstd::prelude::*;

verus! {

/// Whether an account differs from another by new entries alone, none of which has any fill.
pub open spec fn only_new_entries(v: PortfolioView, w: PortfolioView) -> bool {
    &&& w.starting_equity == v.starting_equity
    &&& w.equity == v.equity
    &&& w.completed == v.completed
    &&& w.book == v.book
    &&& w.active.len() >= v.active.len()
    &&& forall|i: int| 0 <= i < v.active.len() ==> #[trigger] w.active[i] == v.active[i]
    &&& forall|i: int|
        v.active.len() <= i < w.active.len() ==> (#[trigger] w.active[i]).fill_time_ms is None
            && w.active[i].filled_contracts == 0
}

proof fn lemma_strategy_adds(
    v: PortfolioView,
    instrument: InstrumentView,
    swings: Seq<(Timeframe, SwingPoint)>,
    params: RiskParams,
    ms: u64,
)
    ensures
        only_new_entries(v, strategy_steps(v, instrument, swings, params, ms)),
{
    law_strategy_step(v, instrument, swings, params, ms);
    let w = strategy_steps(v, instrument, swings, params, ms);
    assert forall|i: int| 0 <= i < v.active.len() implies #[trigger] w.active[i] == v.active[i] by {
        assert(v.active == w.active.subrange(0, v.active.len() as int));
    }
}

/// In a replay along the books, a trade meets the book that came last before it: the account is what
/// the tick makes of it along that book, and then the strategy adds entries. A book only becomes the
/// book and fills what is partly filled.
pub proof fn law_trades_meet_the_newest_book(e: EngineView, t: TradeUpdate, b: BookSnapshot)
    ensures
        ({
            let w = e.after_event(BacktestEvent::Trade(t));
            let met = e.portfolio.after_tick_on_book(t.price, t.timestamp_ms);
            &&& only_new_entries(met, w.portfolio)
            &&& w.portfolio.book == met.book
            &&& w.last_price == t.price
            &&& w.last_tick_ts == t.timestamp_ms
            &&& w.params == e.params
            &&& w.config == e.config
            &&& w.instrument == e.instrument.after(t.price, t.size, t.side@, t.timestamp_ms)
        }),
        ({
            let w = e.after_event(BacktestEvent::Book(b));
            &&& w.portfolio == e.portfolio.after_book(b)
            &&& w.portfolio.book == b
            &&& w.last_price == e.last_price
            &&& w.last_tick_ts == b.timestamp_ms
            &&& w.params == e.params
            &&& w.config == e.config
            &&& w.instrument == e.instrument
        }),
{
    let met = e.portfolio.after_tick_on_book(t.price, t.timestamp_ms);
    lemma_strategy_adds(
        met,
        e.instrument.after(t.price, t.size, t.side@, t.timestamp_ms),
        e.instrument.swings(t.price, t.size, t.timestamp_ms),
        e.params,
        t.timestamp_ms,
    );
}

/// In a replay without books, a trade fills what it comes to at once and at the price of the order,
/// and then the strategy adds entries.
pub proof fn law_trades_fill_at_once(e: EngineView, trades: Seq<TradeUpdate>, t: TradeUpdate)
    ensures
        e.after_trades(Seq::empty()) == e,
        ({
            let v = e.after_trades(trades);
            let w = e.after_trades(trades.push(t));
            &&& only_new_entries(v.portfolio.after_tick(t.price, t.timestamp_ms), w.portfolio)
            &&& w.last_price == t.price
            &&& w.last_tick_ts == t.timestamp_ms
            &&& w.params == v.params
            &&& w.config == v.config
            &&& w.instrument == v.instrument.after(t.price, t.size, t.side@, t.timestamp_ms)
        }),
{
    let v = e.after_trades(trades);
    assert(trades.push(t).drop_last() =~= trades);
    lemma_strategy_adds(
        v.portfolio.after_tick(t.price, t.timestamp_ms),
        v.instrument.after(t.price, t.size, t.side@, t.timestamp_ms),
        v.instrument.swings(t.price, t.size, t.timestamp_ms),
        v.params,
        t.timestamp_ms,
    );
}

/// A replay takes the events one after the other, and ends with what is left at the last price and
/// the time of the last event. Along the books these are the trades and the books by time, a book
/// before a trade of the same time; without books they are the trades alone.
pub proof fn law_replay_runs_to_the_end(
    e: EngineView,
    trades: Seq<TradeUpdate>,
    books: Seq<BookSnapshot>,
    events: Seq<BacktestEvent>,
    next: BacktestEvent,
)
    ensures
        e.after_events(Seq::empty()) == e,
        e.after_events(events.push(next)) == e.after_events(events).after_event(next),
        ({
            let start = EngineView { last_price: Real::from_u64(0), ..e };
            let s = if e.config.fill_mode is Ladder {
                start.after_events(merged(trades, books))
            } else {
                start.after_trades(trades)
            };
            e.replayed(trades, books) == (EngineView {
                portfolio: s.portfolio.at_end(s.last_price, s.last_tick_ts),
                ..s
            })
        }),
        merged(Seq::empty(), Seq::empty()) == Seq::<BacktestEvent>::empty(),
        books.len() > 0 && (trades.len() == 0 || books[0].timestamp_ms <= trades[0].timestamp_ms)
            ==> merged(trades, books)[0] == BacktestEvent::Book(books[0]) && merged(trades, books).skip(
            1,
        ) == merged(trades, books.skip(1)),
        trades.len() > 0 && (books.len() == 0 || trades[0].timestamp_ms < books[0].timestamp_ms)
            ==> merged(trades, books)[0] == BacktestEvent::Trade(trades[0]) && merged(
            trades,
            books,
        ).skip(1) == merged(trades.skip(1), books),
{
    assert(events.push(next).drop_last() =~= events);
    if books.len() > 0 && (trades.len() == 0 || books[0].timestamp_ms <= trades[0].timestamp_ms) {
        assert(merged(trades, books).skip(1) =~= merged(trades, books.skip(1)));
    } else if trades.len() > 0 {
        assert(merged(trades, books).skip(1) =~= merged(trades.skip(1), books));
    }
}

/// Along a book without any size nothing is filled and nothing leaves: a whole replay along books in
/// which no book comes makes no trade, and what it enters is dropped at the end.
pub proof fn law_no_fills_without_a_book(e: EngineView, trades: Seq<TradeUpdate>)
    requires
        e.config.fill_mode is Ladder,
        nothing_on(e.portfolio.book),
        forall|i: int|
            0 <= i < e.portfolio.active.len() ==> (#[trigger] e.portfolio.active[i]).fill_time_ms is None
                && e.portfolio.active[i].filled_contracts == 0,
    ensures
        ({
            let w = e.replayed(trades, Seq::empty());
            &&& w.portfolio.completed == e.portfolio.completed
            &&& w.portfolio.equity == e.portfolio.equity
            &&& w.portfolio.active.len() == 0
        }),
{
    let start = EngineView { last_price: Real::from_u64(0), ..e };
    let events = merged(trades, Seq::empty());
    lemma_trades_only(trades);
    lemma_nothing_happens(start, events);
    let s = start.after_events(events);
    crate::portfolio::law_untouched_entries_are_dropped(s.portfolio, s.last_price, s.last_tick_ts);
    lemma_drop_all(
        PortfolioView { active: Seq::empty(), ..s.portfolio },
        s.portfolio.active,
        s.last_price,
        s.last_tick_ts,
    );
}

proof fn lemma_drop_all(v: PortfolioView, rest: Seq<OpenPosition>, price: Real, ms: u64)
    requires
        forall|i: int|
            0 <= i < rest.len() ==> (#[trigger] rest[i]).fill_time_ms is None
                && rest[i].filled_contracts == 0,
    ensures
        v.ending(rest, price, ms) == v,
    decreases rest.len(),
{
    if rest.len() > 0 {
        let t = rest.skip(1);
        assert(rest[0].fill_time_ms is None);
        assert forall|i: int| 0 <= i < t.len() implies (#[trigger] t[i]).fill_time_ms is None
            && t[i].filled_contracts == 0 by {
            assert(t[i] == rest[i + 1]);
        }
        lemma_drop_all(v, t, price, ms);
    }
}

proof fn lemma_trades_only(trades: Seq<TradeUpdate>)
    ensures
        forall|i: int|
            0 <= i < merged(trades, Seq::empty()).len() ==> (#[trigger] merged(
                trades,
                Seq::empty(),
            )[i]) is Trade,
    decreases trades.len(),
{
    if trades.len() > 0 {
        let rest = merged(trades.skip(1), Seq::empty());
        lemma_trades_only(trades.skip(1));
        assert forall|i: int| 0 <= i < merged(trades, Seq::empty()).len() implies (#[trigger] merged(
            trades,
            Seq::empty(),
        )[i]) is Trade by {
            if i > 0 {
                assert(merged(trades, Seq::empty())[i] == rest[i - 1]);
            }
        }
    }
}

proof fn lemma_nothing_happens(e: EngineView, events: Seq<BacktestEvent>)
    requires
        nothing_on(e.portfolio.book),
        forall|i: int| 0 <= i < events.len() ==> (#[trigger] events[i]) is Trade,
        forall|i: int|
            0 <= i < e.portfolio.active.len() ==> (#[trigger] e.portfolio.active[i]).fill_time_ms is None
                && e.portfolio.active[i].filled_contracts == 0,
    ensures
        only_new_entries(e.portfolio, e.after_events(events).portfolio),
        forall|i: int|
            0 <= i < e.after_events(events).portfolio.active.len() ==> (
            #[trigger] e.after_events(events).portfolio.active[i]).fill_time_ms is None
                && e.after_events(events).portfolio.active[i].filled_contracts == 0,
    decreases events.len(),
{
    if events.len() > 0 {
        let head = events.drop_last();
        assert forall|i: int| 0 <= i < head.len() implies (#[trigger] head[i]) is Trade by {
            assert(head[i] == events[i]);
        }
        lemma_nothing_happens(e, head);
        assert(events.last() == events[events.len() - 1]);
        let v = e.after_events(head);
        if let BacktestEvent::Trade(t) = events.last() {
            law_trades_meet_the_newest_book(v, t, v.portfolio.book);
            lemma_still_all(
                PortfolioView { active: Seq::empty(), ..v.portfolio },
                v.portfolio.active,
                t.price,
                t.timestamp_ms,
            );
            let met = v.portfolio.after_tick_on_book(t.price, t.timestamp_ms);
            assert(Seq::<OpenPosition>::empty() + v.portfolio.active =~= v.portfolio.active);
            assert(met == v.portfolio);
            let w = e.after_events(events).portfolio;
            assert forall|i: int| 0 <= i < w.active.len() implies (#[trigger] w.active[i]).fill_time_ms is None
                && w.active[i].filled_contracts == 0 by {
                if i < v.portfolio.active.len() {
                    assert(w.active[i] == v.portfolio.active[i]);
                }
            }
            assert forall|i: int| 0 <= i < e.portfolio.active.len() implies #[trigger] w.active[i]
                == e.portfolio.active[i] by {
                assert(v.portfolio.active[i] == e.portfolio.active[i]);
                assert(w.active[i] == v.portfolio.active[i]);
            }
        }
    }
}

proof fn lemma_still_all(v: PortfolioView, rest: Seq<OpenPosition>, price: Real, ms: u64)
    requires
        nothing_on(v.book),
    ensures
        v.walking(rest, price, ms) == (PortfolioView { active: v.active + rest, ..v }),
    decreases rest.len(),
{
    if rest.len() == 0 {
        assert(v.active + rest =~= v.active);
    } else {
        assert forall|i: int| 0 <= i < 5 implies (#[trigger] v.book.bid_sizes@[i]).same(
            Real::from_u64(0),
        ) by {
            assert(v.book.ask_sizes@[i].same(Real::from_u64(0)));
        }
        assert(v.book.is_empty());
        let p = rest[0];
        let w = PortfolioView { active: v.active.push(p), ..v };
        lemma_still_all(w, rest.skip(1), price, ms);
        assert(w.active + rest.skip(1) =~= v.active + rest);
    }
}

/// A replay needs trades, and along books it needs books.
pub proof fn law_missing_data(mode: FillMode, trade_files: nat, book_files: nat)
    ensures
        missing(mode, trade_files, book_files) == Some(MissingData::NoTradeFiles) <==> trade_files == 0,
        missing(mode, trade_files, book_files) == Some(MissingData::NoBookFiles) <==> trade_files > 0
            && mode is Ladder && book_files == 0,
{
}

/// How far a setup has to come back for an entry, and where its target lies: 67.4 and 91 hundredths
/// of the impulse back from B, and 95.5 hundredths of it beyond B.
pub proof fn law_prices_of_entries(params: RiskParams, p: AbcdPattern, timeframe: Timeframe)
    ensures
        ({
            let range = p.b.price.minus(p.a.price).magnitude();
            let back = if p.direction is Bullish {
                Real::from_u64(1).negated()
            } else {
                Real::from_u64(1)
            };
            let golden = p.b.price.plus(back.times(fraction(674, 1000)).times(range));
            let sniper = p.b.price.plus(back.times(fraction(910, 1000)).times(range));
            let target = p.b.price.minus(back.times(fraction(955, 1000)).times(range));
            &&& golden_signal(params, p, timeframe) == signal_of(
                params,
                p,
                target,
                timeframe,
                EntryZone::Golden,
                golden,
            )
            &&& sniper_signal(params, p, timeframe) == signal_of(
                params,
                p,
                target,
                timeframe,
                EntryZone::Sniper,
                sniper,
            )
        }),
{
    law_ladder_steps();
}

/// The strategy enters at the golden zone where no golden entry is active, and at the sniper zone
/// where no sniper entry is active and a golden entry was completely filled before. It does nothing
/// without a setup, or where the risk rules refuse the trade.
pub proof fn law_strategy_enters(
    v: PortfolioView,
    pivots: Seq<SwingPoint>,
    timeframe: Timeframe,
    params: RiskParams,
    ms: u64,
)
    ensures
        abcd_in(pivots) is None ==> strategy_on(v, pivots, timeframe, params, ms) == v,
        abcd_in(pivots) matches Some(p) ==> {
            let w = strategy_on(v, pivots, timeframe, params, ms);
            let golden = if v.active_entry(timeframe, p.direction, EntryZone::Golden) {
                None
            } else {
                taken_up(golden_signal(params, p, timeframe))
            };
            let sniper = if v.active_entry(timeframe, p.direction, EntryZone::Sniper)
                || !v.open_golden(timeframe, p.direction) {
                None
            } else {
                taken_up(sniper_signal(params, p, timeframe))
            };
            w == with_entry(with_entry(v, golden, ms), sniper, ms)
        },
{
    if let Some(p) = abcd_in(pivots) {
        let s = golden_signal(params, p, timeframe);
        let golden = if v.active_entry(timeframe, p.direction, EntryZone::Golden) {
            None
        } else {
            taken_up(s)
        };
        let w = with_entry(v, golden, ms);
        if golden is Some {
            let q = w.active.last();
            assert(q.signal.entry_zone is Golden);
            assert(!q.fully_open());
            assert(w.active.drop_last() =~= v.active);
            lemma_other_entries(v, w, timeframe, p);
        }
    }
}

/// The trade that was found, if one was.
pub open spec fn taken_up(r: Result<TradeSignal, RejectionReason>) -> Option<TradeSignal> {
    match r {
        Ok(s) => Some(s),
        Err(_) => None,
    }
}

/// An account with one more entry that nothing has filled, if there is one.
pub open spec fn with_entry(v: PortfolioView, s: Option<TradeSignal>, ms: u64) -> PortfolioView {
    match s {
        Some(signal) => PortfolioView {
            active: v.active.push(
                OpenPosition {
                    signal,
                    fill_time_ms: None,
                    submit_time_ms: ms,
                    filled_contracts: 0,
                    avg_fill_price: Real::from_u64(0),
                },
            ),
            ..v
        },
        None => v,
    }
}

proof fn lemma_other_entries(v: PortfolioView, w: PortfolioView, timeframe: Timeframe, p: AbcdPattern)
    requires
        w.active.len() == v.active.len() + 1,
        w.active.drop_last() == v.active,
        w.active.last().signal.entry_zone is Golden,
        !w.active.last().fully_open(),
    ensures
        w.active_entry(timeframe, p.direction, EntryZone::Sniper) == v.active_entry(
            timeframe,
            p.direction,
            EntryZone::Sniper,
        ),
        w.open_golden(timeframe, p.direction) == v.open_golden(timeframe, p.direction),
{
    assert forall|i: int| 0 <= i < v.active.len() implies #[trigger] w.active[i] == v.active[i] by {
        assert(w.active.drop_last()[i] == w.active[i]);
    }
    if v.active_entry(timeframe, p.direction, EntryZone::Sniper) {
        let i = choose|i: int|
            0 <= i < v.active.len() && (#[trigger] v.active[i]).is_entry(
                timeframe,
                p.direction,
                EntryZone::Sniper,
            );
        assert(w.active[i].is_entry(timeframe, p.direction, EntryZone::Sniper));
    }
    if v.open_golden(timeframe, p.direction) {
        let i = choose|i: int|
            {
                &&& 0 <= i < v.active.len()
                &&& (#[trigger] v.active[i]).fully_open()
                &&& v.active[i].is_entry(timeframe, p.direction, EntryZone::Golden)
            };
        assert(w.active[i].fully_open());
    }
}

/// The strategy looks at each timeframe with a new pivot, one after the other, by the pivots of that
/// timeframe.
pub proof fn law_strategy_looks_at_new_pivots(
    v: PortfolioView,
    instrument: InstrumentView,
    swings: Seq<(Timeframe, SwingPoint)>,
    next: (Timeframe, SwingPoint),
    params: RiskParams,
    ms: u64,
)
    ensures
        strategy_steps(v, instrument, Seq::empty(), params, ms) == v,
        ({
            let u = strategy_steps(v, instrument, swings, params, ms);
            let w = strategy_steps(v, instrument, swings.push(next), params, ms);
            &&& instrument.detector_of(next.0) is None ==> w == u
            &&& instrument.detector_of(next.0) matches Some(d) ==> w == strategy_on(
                u,
                d.confirmed,
                next.0,
                params,
                ms,
            )
        }),
{
    assert(swings.push(next).drop_last() =~= swings);
}

} // verus!
