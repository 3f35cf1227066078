//! What operations give back, said of the operations themselves.

use crate::abc_brc::detect_abcd;
use crate::abc_brc::detect_brc;
use crate::abc_brc::detect_brc_default;
use crate::abc_brc::detect_combined;
use crate::abc_brc::AbcdPattern;
use crate::abc_brc::BrcPattern;
use crate::abc_brc::CombinedPattern;
use crate::arguments::exit_code;
use crate::backtest::merged;
use crate::backtest::BacktestEngine;
use crate::backtest::EngineView;
use crate::backtest::MissingData;
use crate::candle::closed_by;
use crate::candle::Candle;
use crate::candle::Timeframe;
use crate::fibonacci::law_ladder_steps;
use crate::fibonacci::FibSequence;
use crate::instrument::IngestOutcome;
use crate::instrument::Instrument;
use crate::ladder::market_exit_price;
use crate::ladder::walk_ladder_limit;
use crate::ladder::walk_ladder_market;
use crate::ladder::BookSnapshot;
use crate::ladder::LadderFill;
use crate::ladder::PriceLimit;
use crate::laws::book_walk::acceptable;
use crate::laws::book_walk::fair;
use crate::laws::book_walk::law_fill_is_made_of_levels;
use crate::laws::book_walk::paid;
use crate::laws::book_walk::taken;
use crate::laws::levels::back_at;
use crate::laws::levels::back_by;
use crate::laws::levels::beyond_by;
use crate::laws::numbers::digits_only;
use crate::laws::numbers::law_decimal_numbers_are_read;
use crate::laws::numbers::law_unsigned_numbers_are_read;
use crate::laws::numbers::value_in_tens;
use crate::laws::results::fell_no_further;
use crate::laws::results::fell_so_far;
use crate::laws::results::law_largest_fall;
use crate::live::LiveStats;
use crate::metrics::BacktestMetrics;
use crate::number::Real;
use crate::order::fraction;
use crate::order::lemma_fraction;
use crate::portfolio::BacktestPortfolio;
use crate::position::OrderUpdate;
use crate::position::Positions;
use crate::reconnect::Backoff;
use crate::risk::RejectionReason;
use crate::risk::RiskEngine;
use crate::risk::TradeSignal;
use crate::swing::SwingDetector;
use crate::text::parse_u64;
use crate::ws_types::TradeUpdate;
use vstd::arithmetic::power::pow;
use vstd::arithmetic::power2::lemma2_to64;
use vstd::arithmetic::power2::lemma2_to64_rest;
use vstd::prelude::*;

verus! {

/// The measures of a candle.
pub proof fn law_measures_of_a_candle(c: Candle, r: Real, b: bool)
    ensures
        call_ensures(Candle::range, (&c,), r) ==> r == c.high.minus(c.low),
        call_ensures(Candle::body, (&c,), r) ==> r == c.close.minus(c.open).magnitude(),
        call_ensures(Candle::midpoint, (&c,), r) ==> r == c.high.plus(c.low).over(Real::from_u64(2)),
        call_ensures(Candle::typical_price, (&c,), r) ==> r == c.high.plus(c.low).plus(c.close).over(
            Real::from_u64(3),
        ),
        call_ensures(Candle::is_bullish, (&c,), b) ==> b == c.open.lt(c.close),
        call_ensures(Candle::is_bearish, (&c,), b) ==> b == c.close.lt(c.open),
{
}

/// The prices of a ladder, and which prices are entries on it.
pub proof fn law_prices_of_a_ladder(f: FibSequence, price: Real, r: Real, b: bool)
    ensures
        call_ensures(FibSequence::golden_zone, (&f,), r) ==> r == back_by(f, fraction(674, 1000)),
        call_ensures(FibSequence::sniper_zone, (&f,), r) ==> r == back_by(f, fraction(910, 1000)),
        call_ensures(FibSequence::target1, (&f,), r) ==> r == beyond_by(f, fraction(305, 1000)),
        call_ensures(FibSequence::target2, (&f,), r) ==> r == beyond_by(f, fraction(629, 1000)),
        call_ensures(FibSequence::target3, (&f,), r) ==> r == beyond_by(f, fraction(955, 1000)),
        call_ensures(FibSequence::range, (&f,), r) ==> r == f.anchor_b.minus(f.anchor_a).magnitude(),
        call_ensures(FibSequence::is_valid_entry, (&f, price), b) ==> b == back_at(
            f,
            price,
            back_by(f, fraction(674, 1000)),
        ),
        call_ensures(FibSequence::is_sniper_zone, (&f, price), b) ==> b == back_at(
            f,
            price,
            back_by(f, fraction(910, 1000)),
        ),
{
    law_ladder_steps();
}

/// The best levels of a book are its first ones, where they hold anything.
pub proof fn law_best_levels(book: BookSnapshot, r: Option<(Real, Real)>)
    ensures
        call_ensures(BookSnapshot::best_bid, (&book,), r) ==> {
            &&& Real::from_u64(0).lt(book.bid_sizes@[0]) ==> r == Some(
                (book.bid_prices@[0], book.bid_sizes@[0]),
            )
            &&& !Real::from_u64(0).lt(book.bid_sizes@[0]) ==> r is None
        },
        call_ensures(BookSnapshot::best_ask, (&book,), r) ==> {
            &&& Real::from_u64(0).lt(book.ask_sizes@[0]) ==> r == Some(
                (book.ask_prices@[0], book.ask_sizes@[0]),
            )
            &&& !Real::from_u64(0).lt(book.ask_sizes@[0]) ==> r is None
        },
{
}

/// An order with a limit takes levels in turn, each within the limit: no dearer for a buyer, no
/// cheaper for a seller. Its price is the mean of what it takes.
pub proof fn law_limit_orders_take_levels(
    prices: &[Real; 5],
    sizes: &[Real; 5],
    want: u64,
    face: Real,
    bound: Real,
    is_buy: bool,
    r: LadderFill,
) -> (takes: Seq<nat>)
    requires
        call_ensures(walk_ladder_limit, (prices, sizes, want, face, bound, is_buy), r),
    ensures
        fair(prices@, sizes@, want, face, Some(PriceLimit { price: bound, is_buy }), takes),
        r.filled_contracts == taken(takes, 5),
        r.filled_contracts > 0 ==> r.avg_price == paid(prices@, takes, 5).over(
            Real::from_u64(r.filled_contracts),
        ),
        r.filled_contracts > 0 ==> (r.fully_filled <==> r.filled_contracts == want),
        forall|i: int|
            0 <= i < 5 && #[trigger] takes[i] > 0 ==> {
                &&& is_buy ==> prices@[i].le(bound)
                &&& !is_buy ==> bound.le(prices@[i])
            },
{
    let limit = Some(PriceLimit { price: bound, is_buy });
    let takes = law_fill_is_made_of_levels(prices@, sizes@, want, face, limit);
    assert forall|i: int| 0 <= i < 5 && #[trigger] takes[i] > 0 implies {
        &&& is_buy ==> prices@[i].le(bound)
        &&& !is_buy ==> bound.le(prices@[i])
    } by {
        assert(acceptable(prices@[i], limit));
    }
    takes
}

/// An order at market takes levels in turn, whatever their price.
pub proof fn law_market_orders_take_levels(
    prices: &[Real; 5],
    sizes: &[Real; 5],
    want: u64,
    face: Real,
    r: LadderFill,
    exit: Option<Real>,
) -> (takes: Seq<nat>)
    requires
        call_ensures(walk_ladder_market, (prices, sizes, want, face), r),
        call_ensures(market_exit_price, (prices, sizes, want, face), exit),
    ensures
        fair(prices@, sizes@, want, face, None, takes),
        r.filled_contracts == taken(takes, 5),
        r.filled_contracts > 0 ==> r.avg_price == paid(prices@, takes, 5).over(
            Real::from_u64(r.filled_contracts),
        ),
        r.filled_contracts == 0 <==> exit is None,
        r.fully_filled ==> exit == Some(r.avg_price),
{
    law_fill_is_made_of_levels(prices@, sizes@, want, face, None)
}

/// A combined setup is found exactly where both setups are found and agree on their direction.
pub proof fn law_combined_setups_are_found(
    d: &SwingDetector,
    ratio: Real,
    a: Option<AbcdPattern>,
    b: Option<BrcPattern>,
    r: Option<CombinedPattern>,
)
    requires
        call_ensures(detect_abcd, (d,), a),
        call_ensures(detect_brc, (d, ratio), b),
        call_ensures(detect_combined, (d, ratio), r),
    ensures
        r is Some <==> a is Some && b is Some && a->0.direction == b->0.direction,
        r is Some ==> r->0.abcd == a->0 && r->0.brc == b->0,
        ratio == fraction(3, 10) ==> forall|x: Option<BrcPattern>| #[trigger]
            call_ensures(detect_brc_default, (d,), x) ==> x == b,
{
    lemma2_to64();
    lemma2_to64_rest();
    lemma_fraction(3, 10, 54, 0x13333333333333);
}

/// A trade that is built enters at the zone it is named after and aims at the third target; its ratio
/// is that of its own prices. It is refused for its ratio only where that is too small.
pub proof fn law_trades_are_built(
    engine: &RiskEngine,
    p: &AbcdPattern,
    f: &FibSequence,
    timeframe: Timeframe,
    r: Result<TradeSignal, RejectionReason>,
)
    requires
        call_ensures(RiskEngine::evaluate_golden, (engine, p, f, timeframe), r) || call_ensures(
            RiskEngine::evaluate_sniper,
            (engine, p, f, timeframe),
            r,
        ),
    ensures
        r matches Ok(s) ==> {
            &&& s.direction == p.direction
            &&& s.timeframe == timeframe
            &&& s.target_price == beyond_by(*f, fraction(955, 1000))
            &&& s.entry_zone is Golden ==> s.entry_price == back_by(*f, fraction(674, 1000))
            &&& s.entry_zone is Sniper ==> s.entry_price == back_by(*f, fraction(910, 1000))
            &&& s.rr_ratio == s.target_price.minus(s.entry_price).magnitude().over(
                s.entry_price.minus(s.stop_price).magnitude(),
            )
            &&& !s.rr_ratio.lt(engine.spec_params().min_rr_ratio)
        },
        r matches Err(RejectionReason::InsufficientRr { actual, required }) ==> required
            == engine.spec_params().min_rr_ratio && actual.lt(required),
        call_ensures(RiskEngine::evaluate_golden, (engine, p, f, timeframe), r) ==> (r matches Ok(s)
            ==> s.entry_zone is Golden),
        call_ensures(RiskEngine::evaluate_sniper, (engine, p, f, timeframe), r) ==> (r matches Ok(s)
            ==> s.entry_zone is Sniper),
{
    law_ladder_steps();
}

/// The figures of an account: its equities, its trades, and the largest fall of its equity as a share
/// of the highest one before it.
pub proof fn law_figures_are_computed(account: &BacktestPortfolio, m: BacktestMetrics) -> (d: Real)
    requires
        call_ensures(BacktestMetrics::compute, (account,), m),
        account@.completed.len() > 0,
    ensures
        m.starting_equity == account@.starting_equity,
        m.ending_equity == account@.equity,
        m.total_trades == account@.completed.len() as usize,
        m.max_drawdown_pct == d.times(Real::from_u64(100)),
        forall|k: int| 1 <= k <= account@.completed.len() ==> #[trigger] fell_no_further(account@, k, d),
        d == Real::from_u64(0) || exists|k: int|
            1 <= k <= account@.completed.len() && #[trigger] fell_so_far(account@, k, d),
{
    law_largest_fall(account@)
}

/// Texts of digits are read as the numbers that they stand for.
pub proof fn law_texts_are_read(
    s: &str,
    n: Option<u64>,
    x: Option<Real>,
    whole: Seq<char>,
    part: Seq<char>,
)
    requires
        call_ensures(parse_u64, (s,), n),
        call_ensures(Real::parse, (s,), x),
        whole.len() > 0,
        digits_only(whole),
        digits_only(part),
    ensures
        s@ == whole && value_in_tens(whole) <= u64::MAX ==> n == Some(value_in_tens(whole) as u64),
        s@ == whole + seq!['.'] + part ==> x == Some(
            fraction(value_in_tens(whole + part) as nat, pow(10, part.len()) as nat),
        ),
{
    law_unsigned_numbers_are_read(whole);
    law_decimal_numbers_are_read(whole, part);
}

/// A request for help is no failure; every other message ends in one.
pub proof fn law_exit_codes(message: &str, r: u8)
    requires
        call_ensures(exit_code, (message,), r),
    ensures
        message@ == "help"@ ==> r == 0,
        message@ != "help"@ ==> r == 2,
{
}

/// A replay in ladder mode goes through both streams in the order of time, trades meeting the book
/// that is there; one in optimistic mode goes through the trades alone. Both end what is still open at
/// the last price. Data that is missing leaves everything as it is.
pub proof fn law_replays_are_run(
    engine: &mut BacktestEngine,
    trade_files: usize,
    trades: Vec<TradeUpdate>,
    book_files: usize,
    books: Vec<BookSnapshot>,
    r: Result<BacktestMetrics, MissingData>,
)
    requires
        call_ensures(BacktestEngine::run, (engine, trade_files, trades, book_files, books), r),
    ensures
        ({
            let v = old(engine)@;
            let w = final(engine)@;
            let start = EngineView { last_price: Real::from_u64(0), ..v };
            let ladder = v.config.fill_mode is Ladder;
            &&& trade_files == 0 ==> r is Err && w == v
            &&& ladder && book_files == 0 ==> r is Err && w == v
            &&& trade_files > 0 && (!ladder || book_files > 0) ==> r is Ok
            &&& r is Ok && ladder ==> w == start.after_events(merged(trades@, books@)).finished()
            &&& r is Ok && !ladder ==> w == start.after_trades(trades@).finished()
        }),
{
}

/// The operations of an account: ticks at once or along the book, a new book, a new entry, and the end
/// of the data.
pub proof fn law_accounts_are_driven(
    account: &mut BacktestPortfolio,
    price: Real,
    ms: u64,
    book: BookSnapshot,
    signal: TradeSignal,
)
    ensures
        call_ensures(BacktestPortfolio::process_tick, (account, price, ms), ()) ==> final(account)@
            == old(account)@.after_tick(price, ms),
        call_ensures(BacktestPortfolio::process_tick_ladder, (account, price, ms), ()) ==> final(account)@ == old(account)@.after_tick_on_book(price, ms),
        call_ensures(BacktestPortfolio::process_book, (account, book), ()) ==> final(account)@ == old(account)@.after_book(book),
        call_ensures(BacktestPortfolio::submit, (account, signal, ms), ()) ==> final(account)@ == old(account)@.submitting(signal, ms),
        call_ensures(BacktestPortfolio::force_close_all, (account, price, ms), ()) ==> {
            &&& final(account)@ == old(account)@.at_end(price, ms)
            &&& final(account)@.active.len() == 0
        },
{
}

/// The operations of the registry: events of orders, and exits that are filled.
pub proof fn law_registries_are_driven(
    positions: &mut Positions,
    update: &OrderUpdate,
    id: &str,
    ms: u64,
)
    ensures
        call_ensures(Positions::apply_order_update, (positions, update), ()) ==> final(positions)@
            == old(positions)@.after(update@),
        call_ensures(Positions::mark_closed_by_parent, (positions, id, ms), ()) ==> final(positions)@
            == old(positions)@.closed(id@, ms),
{
}

/// A market takes a trade in with all of its candles and detectors, and tells which candles it closed
/// and which pivots it confirmed.
pub proof fn law_markets_are_driven(market: &mut Instrument, trade: &TradeUpdate, r: IngestOutcome)
    requires
        call_ensures(Instrument::update_from_trade, (market, trade), r),
    ensures
        final(market)@ == old(market)@.after(
            trade.price,
            trade.size,
            trade.side@,
            trade.timestamp_ms,
        ),
        final(market)@.last_price == trade.price,
        final(market)@.last_trade_ms == trade.timestamp_ms,
        final(market)@.trade_count == old(market)@.trade_count + 1,
        r.closed_candles@ == closed_by(old(market)@.candles, trade.timestamp_ms),
        r.new_swings@ == old(market)@.swings(trade.price, trade.size, trade.timestamp_ms),
{
}

/// Every count counts what it is named after and nothing else. Every thousandth trade and every
/// five-hundredth book are told of, and of dropped ones the first and then each hundredth tick and
/// five-hundredth book.
pub proof fn law_counts_are_kept(stats: &mut LiveStats, tell: bool)
    requires
        old(stats).room(),
    ensures
        call_ensures(LiveStats::count_trade, (stats,), tell) ==> {
            &&& final(stats).trades == old(stats).trades + 1
            &&& final(stats).books == old(stats).books
            &&& tell <==> (old(stats).trades + 1) % 1000 == 0
        },
        call_ensures(LiveStats::count_book, (stats,), tell) ==> {
            &&& final(stats).books == old(stats).books + 1
            &&& final(stats).trades == old(stats).trades
            &&& tell <==> (old(stats).books + 1) % 500 == 0
        },
        call_ensures(LiveStats::count_built, (stats,), ()) ==> final(stats).signals_built == old(stats).signals_built + 1 && final(stats).signals_submitted == old(stats).signals_submitted,
        call_ensures(LiveStats::count_submitted, (stats,), ()) ==> final(stats).signals_submitted
            == old(stats).signals_submitted + 1 && final(stats).signals_built == old(stats).signals_built,
        call_ensures(LiveStats::count_gated, (stats,), ()) ==> final(stats).sniper_gated_off == old(stats).sniper_gated_off + 1,
        call_ensures(LiveStats::count_dropped_tick, (stats,), tell) ==> {
            &&& final(stats).ticks_dropped == old(stats).ticks_dropped + 1
            &&& final(stats).books_dropped == old(stats).books_dropped
            &&& tell <==> old(stats).ticks_dropped % 100 == 0
        },
        call_ensures(LiveStats::count_dropped_book, (stats,), tell) ==> {
            &&& final(stats).books_dropped == old(stats).books_dropped + 1
            &&& final(stats).ticks_dropped == old(stats).ticks_dropped
            &&& tell <==> old(stats).books_dropped % 500 == 0
        },
{
}

/// A failed attempt is answered with the pause that is due, and the next one doubles up to half a
/// minute; a success starts over at one second.
pub proof fn law_pauses_are_kept(backoff: &mut Backoff, secs: u64)
    ensures
        call_ensures(Backoff::failed, (backoff,), secs) ==> {
            &&& secs == old(backoff).delay()
            &&& 2 * secs <= 30 ==> final(backoff).delay() == 2 * secs
            &&& 2 * secs > 30 ==> final(backoff).delay() == 30
        },
        call_ensures(Backoff::succeeded, (backoff,), ()) ==> final(backoff).delay() == 1,
{
}

} // verus!
