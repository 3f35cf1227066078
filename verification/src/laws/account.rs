//! What ticks, books and the end of the data do to the positions of an account.

use crate::abc_brc::PatternDirection;
use crate::candle::Timeframe;
use crate::ladder::ladder_fill;
use crate::ladder::market_price;
use crate::ladder::BookSnapshot;
use crate::ladder::LadderFill;
use crate::ladder::PriceLimit;
use crate::number::Real;
use crate::order::fraction;
use crate::portfolio::Exit;
use crate::portfolio::OpenPosition;
use crate::portfolio::PortfolioView;
use crate::risk::law_default_parameters;
use crate::risk::EntryZone;
use crate::risk::TradeSignal;
use vstd::prelude::*;

verus! {

/// Whether a price has come down to a level.
pub open spec fn down_to(price: Real, level: Real) -> bool {
    price.is_number() && level.is_number() && price.rank() <= level.rank()
}

/// Whether an account has completed one more trade than another: that of a position which left at a
/// price, for a reason, at a time.
pub open spec fn completes(
    v: PortfolioView,
    w: PortfolioView,
    p: OpenPosition,
    price: Real,
    reason: Seq<char>,
    ms: u64,
) -> bool {
    let c = w.completed.last();
    let zero = Real::from_u64(0);
    let btc = Real::from_u64(c.contracts).times(fraction(1, 100));
    let risk = p.signal.risk_amount.magnitude().times(
        Real::from_u64(c.contracts).over(Real::from_u64(p.signal.contracts)),
    );
    &&& w.completed == v.completed.push(c)
    &&& w.starting_equity == v.starting_equity
    &&& w.book == v.book
    &&& w.equity == v.equity.plus(c.pnl_usdt)
    &&& c.equity_after == w.equity
    &&& c.exit_price == price
    &&& c.exit_reason == reason
    &&& c.exit_time_ms == ms
    &&& p.fill_time_ms matches Some(t) ==> c.entry_time_ms == t
    &&& p.fill_time_ms is None ==> c.entry_time_ms == p.submit_time_ms
    &&& c.exit_time_ms >= c.entry_time_ms ==> c.entry_time_ms + c.duration_ms == c.exit_time_ms
    &&& c.exit_time_ms < c.entry_time_ms ==> c.duration_ms == 0
    &&& p.filled_contracts > 0 ==> c.contracts == p.filled_contracts
    &&& p.filled_contracts == 0 ==> c.contracts == p.signal.contracts
    &&& zero.lt(p.avg_fill_price) ==> c.entry_price == p.avg_fill_price
    &&& !zero.lt(p.avg_fill_price) ==> c.entry_price == p.signal.entry_price
    &&& p.signal.direction is Bullish ==> c.pnl_usdt == c.exit_price.minus(c.entry_price).times(btc)
        && c.direction == "BULLISH"@
    &&& p.signal.direction is Bearish ==> c.pnl_usdt == c.entry_price.minus(c.exit_price).times(btc)
        && c.direction == "BEARISH"@
    &&& zero.lt(risk) ==> c.r_multiple == c.pnl_usdt.over(risk)
    &&& !zero.lt(risk) ==> c.r_multiple == zero
    &&& p.signal.entry_zone is Golden ==> c.zone == "GOLDEN"@
    &&& p.signal.entry_zone is Sniper ==> c.zone == "SNIPER"@
    &&& c.timeframe == p.signal.timeframe.label_text()
    &&& c.stop_price == p.signal.stop_price
    &&& c.target_price == p.signal.target_price
}

/// A trade is recorded with what it was: the prices and the size of its fill, and the result of
/// buying at one price and selling at the other.
pub proof fn law_completed_trades_tell_what_happened(
    v: PortfolioView,
    p: OpenPosition,
    exit: Exit,
    ms: u64,
)
    ensures
        completes(v, v.closing(p, exit, ms), p, exit.price, exit.reason, ms),
        v.closing(p, exit, ms).active == v.active,
{
    law_default_parameters();
    let w = v.closing(p, exit, ms);
    assert(w.completed =~= v.completed.push(w.completed.last()));
}

/// What a tick does to an account with one position, when entries are filled at once: it fills an
/// entry that the price has come to, in full and at the price of the order; it ends what is filled
/// where the price has come to the stop, or else to the target, at the price of that order; and it
/// leaves everything else alone.
pub proof fn law_tick(v: PortfolioView, p: OpenPosition, price: Real, ms: u64)
    requires
        v.active == seq![p],
    ensures
        ({
            let w = v.after_tick(price, ms);
            let s = p.signal;
            let at_entry = (s.direction is Bullish && down_to(price, s.entry_price)) || (
            s.direction is Bearish && down_to(s.entry_price, price));
            let at_stop = (s.direction is Bullish && down_to(price, s.stop_price)) || (
            s.direction is Bearish && down_to(s.stop_price, price));
            let at_target = (s.direction is Bullish && down_to(s.target_price, price)) || (
            s.direction is Bearish && down_to(price, s.target_price));
            let q = if p.fill_time_ms is None && at_entry {
                OpenPosition {
                    signal: s,
                    fill_time_ms: Some(ms),
                    submit_time_ms: p.submit_time_ms,
                    filled_contracts: s.contracts,
                    avg_fill_price: s.entry_price,
                }
            } else {
                p
            };
            &&& q.fill_time_ms is None ==> w == v
            &&& q.fill_time_ms is Some && !at_stop && !at_target ==> w == (PortfolioView {
                active: seq![q],
                ..v
            })
            &&& q.fill_time_ms is Some && at_stop ==> w.active.len() == 0 && completes(
                v,
                w,
                q,
                s.stop_price,
                "stop"@,
                ms,
            )
            &&& q.fill_time_ms is Some && !at_stop && at_target ==> w.active.len() == 0 && completes(
                v,
                w,
                q,
                s.target_price,
                "target"@,
                ms,
            )
        }),
{
    let none = PortfolioView { active: Seq::empty(), ..v };
    let q = p.ticked(price, ms);
    assert(v.active.skip(1) =~= Seq::<OpenPosition>::empty());
    let w = none.settling(q, q.exit_at(price), ms);
    assert(w.ticking(v.active.skip(1), price, ms) == w);
    assert(none.active.push(q) =~= seq![q]);
    match q.exit_at(price) {
        Some(e) => {
            law_completed_trades_tell_what_happened(none, q, e, ms);
        },
        None => {},
    }
}

/// Whether no level of a book has any size.
pub open spec fn nothing_on(book: BookSnapshot) -> bool {
    forall|i: int|
        0 <= i < 5 ==> (#[trigger] book.ask_sizes@[i]).same(Real::from_u64(0))
            && book.bid_sizes@[i].same(Real::from_u64(0))
}

/// A position with more of its entry filled at a mean price: the new mean weighs both fills by their
/// sizes, and the entry counts as filled from the time at which nothing of it is left.
pub open spec fn grown(p: OpenPosition, q: OpenPosition, fill: LadderFill, ms: u64) -> bool {
    if fill.filled_contracts == 0 {
        q == p
    } else {
        &&& q.signal == p.signal
        &&& q.submit_time_ms == p.submit_time_ms
        &&& q.filled_contracts == p.filled_contracts + fill.filled_contracts
        &&& q.avg_fill_price == p.avg_fill_price.times(Real::from_u64(p.filled_contracts)).plus(
            fill.avg_price.times(Real::from_u64(fill.filled_contracts)),
        ).over(Real::from_u64(q.filled_contracts))
        &&& p.fill_time_ms is Some ==> q.fill_time_ms == p.fill_time_ms
        &&& p.fill_time_ms is None && q.filled_contracts < p.signal.contracts ==> q.fill_time_ms is None
        &&& p.fill_time_ms is None && q.filled_contracts >= p.signal.contracts ==> q.fill_time_ms
            == Some(ms)
    }
}

/// What a book fills of the rest of an entry: that of a buyer from the asks, up to the entry's price;
/// that of a seller from the bids, down to it.
pub open spec fn filled_by(p: OpenPosition, book: BookSnapshot) -> LadderFill {
    let rest = (p.signal.contracts - p.filled_contracts) as u64;
    let bound = p.signal.entry_price;
    if p.signal.direction is Bullish {
        ladder_fill(
            book.ask_prices@,
            book.ask_sizes@,
            rest,
            fraction(1, 100),
            Some(PriceLimit { price: bound, is_buy: true }),
        )
    } else {
        ladder_fill(
            book.bid_prices@,
            book.bid_sizes@,
            rest,
            fraction(1, 100),
            Some(PriceLimit { price: bound, is_buy: false }),
        )
    }
}

/// What a position gets when it leaves at once along a book: a buyer sells to the bids, a seller buys
/// from the asks.
pub open spec fn left_by(p: OpenPosition, book: BookSnapshot) -> Option<Real> {
    if p.signal.direction is Bullish {
        market_price(book.bid_prices@, book.bid_sizes@, p.filled_contracts, fraction(1, 100))
    } else {
        market_price(book.ask_prices@, book.ask_sizes@, p.filled_contracts, fraction(1, 100))
    }
}

/// Whether an account with one position got to another by a tick along its book, with the position
/// as it is once the book has filled what it could of the entry.
pub open spec fn goes_along(
    v: PortfolioView,
    w: PortfolioView,
    p: OpenPosition,
    q: OpenPosition,
    price: Real,
    ms: u64,
) -> bool {
    let s = p.signal;
    let at_entry = (s.direction is Bullish && down_to(price, s.entry_price)) || (s.direction is Bearish
        && down_to(s.entry_price, price));
    let at_stop = (s.direction is Bullish && down_to(price, s.stop_price)) || (s.direction is Bearish
        && down_to(s.stop_price, price));
    let at_target = (s.direction is Bullish && down_to(s.target_price, price)) || (s.direction is Bearish
        && down_to(price, s.target_price));
    let fills = p.fill_time_ms is None && at_entry && p.filled_contracts < s.contracts;
    &&& fills ==> grown(p, q, filled_by(p, v.book), ms)
    &&& !fills ==> q == p
    &&& q.fill_time_ms is None || (!at_stop && !at_target) ==> w == (PortfolioView {
        active: seq![q],
        ..v
    })
    &&& q.fill_time_ms is Some && at_stop ==> w.active.len() == 0 && completes(
        v,
        w,
        q,
        match left_by(q, v.book) {
            Some(x) => x,
            None => s.stop_price,
        },
        "stop"@,
        ms,
    )
    &&& q.fill_time_ms is Some && !at_stop && at_target ==> w.active.len() == 0 && completes(
        v,
        w,
        q,
        match left_by(q, v.book) {
            Some(x) => x,
            None => s.target_price,
        },
        "target"@,
        ms,
    )
}

/// What a tick does to an account with one position, when orders go along the book. A book without
/// any size does nothing at all. Otherwise an entry that the price has come to takes what the other
/// side of the book offers within its limit; and what is completely filled leaves, at the stop or
/// else at the target, for what the other side of the book pays.
#[verifier::spinoff_prover]
pub proof fn law_tick_along_a_book(v: PortfolioView, p: OpenPosition, price: Real, ms: u64) -> (q:
    OpenPosition)
    requires
        v.active == seq![p],
        p.wf(),
    ensures
        nothing_on(v.book) ==> v.after_tick_on_book(price, ms) == v,
        !nothing_on(v.book) ==> goes_along(v, v.after_tick_on_book(price, ms), p, q, price, ms),
{
    law_default_parameters();
    let none = PortfolioView { active: Seq::empty(), ..v };
    let q = p.ticked_on(v.book, price, ms);
    lemma_empty_is_nothing(v.book);
    assert(v.active.skip(1) =~= Seq::<OpenPosition>::empty());
    let e = q.exit_on(v.book, price);
    let w = none.settling(q, e, ms);
    assert(w.walking(v.active.skip(1), price, ms) == w);
    assert(w == v.after_tick_on_book(price, ms));
    assert(none.active.push(q) =~= seq![q]);
    match e {
        Some(x) => {
            law_completed_trades_tell_what_happened(none, q, x, ms);
        },
        None => {},
    }
    lemma_fill_fits(p, v.book);
    assert(p.entry_fill(v.book) == filled_by(p, v.book));
    assert(q.exit_price(v.book) == left_by(q, v.book));
    if nothing_on(v.book) {
        assert(seq![p] =~= none.active.push(p));
    }
    q
}

proof fn lemma_empty_is_nothing(book: BookSnapshot)
    ensures
        book.is_empty() <==> nothing_on(book),
{
    if book.is_empty() {
        assert forall|i: int| 0 <= i < 5 implies (#[trigger] book.ask_sizes@[i]).same(
            Real::from_u64(0),
        ) && book.bid_sizes@[i].same(Real::from_u64(0)) by {
            assert(book.bid_sizes@[i].same(Real::from_u64(0)));
        }
    }
    if nothing_on(book) {
        assert forall|i: int| 0 <= i < 5 implies (#[trigger] book.bid_sizes@[i]).same(
            Real::from_u64(0),
        ) by {
            assert(book.ask_sizes@[i].same(Real::from_u64(0)));
        }
    }
}

/// A fill is no larger than what is left of an entry.
proof fn lemma_fill_fits(p: OpenPosition, book: BookSnapshot)
    requires
        p.wf(),
    ensures
        p.filled_contracts + p.entry_fill(book).filled_contracts <= p.signal.contracts,
{
    let rest = (p.signal.contracts - p.filled_contracts) as u64;
    let face = Real { bits: crate::risk::BTC_USDT_SWAP_CONTRACT_FACE };
    let (buy, sell) = (
        Some(PriceLimit { price: p.signal.entry_price, is_buy: true }),
        Some(PriceLimit { price: p.signal.entry_price, is_buy: false }),
    );
    crate::ladder::law_fill_is_bounded(book.ask_prices@, book.ask_sizes@, rest, face, buy);
    crate::ladder::law_fill_is_bounded(book.bid_prices@, book.bid_sizes@, rest, face, sell);
}

/// A new book becomes the book, fills what is partly filled further, and touches nothing else: no
/// entry that is not filled at all, no position that is, no equity and no completed trade.
pub proof fn law_new_book(v: PortfolioView, book: BookSnapshot)
    requires
        v.wf(),
    ensures
        ({
            let w = v.after_book(book);
            &&& w.book == book
            &&& w.equity == v.equity
            &&& w.starting_equity == v.starting_equity
            &&& w.completed == v.completed
            &&& w.active.len() == v.active.len()
            &&& forall|i: int|
                0 <= i < v.active.len() ==> {
                    let (p, q) = (v.active[i], #[trigger] w.active[i]);
                    &&& p.filled_contracts == 0 || p.filled_contracts == p.signal.contracts ==> q == p
                    &&& 0 < p.filled_contracts < p.signal.contracts ==> grown(
                        p,
                        q,
                        filled_by(p, book),
                        book.timestamp_ms,
                    )
                }
        }),
{
    law_default_parameters();
    let w = v.after_book(book);
    assert forall|i: int| 0 <= i < v.active.len() implies {
        let (p, q) = (v.active[i], #[trigger] w.active[i]);
        &&& p.filled_contracts == 0 || p.filled_contracts == p.signal.contracts ==> q == p
        &&& 0 < p.filled_contracts < p.signal.contracts ==> grown(
            p,
            q,
            filled_by(p, book),
            book.timestamp_ms,
        )
    } by {
        assert(v.active[i].wf());
        lemma_fill_fits(v.active[i], book);
        assert(v.active[i].entry_fill(book) == filled_by(v.active[i], book));
    }
}

/// What the end of the data does to an account with one position: what has any fill leaves at the
/// last price, and an entry without any is dropped.
pub proof fn law_end_of_data(v: PortfolioView, p: OpenPosition, price: Real, ms: u64)
    requires
        v.active == seq![p],
    ensures
        ({
            let w = v.at_end(price, ms);
            &&& w.active.len() == 0
            &&& p.fill_time_ms is Some || p.filled_contracts > 0 ==> completes(
                v,
                w,
                p,
                price,
                "eof"@,
                ms,
            )
            &&& p.fill_time_ms is None && p.filled_contracts == 0 ==> w == (PortfolioView {
                active: Seq::empty(),
                ..v
            })
        }),
{
    let none = PortfolioView { active: Seq::empty(), ..v };
    assert(v.active.skip(1) =~= Seq::<OpenPosition>::empty());
    law_completed_trades_tell_what_happened(none, p, Exit { price, reason: "eof"@ }, ms);
    let w = none.closing(p, Exit { price, reason: "eof"@ }, ms);
    assert(w.ending(v.active.skip(1), price, ms) == w);
    assert(none.ending(v.active.skip(1), price, ms) == none);
}

/// An account with other positions.
pub open spec fn holding(v: PortfolioView, active: Seq<OpenPosition>) -> PortfolioView {
    PortfolioView { active, ..v }
}

/// Positions do not affect each other: what happens to some of them and then to others is what
/// happens to all of them at once, in their order, but for the equity that their results add up to.
pub proof fn law_positions_are_on_their_own(
    v: PortfolioView,
    some: Seq<OpenPosition>,
    others: Seq<OpenPosition>,
    price: Real,
    ms: u64,
)
    ensures
        ({
            let u = holding(v, some).after_tick(price, ms);
            let w = holding(u, others).after_tick(price, ms);
            holding(v, some + others).after_tick(price, ms) == holding(w, u.active + w.active)
        }),
        ({
            let u = holding(v, some).after_tick_on_book(price, ms);
            let w = holding(u, others).after_tick_on_book(price, ms);
            holding(v, some + others).after_tick_on_book(price, ms) == holding(w, u.active + w.active)
        }),
        ({
            let u = holding(v, some).at_end(price, ms);
            holding(v, some + others).at_end(price, ms) == holding(u, others).at_end(price, ms)
        }),
        holding(v, Seq::empty()).after_tick(price, ms) == holding(v, Seq::empty()),
        holding(v, Seq::empty()).after_tick_on_book(price, ms) == holding(v, Seq::empty()),
        holding(v, Seq::empty()).at_end(price, ms) == holding(v, Seq::empty()),
{
    let none = holding(v, Seq::empty());
    let e = Seq::<OpenPosition>::empty();
    lemma_ticking_splits(none, some, others, price, ms);
    let u = holding(v, some).after_tick(price, ms);
    lemma_ticking_behind(holding(u, e), u.active, others, price, ms);
    assert(u.active + e =~= u.active);
    assert(holding(u, u.active) == u);
    lemma_walking_splits(none, some, others, price, ms);
    let u2 = holding(v, some).after_tick_on_book(price, ms);
    lemma_walking_behind(holding(u2, e), u2.active, others, price, ms);
    assert(u2.active + e =~= u2.active);
    assert(holding(u2, u2.active) == u2);
    lemma_ending_splits(none, some, others, price, ms);
    lemma_ending_holds_nothing(none, some, price, ms);
}

proof fn lemma_ticking_splits(
    v: PortfolioView,
    a: Seq<OpenPosition>,
    b: Seq<OpenPosition>,
    price: Real,
    ms: u64,
)
    ensures
        v.ticking(a + b, price, ms) == v.ticking(a, price, ms).ticking(b, price, ms),
    decreases a.len(),
{
    if a.len() == 0 {
        assert(a + b =~= b);
    } else {
        let p = a[0].ticked(price, ms);
        assert((a + b)[0] == a[0]);
        assert((a + b).skip(1) =~= a.skip(1) + b);
        lemma_ticking_splits(v.settling(p, p.exit_at(price), ms), a.skip(1), b, price, ms);
    }
}

proof fn lemma_ticking_behind(
    v: PortfolioView,
    front: Seq<OpenPosition>,
    rest: Seq<OpenPosition>,
    price: Real,
    ms: u64,
)
    ensures
        holding(v, front + v.active).ticking(rest, price, ms) == holding(
            v.ticking(rest, price, ms),
            front + v.ticking(rest, price, ms).active,
        ),
    decreases rest.len(),
{
    if rest.len() > 0 {
        let p = rest[0].ticked(price, ms);
        let w = v.settling(p, p.exit_at(price), ms);
        assert((front + v.active).push(p) =~= front + v.active.push(p));
        assert(holding(v, front + v.active).settling(p, p.exit_at(price), ms) == holding(
            w,
            front + w.active,
        ));
        lemma_ticking_behind(w, front, rest.skip(1), price, ms);
    }
}

proof fn lemma_walking_splits(
    v: PortfolioView,
    a: Seq<OpenPosition>,
    b: Seq<OpenPosition>,
    price: Real,
    ms: u64,
)
    ensures
        v.walking(a + b, price, ms) == v.walking(a, price, ms).walking(b, price, ms),
    decreases a.len(),
{
    if a.len() == 0 {
        assert(a + b =~= b);
    } else {
        let p = a[0].ticked_on(v.book, price, ms);
        assert((a + b)[0] == a[0]);
        assert((a + b).skip(1) =~= a.skip(1) + b);
        lemma_walking_splits(v.settling(p, p.exit_on(v.book, price), ms), a.skip(1), b, price, ms);
    }
}

proof fn lemma_walking_behind(
    v: PortfolioView,
    front: Seq<OpenPosition>,
    rest: Seq<OpenPosition>,
    price: Real,
    ms: u64,
)
    ensures
        holding(v, front + v.active).walking(rest, price, ms) == holding(
            v.walking(rest, price, ms),
            front + v.walking(rest, price, ms).active,
        ),
    decreases rest.len(),
{
    if rest.len() > 0 {
        let p = rest[0].ticked_on(v.book, price, ms);
        let w = v.settling(p, p.exit_on(v.book, price), ms);
        assert((front + v.active).push(p) =~= front + v.active.push(p));
        assert(holding(v, front + v.active).settling(p, p.exit_on(v.book, price), ms) == holding(
            w,
            front + w.active,
        ));
        lemma_walking_behind(w, front, rest.skip(1), price, ms);
    }
}

proof fn lemma_ending_splits(
    v: PortfolioView,
    a: Seq<OpenPosition>,
    b: Seq<OpenPosition>,
    price: Real,
    ms: u64,
)
    ensures
        v.ending(a + b, price, ms) == v.ending(a, price, ms).ending(b, price, ms),
    decreases a.len(),
{
    if a.len() == 0 {
        assert(a + b =~= b);
    } else {
        assert((a + b)[0] == a[0]);
        assert((a + b).skip(1) =~= a.skip(1) + b);
        let p = a[0];
        let next = if p.fill_time_ms is Some || p.filled_contracts > 0 {
            v.closing(p, Exit { price, reason: "eof"@ }, ms)
        } else {
            v
        };
        lemma_ending_splits(next, a.skip(1), b, price, ms);
    }
}

proof fn lemma_ending_holds_nothing(v: PortfolioView, a: Seq<OpenPosition>, price: Real, ms: u64)
    ensures
        v.ending(a, price, ms).active == v.active,
    decreases a.len(),
{
    if a.len() > 0 {
        let p = a[0];
        let next = if p.fill_time_ms is Some || p.filled_contracts > 0 {
            v.closing(p, Exit { price, reason: "eof"@ }, ms)
        } else {
            v
        };
        lemma_ending_holds_nothing(next, a.skip(1), price, ms);
    }
}

/// A new entry rests behind the others, with nothing filled, and touches nothing else.
pub proof fn law_new_entry(v: PortfolioView, signal: TradeSignal, ms: u64)
    ensures
        ({
            let w = v.submitting(signal, ms);
            let p = w.active.last();
            &&& w == (PortfolioView { active: v.active.push(p), ..v })
            &&& p.signal == signal
            &&& p.submit_time_ms == ms
            &&& p.fill_time_ms is None
            &&& p.filled_contracts == 0
            &&& p.avg_fill_price == Real::from_u64(0)
        }),
{
}

/// Sniper entries are let in exactly while a golden entry of the timeframe and direction is
/// completely filled; an entry is active from its submission until it leaves.
pub proof fn law_sniper_entries_of_an_account(
    v: PortfolioView,
    timeframe: Timeframe,
    direction: PatternDirection,
    zone: EntryZone,
)
    ensures
        v.open_golden(timeframe, direction) <==> exists|i: int|
            0 <= i < v.active.len() && ({
                let p = #[trigger] v.active[i];
                &&& p.signal.timeframe == timeframe
                &&& p.signal.direction == direction
                &&& p.signal.entry_zone == EntryZone::Golden
                &&& p.fill_time_ms is Some
                &&& p.filled_contracts >= p.signal.contracts
            }),
        v.active_entry(timeframe, direction, zone) <==> exists|i: int|
            0 <= i < v.active.len() && ({
                let p = #[trigger] v.active[i];
                &&& p.signal.timeframe == timeframe
                &&& p.signal.direction == direction
                &&& p.signal.entry_zone == zone
            }),
{
}

} // verus!
