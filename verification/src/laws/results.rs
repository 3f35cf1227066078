//! What the figures of an account mean.

use crate::fibonacci::lemma_one;
use crate::metrics::daily_results;
use crate::metrics::daily_returns;
use crate::metrics::drawdown_of;
use crate::metrics::durations;
use crate::metrics::equity_after_days;
use crate::metrics::losses;
use crate::metrics::metrics_of;
use crate::metrics::multiples;
use crate::metrics::peak_of;
use crate::metrics::quiet_days;
use crate::metrics::sharpe_of;
use crate::metrics::squares;
use crate::metrics::sum_of;
use crate::metrics::wins;
use crate::number::Real;
use crate::order::law_numbers_round_to_themselves;
use crate::order::law_order_is_that_of_values;
use crate::order::law_plus_keeps_order;
use crate::order::law_plus_zero;
use crate::order::law_rounding_keeps_order;
use crate::portfolio::CompletedView;
use crate::portfolio::PortfolioView;
use crate::rounding::mag_units;
use crate::rounding::UNIT_EXP;
use vstd::arithmetic::power2::lemma2_to64;
use vstd::arithmetic::power2::lemma2_to64_rest;
use vstd::arithmetic::power2::lemma_pow2_adds;
use vstd::arithmetic::power2::lemma_pow2_pos;
use vstd::arithmetic::power2::pow2;
use vstd::prelude::*;

verus! {

/// The equity of an account after so many of its trades.
pub open spec fn equity_after(v: PortfolioView, k: int) -> Real {
    if k == 0 {
        v.starting_equity
    } else {
        v.completed[k - 1].equity_after
    }
}

/// Whether a number is the highest equity up to a trade: one of them, and less than none.
pub open spec fn highest_until(v: PortfolioView, k: int, p: Real) -> bool {
    &&& exists|i: int| 0 <= i <= k && p == #[trigger] equity_after(v, i)
    &&& forall|i: int| 0 <= i <= k ==> !p.lt(#[trigger] equity_after(v, i))
}

/// The share of a high that is lost at an equity.
pub open spec fn fall(high: Real, equity: Real) -> Real {
    high.minus(equity).over(high)
}

/// Whether an equity lies no further below the highest one so far than by some share of it.
pub open spec fn fell_no_further(v: PortfolioView, k: int, d: Real) -> bool {
    exists|p: Real| #[trigger] highest_until(v, k, p) && !d.lt(fall(p, equity_after(v, k)))
}

/// Whether an equity lies below the highest one so far by just this share of it.
pub open spec fn fell_so_far(v: PortfolioView, k: int, d: Real) -> bool {
    exists|p: Real| #[trigger] highest_until(v, k, p) && d == fall(p, equity_after(v, k))
}

/// The largest fall is the largest share that was ever lost of the highest equity so far: no trade
/// left the account further below its highest equity, and one left it just as far, unless none left
/// it below at all.
pub proof fn law_largest_fall(v: PortfolioView) -> (d: Real)
    requires
        v.completed.len() > 0,
    ensures
        metrics_of(v).max_drawdown_pct == d.times(Real::from_u64(100)),
        forall|k: int| 1 <= k <= v.completed.len() ==> #[trigger] fell_no_further(v, k, d),
        d == Real::from_u64(0) || exists|k: int|
            1 <= k <= v.completed.len() && #[trigger] fell_so_far(v, k, d),
{
    let n = v.completed.len();
    assert(v.completed.take(n as int) =~= v.completed);
    lemma_falls(v, n);
    drawdown_of(v.starting_equity, v.completed)
}

proof fn lemma_high(v: PortfolioView, n: nat)
    requires
        n <= v.completed.len(),
    ensures
        highest_until(v, n as int, peak_of(v.starting_equity, v.completed.take(n as int))),
    decreases n,
{
    let s = v.completed.take(n as int);
    let start = v.starting_equity;
    let top = peak_of(start, s);
    if n == 0 {
        assert(equity_after(v, 0) == start);
    } else {
        let m = (n - 1) as nat;
        lemma_high(v, m);
        assert(s.drop_last() =~= v.completed.take(m as int));
        assert(s.last() == v.completed[n - 1]);
        let e = equity_after(v, n as int);
        let before = peak_of(start, s.drop_last());
        assert(top == if before.lt(e) { e } else { before });
        let i = choose|i: int| 0 <= i <= m && before == #[trigger] equity_after(v, i);
        assert(top == equity_after(v, i) || top == equity_after(v, n as int));
        assert forall|i: int| 0 <= i <= n implies !top.lt(#[trigger] equity_after(v, i)) by {
            if i < n {
                assert(!before.lt(equity_after(v, i)));
            }
        }
    }
}

proof fn lemma_no_further(v: PortfolioView, k: int, d: Real, e: Real)
    requires
        fell_no_further(v, k, d),
        d.lt(e),
    ensures
        fell_no_further(v, k, e),
{
    let p = choose|p: Real| #[trigger]
        highest_until(v, k, p) && !d.lt(fall(p, equity_after(v, k)));
    assert(highest_until(v, k, p));
}

proof fn lemma_falls(v: PortfolioView, n: nat)
    requires
        n <= v.completed.len(),
    ensures
        ({
            let d = drawdown_of(v.starting_equity, v.completed.take(n as int));
            &&& forall|k: int| 1 <= k <= n ==> #[trigger] fell_no_further(v, k, d)
            &&& d == Real::from_u64(0) || exists|k: int| 1 <= k <= n && #[trigger] fell_so_far(v, k, d)
        }),
    decreases n,
{
    let s = v.completed.take(n as int);
    let start = v.starting_equity;
    if n > 0 {
        let m = (n - 1) as nat;
        lemma_falls(v, m);
        lemma_high(v, n);
        assert(s.drop_last() =~= v.completed.take(m as int));
        assert(s.last() == v.completed[n - 1]);
        let d0 = drawdown_of(start, s.drop_last());
        let top = peak_of(start, s);
        let x = fall(top, equity_after(v, n as int));
        let d = drawdown_of(start, s);
        assert(d == if d0.lt(x) { x } else { d0 });
        assert(highest_until(v, n as int, top));
        assert(fell_no_further(v, n as int, d));
        assert forall|k: int| 1 <= k <= n implies #[trigger] fell_no_further(v, k, d) by {
            if k < n && d0.lt(x) {
                assert(fell_no_further(v, k, d0));
                lemma_no_further(v, k, d0, d);
            }
        }
        if d0.lt(x) {
            assert(fell_so_far(v, n as int, d));
        }
    }
}

/// An account that is never empty loses no more than all of its highest equity: the fall from a
/// positive high to an equity that is not negative is at most the whole of it.
pub proof fn law_falls_are_shares(high: Real, equity: Real)
    requires
        high.finite(),
        equity.finite(),
        !equity.neg(),
        Real::from_u64(0).lt(high),
        equity.le(high),
    ensures
        fall(high, equity).le(Real::from_u64(1)),
        Real::from_u64(0).le(fall(high, equity)),
{
    crate::ladder::lemma_zero_is_zero();
    let none = Real { bits: 0 };
    let x = high.minus(equity);
    law_plus_zero(high);
    law_plus_keeps_order(equity.negated(), none, high);
    assert(x.le(high));
    law_plus_keeps_order(equity, high, equity.negated());
    lemma_self_minus(equity);
    assert(none.le(x));
    lemma_share(x, high);
}

proof fn lemma_self_minus(x: Real)
    requires
        x.finite(),
    ensures
        x.minus(x).zero(),
{
    reveal(Real::spec_plus);
    assert(x.negated().units() == -x.units());
}

proof fn lemma_share(x: Real, p: Real)
    requires
        p.finite(),
        !p.zero(),
        !p.neg(),
        (Real { bits: 0 }).le(x),
        x.le(p),
    ensures
        x.over(p).le(Real::from_u64(1)),
        (Real { bits: 0 }).le(x.over(p)),
{
    reveal(Real::spec_over);
    lemma_one();
    let one = Real { bits: 0x3ff0_0000_0000_0000 };
    lemma2_to64();
    lemma2_to64_rest();
    lemma_pow2_adds(52, 1022);
    let k = pow2(UNIT_EXP as nat);
    lemma_pow2_pos(UNIT_EXP as nat);
    assert(mag_units(one.mag()) == k);
    let (a, b) = (mag_units(x.mag()), mag_units(p.mag()));
    law_order_is_that_of_values(x, p);
    law_order_is_that_of_values(Real { bits: 0 }, p);
    assert(b > 0);
    assert(a * k <= b * k) by (nonlinear_arith)
        requires
            a <= b,
    ;
    law_rounding_keeps_order(a * k, b * k, b);
    law_numbers_round_to_themselves(one, b);
    vstd::arithmetic::mul::lemma_mul_is_commutative(k as int, b as int);
    crate::order::lemma_signed(
        x.neg() != p.neg(),
        crate::rounding::nearest_mag(a * k, b),
    );
    if x.neg() {
        assert(x.zero());
        assert(a == 0);
        assert(a * k == 0) by (nonlinear_arith)
            requires
                a == 0,
        ;
        crate::number::lemma_nearest_zero(b);
    }
}

/// The sum of a figure over some trades, in their order.
pub open spec fn added(trades: Seq<CompletedView>, f: spec_fn(CompletedView) -> Real) -> Real {
    trades.fold_left(
        Real::from_u64(0).negated(),
        |sum: Real, t: CompletedView| sum.plus(f(t)),
    )
}

/// The trades that won.
pub open spec fn winning(trades: Seq<CompletedView>) -> Seq<CompletedView> {
    trades.filter(|t: CompletedView| Real::from_u64(0).lt(t.pnl_usdt))
}

/// The trades that lost.
pub open spec fn losing(trades: Seq<CompletedView>) -> Seq<CompletedView> {
    trades.filter(|t: CompletedView| t.pnl_usdt.lt(Real::from_u64(0)))
}

/// The figures of an account are those of its trades: the return in hundredths of the start, counts
/// and sums of winners and losers, what was won per unit lost, and means over all trades.
pub proof fn law_figures(v: PortfolioView)
    requires
        0 < v.completed.len() <= usize::MAX,
    ensures
        ({
            let m = metrics_of(v);
            let all = v.completed;
            let n = Real::from_u64(all.len() as u64);
            let zero = Real::from_u64(0);
            &&& m.starting_equity == v.starting_equity
            &&& m.ending_equity == v.equity
            &&& m.total_return_pct == v.equity.minus(v.starting_equity).over(v.starting_equity).times(
                Real::from_u64(100),
            )
            &&& m.total_trades == all.len()
            &&& m.winners == winning(all).len()
            &&& m.losers == losing(all).len()
            &&& m.win_rate == Real::from_u64(winning(all).len() as u64).over(n)
            &&& m.gross_win == added(winning(all), |t: CompletedView| t.pnl_usdt)
            &&& m.gross_loss == added(losing(all), |t: CompletedView| t.pnl_usdt).magnitude()
            &&& m.total_pnl == m.gross_win.minus(m.gross_loss)
            &&& zero.lt(m.gross_loss) ==> m.profit_factor == m.gross_win.over(m.gross_loss)
            &&& !zero.lt(m.gross_loss) && zero.lt(m.gross_win) ==> m.profit_factor.infinite()
                && !m.profit_factor.neg()
            &&& !zero.lt(m.gross_loss) && !zero.lt(m.gross_win) ==> m.profit_factor == zero
            &&& m.avg_r_multiple == added(all, |t: CompletedView| t.r_multiple).over(n)
            &&& m.avg_trade_duration_sec == added(
                all,
                |t: CompletedView| Real::from_u64(t.duration_ms).over(Real::from_u64(1000)),
            ).over(n)
        }),
{
    let all = v.completed;
    let pnl = |t: CompletedView| t.pnl_usdt;
    lemma_wins(all);
    lemma_losses(all);
    lemma_added(winning(all), pnl);
    lemma_added(losing(all), pnl);
    let r = |t: CompletedView| t.r_multiple;
    lemma_added(all, r);
    assert(multiples(all) =~= all.map_values(r));
    let d = |t: CompletedView| Real::from_u64(t.duration_ms).over(Real::from_u64(1000));
    lemma_added(all, d);
    assert(durations(all) =~= all.map_values(d));
    assert(winning(all).len() <= all.len() && losing(all).len() <= all.len());
}

proof fn lemma_added(trades: Seq<CompletedView>, f: spec_fn(CompletedView) -> Real)
    ensures
        sum_of(trades.map_values(f)) == added(trades, f),
    decreases trades.len(),
{
    let xs = trades.map_values(f);
    if trades.len() > 0 {
        lemma_added(trades.drop_last(), f);
        assert(xs.drop_last() =~= trades.drop_last().map_values(f));
    }
}

proof fn lemma_wins(trades: Seq<CompletedView>)
    ensures
        wins(trades) == winning(trades).map_values(|t: CompletedView| t.pnl_usdt),
        winning(trades).len() <= trades.len(),
    decreases trades.len(),
{
    reveal(Seq::filter);
    let f = |t: CompletedView| t.pnl_usdt;
    if trades.len() > 0 {
        lemma_wins(trades.drop_last());
        assert(wins(trades) =~= winning(trades).map_values(f));
    } else {
        assert(wins(trades) =~= winning(trades).map_values(f));
    }
}

proof fn lemma_losses(trades: Seq<CompletedView>)
    ensures
        losses(trades) == losing(trades).map_values(|t: CompletedView| t.pnl_usdt),
        losing(trades).len() <= trades.len(),
    decreases trades.len(),
{
    reveal(Seq::filter);
    let f = |t: CompletedView| t.pnl_usdt;
    if trades.len() > 0 {
        lemma_losses(trades.drop_last());
        assert(losses(trades) =~= losing(trades).map_values(f));
    } else {
        assert(losses(trades) =~= losing(trades).map_values(f));
    }
}

/// The sum of some numbers, in their order.
pub open spec fn summed(xs: Seq<Real>) -> Real {
    xs.fold_left(Real::from_u64(0).negated(), |sum: Real, x: Real| sum.plus(x))
}

proof fn lemma_summed(xs: Seq<Real>)
    ensures
        sum_of(xs) == summed(xs),
    decreases xs.len(),
{
    if xs.len() > 0 {
        lemma_summed(xs.drop_last());
    }
}

/// The annual ratio: the mean of the daily returns over their deviation, times the root of 365. A
/// return is what a day makes of the equity that it begins with, less one; days between the first and
/// the last result return nothing but count. The deviation is the root of the mean square distance
/// from the mean, over one day less.
pub proof fn law_annual_ratio(start: Real, trades: Seq<CompletedView>)
    ensures
        ({
            let days = daily_results(trades);
            let gains = daily_returns(start, days);
            let quiet = quiet_days(start, days);
            let n = gains.len() + quiet;
            let mean = summed(gains).over(Real::from_u64(n as u64));
            let around = gains.map_values(|x: Real| x.minus(mean).times(x.minus(mean)));
            let spread = summed(around).plus(Real::from_u64(quiet as u64).times(mean.times(mean)));
            let deviation = spread.over(Real::from_u64((n - 1) as u64)).sqrt();
            &&& days.len() >= 2 && n >= 2 && !deviation.same(Real::from_u64(0)) ==> sharpe_of(
                start,
                trades,
            ) == mean.over(deviation).times(Real::from_u64(365).sqrt())
            &&& days.len() < 2 || n < 2 || deviation.same(Real::from_u64(0)) ==> !sharpe_of(
                start,
                trades,
            ).is_number()
        }),
{
    let days = daily_results(trades);
    let gains = daily_returns(start, days);
    lemma_summed(gains);
    let n = gains.len() + quiet_days(start, days);
    let mean = summed(gains).over(Real::from_u64(n as u64));
    lemma_summed(squares(gains, mean));
    assert(squares(gains, mean) =~= gains.map_values(|x: Real| x.minus(mean).times(x.minus(mean))));
}

/// The return of a day: where it begins with positive equity, the equity after it over that before
/// it, less one; where it does not, it counts for nothing. The equity grows by the results.
pub proof fn law_daily_returns(start: Real, days: Seq<(u64, Real)>, next: (u64, Real))
    ensures
        equity_after_days(start, Seq::empty()) == start,
        daily_returns(start, Seq::empty()) == Seq::<Real>::empty(),
        quiet_days(start, Seq::empty()) == 0,
        quiet_days(start, seq![next]) == 0,
        ({
            let all = days.push(next);
            let before = equity_after_days(start, days);
            let after = equity_after_days(start, all);
            let alive = Real::from_u64(0).lt(before);
            &&& after == before.plus(next.1)
            &&& alive ==> daily_returns(start, all) == daily_returns(start, days).push(
                after.over(before).minus(Real::from_u64(1)),
            )
            &&& !alive ==> daily_returns(start, all) == daily_returns(start, days)
            &&& days.len() > 0 && alive && days.last().0 < next.0 ==> quiet_days(start, all)
                == quiet_days(start, days) + (next.0 - days.last().0) - 1
            &&& days.len() > 0 && !alive ==> quiet_days(start, all) == quiet_days(start, days)
        }),
{
    assert(days.push(next).drop_last() =~= days);
}

/// The result of a day.
pub open spec fn result_on(days: Seq<(u64, Real)>, day: u64) -> Option<Real>
    decreases days.len(),
{
    if days.len() == 0 {
        None
    } else if days.last().0 == day {
        Some(days.last().1)
    } else {
        result_on(days.drop_last(), day)
    }
}

/// A trade adds its result to the day on which it ends, counted in whole days of UTC, and to no
/// other day. A day without trades has no result.
pub proof fn law_results_of_days(trades: Seq<CompletedView>, t: CompletedView, day: u64)
    ensures
        result_on(daily_results(Seq::empty()), day) is None,
        ({
            let before = result_on(daily_results(trades), day);
            let after = result_on(daily_results(trades.push(t)), day);
            let ends = t.exit_time_ms / 86_400_000;
            &&& ends != day ==> after == before
            &&& ends == day && before is None ==> after == Some(Real::from_u64(0).plus(t.pnl_usdt))
            &&& ends == day && before is Some ==> after == Some(before->0.plus(t.pnl_usdt))
        }),
{
    assert(trades.push(t).drop_last() =~= trades);
    crate::metrics::law_daily_results_in_order(trades);
    lemma_result_on(daily_results(trades), t.exit_time_ms / 86_400_000, t.pnl_usdt, day);
}

proof fn lemma_front(x: (u64, Real), rest: Seq<(u64, Real)>, day: u64)
    ensures
        result_on(seq![x] + rest, day) == if result_on(rest, day) is Some {
            result_on(rest, day)
        } else if x.0 == day {
            Some(x.1)
        } else {
            None
        },
    decreases rest.len(),
{
    let all = seq![x] + rest;
    if rest.len() == 0 {
        assert(all.drop_last() =~= Seq::<(u64, Real)>::empty());
        assert(all.last() == x);
        reveal_with_fuel(result_on, 2);
    } else {
        assert(all.drop_last() =~= seq![x] + rest.drop_last());
        assert(all.last() == rest.last());
        lemma_front(x, rest.drop_last(), day);
    }
}

proof fn lemma_not_there(days: Seq<(u64, Real)>, day: u64)
    requires
        forall|i: int| 0 <= i < days.len() ==> (#[trigger] days[i]).0 != day,
    ensures
        result_on(days, day) is None,
    decreases days.len(),
{
    if days.len() > 0 {
        let head = days.drop_last();
        assert(days.last() == days[days.len() - 1]);
        assert forall|i: int| 0 <= i < head.len() implies (#[trigger] head[i]).0 != day by {
            assert(head[i] == days[i]);
        }
        lemma_not_there(head, day);
    }
}

proof fn lemma_result_on(days: Seq<(u64, Real)>, at: u64, x: Real, day: u64)
    requires
        crate::metrics::days_in_order(days),
    ensures
        ({
            let before = result_on(days, day);
            let after = result_on(crate::metrics::with_result(days, at, x), day);
            &&& at != day ==> after == before
            &&& at == day && before is None ==> after == Some(Real::from_u64(0).plus(x))
            &&& at == day && before is Some ==> after == Some(before->0.plus(x))
        }),
    decreases days.len(),
{
    if days.len() == 0 || at < days[0].0 {
        lemma_front((at, Real::from_u64(0).plus(x)), days, day);
        assert forall|i: int| 0 <= i < days.len() implies (#[trigger] days[i]).0 != at by {
            assert(i == 0 || days[0].0 < days[i].0);
        }
        lemma_not_there(days, at);
    } else {
        let rest = days.skip(1);
        assert(days =~= seq![days[0]] + rest);
        assert forall|i: int, j: int| 0 <= i < j < rest.len() implies (#[trigger] rest[i]).0 < (
        #[trigger] rest[j]).0 by {
            assert(rest[i] == days[i + 1] && rest[j] == days[j + 1]);
        }
        assert forall|i: int| 0 <= i < rest.len() implies (#[trigger] rest[i]).0 != days[0].0 by {
            assert(rest[i] == days[i + 1]);
        }
        lemma_not_there(rest, days[0].0);
        lemma_front(days[0], rest, day);
        if days[0].0 == at {
            lemma_front((at, days[0].1.plus(x)), rest, day);
        } else {
            lemma_result_on(rest, at, x, day);
            lemma_front(days[0], crate::metrics::with_result(rest, at, x), day);
        }
    }
}

} // verus!
