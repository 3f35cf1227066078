//! The results of a simulated account.

use crate::fixed::fixed_text;
use crate::number::abs;
use crate::number::nan;
use crate::number::rounded;
use crate::number::Real;
use crate::number::NAN_BITS;
use crate::order::lemma_signed;
use crate::parse::lemma_from_small;
use crate::portfolio::completed_views;
use crate::portfolio::BacktestPortfolio;
use crate::portfolio::CompletedTrade;
use crate::portfolio::CompletedView;
use crate::portfolio::PortfolioView;
use crate::rounding::nearest_mag;
use crate::rounding::INF_MAG;
use crate::rounding::UNIT_EXP;
use crate::text::decimal;
use crate::text::decimal_text;
use vstd::arithmetic::power2::lemma_pow2_pos;
use vstd::arithmetic::power2::pow2;
use vstd::prelude::*;
use vstd::string::*;

verus! {

/// Milliseconds of a day.
pub const DAY_MS: u64 = 86_400_000;

/// The sum of some numbers, added in order. That of no numbers is the negative zero, to which
/// every number can be added without a change.
pub open spec fn sum_of(xs: Seq<Real>) -> Real
    decreases xs.len(),
{
    if xs.len() == 0 {
        Real::from_u64(0).negated()
    } else {
        sum_of(xs.drop_last()).plus(xs.last())
    }
}

/// The results of the trades that won.
pub open spec fn wins(trades: Seq<CompletedView>) -> Seq<Real>
    decreases trades.len(),
{
    if trades.len() == 0 {
        Seq::empty()
    } else {
        let head = wins(trades.drop_last());
        let x = trades.last().pnl_usdt;
        if Real::from_u64(0).lt(x) {
            head.push(x)
        } else {
            head
        }
    }
}

/// The results of the trades that lost.
pub open spec fn losses(trades: Seq<CompletedView>) -> Seq<Real>
    decreases trades.len(),
{
    if trades.len() == 0 {
        Seq::empty()
    } else {
        let head = losses(trades.drop_last());
        let x = trades.last().pnl_usdt;
        if x.lt(Real::from_u64(0)) {
            head.push(x)
        } else {
            head
        }
    }
}

/// The multiples of risk of some trades.
pub open spec fn multiples(trades: Seq<CompletedView>) -> Seq<Real> {
    trades.map_values(|t: CompletedView| t.r_multiple)
}

/// The durations of some trades in seconds.
pub open spec fn durations(trades: Seq<CompletedView>) -> Seq<Real> {
    trades.map_values(|t: CompletedView| Real::from_u64(t.duration_ms).over(Real::from_u64(1000)))
}

/// The highest equity so far.
pub open spec fn peak_of(start: Real, trades: Seq<CompletedView>) -> Real
    decreases trades.len(),
{
    if trades.len() == 0 {
        start
    } else {
        let p = peak_of(start, trades.drop_last());
        if p.lt(trades.last().equity_after) {
            trades.last().equity_after
        } else {
            p
        }
    }
}

/// The largest fall from the highest equity so far, as a share of it.
pub open spec fn drawdown_of(start: Real, trades: Seq<CompletedView>) -> Real
    decreases trades.len(),
{
    if trades.len() == 0 {
        Real::from_u64(0)
    } else {
        let d = drawdown_of(start, trades.drop_last());
        let p = peak_of(start, trades);
        let x = p.minus(trades.last().equity_after).over(p);
        if d.lt(x) {
            x
        } else {
            d
        }
    }
}

/// Daily results with one more result added to its day. Days stand in order.
pub open spec fn with_result(days: Seq<(u64, Real)>, day: u64, x: Real) -> Seq<(u64, Real)>
    decreases days.len(),
{
    if days.len() == 0 || day < days[0].0 {
        seq![(day, Real::from_u64(0).plus(x))] + days
    } else if days[0].0 == day {
        seq![(day, days[0].1.plus(x))] + days.skip(1)
    } else {
        seq![days[0]] + with_result(days.skip(1), day, x)
    }
}

/// The result of each day on which a trade ended.
pub open spec fn daily_results(trades: Seq<CompletedView>) -> Seq<(u64, Real)>
    decreases trades.len(),
{
    if trades.len() == 0 {
        Seq::empty()
    } else {
        with_result(
            daily_results(trades.drop_last()),
            trades.last().exit_time_ms / DAY_MS,
            trades.last().pnl_usdt,
        )
    }
}

/// The equity after some days.
pub open spec fn equity_after_days(start: Real, days: Seq<(u64, Real)>) -> Real
    decreases days.len(),
{
    if days.len() == 0 {
        start
    } else {
        equity_after_days(start, days.drop_last()).plus(days.last().1)
    }
}

/// The return of each day on which a trade ended and that began with positive equity.
pub open spec fn daily_returns(start: Real, days: Seq<(u64, Real)>) -> Seq<Real>
    decreases days.len(),
{
    if days.len() == 0 {
        Seq::empty()
    } else {
        let head = daily_returns(start, days.drop_last());
        let before = equity_after_days(start, days.drop_last());
        let after = before.plus(days.last().1);
        if Real::from_u64(0).lt(before) {
            head.push(after.over(before).minus(Real::from_u64(1)))
        } else {
            head
        }
    }
}

/// The number of days without a result, between the first and the last day with one, that began
/// with positive equity. The equity stays on such a day, so its return is zero.
pub open spec fn quiet_days(start: Real, days: Seq<(u64, Real)>) -> nat
    decreases days.len(),
{
    if days.len() < 2 {
        0
    } else {
        let head = days.drop_last();
        quiet_days(start, head) + if Real::from_u64(0).lt(equity_after_days(start, head)) {
            (days.last().0 - head.last().0 - 1) as nat
        } else {
            0
        }
    }
}

/// The squared distances of some numbers from a mean.
pub open spec fn squares(xs: Seq<Real>, mean: Real) -> Seq<Real> {
    xs.map_values(|x: Real| x.minus(mean).times(x.minus(mean)))
}

/// The annual ratio of mean return to its deviation, over every day from the first to the last
/// day on which a trade ended; no number with fewer than two such days, fewer than two returns, or
/// no deviation.
pub open spec fn sharpe_of(start: Real, trades: Seq<CompletedView>) -> Real {
    ratio_of(start, daily_results(trades))
}

/// The annual ratio of mean return to its deviation, from the results of days. Days between them
/// have a return of zero, at the distance of the mean from it.
pub open spec fn ratio_of(start: Real, days: Seq<(u64, Real)>) -> Real {
    let gains = daily_returns(start, days);
    let quiet = quiet_days(start, days);
    let n = gains.len() + quiet;
    let mean = sum_of(gains).over(Real::from_u64(n as u64));
    let spread = sum_of(squares(gains, mean)).plus(
        Real::from_u64(quiet as u64).times(mean.times(mean)),
    );
    let deviation = spread.over(Real::from_u64((n - 1) as u64)).sqrt();
    if days.len() < 2 || n < 2 || deviation.same(Real::from_u64(0)) {
        nan()
    } else {
        mean.over(deviation).times(Real::from_u64(365).sqrt())
    }
}

/// Winnings per loss: infinite without losses, zero without either.
pub open spec fn profit_factor_of(gross_win: Real, gross_loss: Real) -> Real {
    if Real::from_u64(0).lt(gross_loss) {
        gross_win.over(gross_loss)
    } else if Real::from_u64(0).lt(gross_win) {
        Real { bits: INF_MAG }
    } else {
        Real::from_u64(0)
    }
}

/// The results of an account.
#[derive(Debug, Clone, Copy, PartialEq, Eq, Structural)]
pub struct BacktestMetrics {
    pub starting_equity: Real,
    pub ending_equity: Real,
    pub total_return_pct: Real,
    pub total_trades: usize,
    pub winners: usize,
    pub losers: usize,
    pub win_rate: Real,
    pub profit_factor: Real,
    pub avg_r_multiple: Real,
    pub max_drawdown_pct: Real,
    pub sharpe_annualized: Real,
    pub avg_trade_duration_sec: Real,
    pub total_pnl: Real,
    pub gross_win: Real,
    pub gross_loss: Real,
}

/// The results of an account by its state.
pub open spec fn metrics_of(v: PortfolioView) -> BacktestMetrics {
    let trades = v.completed;
    let zero = Real::from_u64(0);
    let n = Real::from_u64(trades.len() as u64);
    let gross_win = sum_of(wins(trades));
    let gross_loss = sum_of(losses(trades)).magnitude();
    let hundred = Real::from_u64(100);
    if trades.len() == 0 {
        BacktestMetrics {
            starting_equity: v.starting_equity,
            ending_equity: v.equity,
            total_return_pct: zero,
            total_trades: 0,
            winners: 0,
            losers: 0,
            win_rate: zero,
            profit_factor: zero,
            avg_r_multiple: zero,
            max_drawdown_pct: zero,
            sharpe_annualized: nan(),
            avg_trade_duration_sec: zero,
            total_pnl: zero,
            gross_win: zero,
            gross_loss: zero,
        }
    } else {
        BacktestMetrics {
            starting_equity: v.starting_equity,
            ending_equity: v.equity,
            total_return_pct: v.equity.minus(v.starting_equity).over(v.starting_equity).times(hundred),
            total_trades: trades.len() as usize,
            winners: wins(trades).len() as usize,
            losers: losses(trades).len() as usize,
            win_rate: Real::from_u64(wins(trades).len() as u64).over(n),
            profit_factor: profit_factor_of(gross_win, gross_loss),
            avg_r_multiple: sum_of(multiples(trades)).over(n),
            max_drawdown_pct: drawdown_of(v.starting_equity, trades).times(hundred),
            sharpe_annualized: sharpe_of(v.starting_equity, trades),
            avg_trade_duration_sec: sum_of(durations(trades)).over(n),
            total_pnl: gross_win.minus(gross_loss),
            gross_win,
            gross_loss,
        }
    }
}

/// The sum of some numbers, added in order.
fn sum(xs: &Vec<Real>) -> (r: Real)
    ensures
        r == sum_of(xs@),
{
    let mut r: Real = Real::from_u64(0).negated();
    let mut i: usize = 0;
    while i < xs.len()
        invariant
            i <= xs@.len(),
            r == sum_of(xs@.take(i as int)),
        decreases xs@.len() - i,
    {
        proof {
            assert(xs@.take(i + 1).drop_last() =~= xs@.take(i as int));
        }
        r = r.plus(xs[i]);
        i = i + 1;
    }
    proof {
        assert(xs@.take(i as int) =~= xs@);
    }
    r
}

impl BacktestMetrics {
    /// The results of an account.
    pub fn compute(portfolio: &BacktestPortfolio) -> (r: Self)
        ensures
            r == metrics_of(portfolio@),
    {
        let trades: &Vec<CompletedTrade> = portfolio.completed();
        let ghost all = portfolio@.completed;
        let n: usize = trades.len();
        let zero: Real = Real::from_u64(0);
        let start: Real = portfolio.starting_equity();
        if n == 0 {
            return BacktestMetrics {
                starting_equity: start,
                ending_equity: portfolio.equity(),
                total_return_pct: zero,
                total_trades: 0,
                winners: 0,
                losers: 0,
                win_rate: zero,
                profit_factor: zero,
                avg_r_multiple: zero,
                max_drawdown_pct: zero,
                sharpe_annualized: Real { bits: NAN_BITS },
                avg_trade_duration_sec: zero,
                total_pnl: zero,
                gross_win: zero,
                gross_loss: zero,
            };
        }
        let mut won: Vec<Real> = Vec::new();
        let mut lost: Vec<Real> = Vec::new();
        let mut ratios: Vec<Real> = Vec::new();
        let mut seconds: Vec<Real> = Vec::new();
        let mut peak: Real = start;
        let mut max_dd: Real = zero;
        let thousand: Real = Real::from_u64(1000);
        let mut i: usize = 0;
        proof {
            assert(all.take(0) =~= Seq::<CompletedView>::empty());
            assert(multiples(all.take(0)) =~= Seq::<Real>::empty());
            assert(durations(all.take(0)) =~= Seq::<Real>::empty());
        }
        while i < n
            invariant
                i <= n,
                n == trades@.len(),
                all == completed_views(trades@),
                zero == Real::from_u64(0),
                thousand == Real::from_u64(1000),
                won@ == wins(all.take(i as int)),
                lost@ == losses(all.take(i as int)),
                ratios@ == multiples(all.take(i as int)),
                seconds@ == durations(all.take(i as int)),
                peak == peak_of(start, all.take(i as int)),
                max_dd == drawdown_of(start, all.take(i as int)),
                won@.len() <= i,
                lost@.len() <= i,
            decreases n - i,
        {
            let t: &CompletedTrade = &trades[i];
            proof {
                let s = all.take(i + 1);
                assert(s.drop_last() =~= all.take(i as int));
                assert(s.last() == t@);
                assert(multiples(s) =~= multiples(all.take(i as int)).push(t@.r_multiple));
                assert(durations(s) =~= durations(all.take(i as int)).push(
                    Real::from_u64(t@.duration_ms).over(thousand),
                ));
            }
            if zero.lt(t.pnl_usdt) {
                won.push(t.pnl_usdt);
            }
            if t.pnl_usdt.lt(zero) {
                lost.push(t.pnl_usdt);
            }
            ratios.push(t.r_multiple);
            seconds.push(Real::from_u64(t.duration_ms).over(thousand));
            if peak.lt(t.equity_after) {
                peak = t.equity_after;
            }
            let dd: Real = peak.minus(t.equity_after).over(peak);
            if max_dd.lt(dd) {
                max_dd = dd;
            }
            i = i + 1;
        }
        proof {
            assert(all.take(n as int) =~= all);
        }
        let gross_win: Real = sum(&won);
        let gross_loss: Real = sum(&lost).magnitude();
        let count: Real = Real::from_u64(n as u64);
        let hundred: Real = Real::from_u64(100);
        let profit_factor: Real = if zero.lt(gross_loss) {
            gross_win.over(gross_loss)
        } else if zero.lt(gross_win) {
            Real { bits: INF_MAG }
        } else {
            zero
        };
        let equity: Real = portfolio.equity();
        BacktestMetrics {
            starting_equity: start,
            ending_equity: equity,
            total_return_pct: equity.minus(start).over(start).times(hundred),
            total_trades: n,
            winners: won.len(),
            losers: lost.len(),
            win_rate: Real::from_u64(won.len() as u64).over(count),
            profit_factor,
            avg_r_multiple: sum(&ratios).over(count),
            max_drawdown_pct: max_dd.times(hundred),
            sharpe_annualized: Self::compute_sharpe(start, trades),
            avg_trade_duration_sec: sum(&seconds).over(count),
            total_pnl: gross_win.minus(gross_loss),
            gross_win,
            gross_loss,
        }
    }

    /// The annual ratio of mean return to its deviation.
    pub fn compute_sharpe(starting: Real, trades: &Vec<CompletedTrade>) -> (r: Real)
        ensures
            r == sharpe_of(starting, completed_views(trades@)),
    {
        let ghost all = completed_views(trades@);
        let mut days: Vec<(u64, Real)> = Vec::new();
        let mut i: usize = 0;
        proof {
            assert(all.take(0) =~= Seq::<CompletedView>::empty());
        }
        while i < trades.len()
            invariant
                i <= trades@.len(),
                all == completed_views(trades@),
                days@ == daily_results(all.take(i as int)),
            decreases trades@.len() - i,
        {
            proof {
                assert(all.take(i + 1).drop_last() =~= all.take(i as int));
                assert(all.take(i + 1).last() == trades@[i as int]@);
            }
            add_result(&mut days, trades[i].exit_time_ms / DAY_MS, trades[i].pnl_usdt);
            i = i + 1;
        }
        proof {
            assert(all.take(i as int) =~= all);
        }
        let not_a_number = Real { bits: NAN_BITS };
        if days.len() < 2 {
            return not_a_number;
        }
        proof {
            law_daily_results_in_order(all);
            lemma_days_fit(all);
        }
        let (gains, quiet): (Vec<Real>, u64) = returns_by_day(starting, &days);
        let count: usize = gains.len();
        let n: u64 = count as u64 + quiet;
        if n < 2 {
            return not_a_number;
        }
        let mean: Real = sum(&gains).over(Real::from_u64(n));
        let mut distances: Vec<Real> = Vec::new();
        let mut j: usize = 0;
        while j < count
            invariant
                j <= count,
                count == gains@.len(),
                distances@ == squares(gains@.take(j as int), mean),
            decreases count - j,
        {
            let d: Real = gains[j].minus(mean);
            proof {
                assert(squares(gains@.take(j + 1), mean) =~= squares(gains@.take(j as int), mean).push(
                    d.times(d),
                ));
            }
            distances.push(d.times(d));
            j = j + 1;
        }
        proof {
            assert(gains@.take(count as int) =~= gains@);
        }
        let spread: Real = sum(&distances).plus(Real::from_u64(quiet).times(mean.times(mean)));
        let deviation: Real = spread.over(Real::from_u64(n - 1)).sqrt();
        if deviation.same(Real::from_u64(0)) {
            return not_a_number;
        }
        mean.over(deviation).times(Real::from_u64(365).sqrt())
    }

    /// The report of the results.
    pub fn report(&self) -> (s: String)
        ensures
            s@ == self.report_text(),
    {
        let hundred: Real = Real::from_u64(100);
        let mut s = "\n=== BACKTEST RESULTS ===\n  Starting equity       : $".to_owned();
        push_right(&mut s, self.starting_equity.fixed(2), 12);
        s.append("\n  Ending equity         : $");
        push_right(&mut s, self.ending_equity.fixed(2), 12);
        s.append("\n  Total return          :  ");
        push_right(&mut s, self.total_return_pct.fixed(2), 11);
        s.append("%\n  Total P&L             : $");
        push_right(&mut s, self.total_pnl.fixed(2), 12);
        s.append("\n\n  Total trades          :  ");
        push_right(&mut s, decimal_text(self.total_trades as u64), 12);
        s.append("\n    Winners             :  ");
        push_right(&mut s, decimal_text(self.winners as u64), 12);
        s.append("\n    Losers              :  ");
        push_right(&mut s, decimal_text(self.losers as u64), 12);
        s.append("\n    Win rate            :  ");
        push_right(&mut s, self.win_rate.times(hundred).fixed(2), 11);
        s.append("%\n\n  Profit factor         :  ");
        push_right(&mut s, self.profit_factor.fixed(3), 12);
        s.append("\n  Avg R multiple        :  ");
        push_right(&mut s, self.avg_r_multiple.fixed(3), 12);
        s.append("\n  Max drawdown          :  ");
        push_right(&mut s, self.max_drawdown_pct.fixed(2), 11);
        s.append("%\n  Sharpe (annualized)   :  ");
        push_right(&mut s, self.sharpe_annualized.fixed(3), 12);
        s.append("\n  Avg trade duration    :  ");
        push_right(&mut s, self.avg_trade_duration_sec.fixed(1), 9);
        s.append(" sec\n\n  Gross win             : $");
        push_right(&mut s, self.gross_win.fixed(2), 12);
        s.append("\n  Gross loss            : $");
        push_right(&mut s, self.gross_loss.fixed(2), 12);
        s.append("\n=========================\n\n");
        s
    }

    pub open spec fn report_text(self) -> Seq<char> {
        let hundred = Real::from_u64(100);
        "\n=== BACKTEST RESULTS ===\n  Starting equity       : $"@ + flush_right(
            fixed_text(self.starting_equity, 2),
            12,
        ) + "\n  Ending equity         : $"@ + flush_right(fixed_text(self.ending_equity, 2), 12)
            + "\n  Total return          :  "@ + flush_right(fixed_text(self.total_return_pct, 2), 11)
            + "%\n  Total P&L             : $"@ + flush_right(fixed_text(self.total_pnl, 2), 12)
            + "\n\n  Total trades          :  "@ + flush_right(decimal(self.total_trades as nat), 12)
            + "\n    Winners             :  "@ + flush_right(decimal(self.winners as nat), 12)
            + "\n    Losers              :  "@ + flush_right(decimal(self.losers as nat), 12)
            + "\n    Win rate            :  "@ + flush_right(fixed_text(self.win_rate.times(hundred), 2), 11)
            + "%\n\n  Profit factor         :  "@ + flush_right(fixed_text(self.profit_factor, 3), 12)
            + "\n  Avg R multiple        :  "@ + flush_right(fixed_text(self.avg_r_multiple, 3), 12)
            + "\n  Max drawdown          :  "@ + flush_right(fixed_text(self.max_drawdown_pct, 2), 11)
            + "%\n  Sharpe (annualized)   :  "@ + flush_right(fixed_text(self.sharpe_annualized, 3), 12)
            + "\n  Avg trade duration    :  "@ + flush_right(
            fixed_text(self.avg_trade_duration_sec, 1),
            9,
        ) + " sec\n\n  Gross win             : $"@ + flush_right(fixed_text(self.gross_win, 2), 12)
            + "\n  Gross loss            : $"@ + flush_right(fixed_text(self.gross_loss, 2), 12)
            + "\n=========================\n\n"@
    }
}

/// A text with blanks before it, so that it is at least `width` long.
pub open spec fn flush_right(t: Seq<char>, width: nat) -> Seq<char> {
    Seq::new((if t.len() < width { width - t.len() } else { 0 }) as nat, |i: int| ' ') + t
}

/// Appends a text with blanks before it.
fn push_right(s: &mut String, t: String, width: usize)
    ensures
        final(s)@ == old(s)@ + flush_right(t@, width as nat),
{
    let len: usize = t.as_str().unicode_len();
    let mut i: usize = len;
    let ghost start = s@;
    while i < width
        invariant
            len == t@.len(),
            len <= i,
            len < width ==> i <= width,
            len >= width ==> i == len,
            s@ == start + Seq::new((i - len) as nat, |k: int| ' '),
        decreases width - i,
    {
        s.append(" ");
        i = i + 1;
        proof {
            reveal_strlit(" ");
            assert(s@ =~= start + Seq::new((i - len) as nat, |k: int| ' '));
        }
    }
    s.append(t.as_str());
    proof {
        assert(s@ =~= start + flush_right(t@, width as nat));
    }
}

/// Adds a result to its day.
fn add_result(days: &mut Vec<(u64, Real)>, day: u64, x: Real)
    ensures
        final(days)@ == with_result(old(days)@, day, x),
{
    let ghost all = days@;
    let mut i: usize = 0;
    proof {
        assert(all.skip(0) =~= all);
        assert(all.take(0) + with_result(all.skip(0), day, x) =~= with_result(all, day, x));
    }
    while i < days.len() && days[i].0 < day
        invariant
            i <= days@.len(),
            days@ == all,
            all.take(i as int) + with_result(all.skip(i as int), day, x) == with_result(all, day, x),
        decreases days@.len() - i,
    {
        proof {
            let t = all.skip(i as int);
            assert(t.skip(1) =~= all.skip(i + 1));
            assert(t[0] == all[i as int]);
            assert(all.take(i as int) + (seq![t[0]] + with_result(t.skip(1), day, x)) =~= all.take(i + 1)
                + with_result(all.skip(i + 1), day, x));
        }
        i = i + 1;
    }
    let ghost t = all.skip(i as int);
    if i < days.len() && days[i].0 == day {
        let old_value: Real = days[i].1;
        days[i] = (day, old_value.plus(x));
        proof {
            assert(t[0] == all[i as int]);
            assert(days@ =~= all.take(i as int) + (seq![(day, t[0].1.plus(x))] + t.skip(1)));
        }
    } else {
        days.insert(i, (day, Real::from_u64(0).plus(x)));
        proof {
            if i < all.len() {
                assert(t[0] == all[i as int]);
            }
            assert(days@ =~= all.take(i as int) + (seq![(day, Real::from_u64(0).plus(x))] + t));
        }
    }
}

/// The return of each day on which a trade ended and that began with positive equity, and the
/// number of such days between them without a trade that ended.
fn returns_by_day(starting: Real, days: &Vec<(u64, Real)>) -> (r: (Vec<Real>, u64))
    requires
        days_in_order(days@),
        forall|i: int| 0 <= i < days@.len() ==> (#[trigger] days@[i]).0 < u64::MAX,
    ensures
        r.0@ == daily_returns(starting, days@),
        r.1 == quiet_days(starting, days@),
        r.0@.len() + r.1 <= u64::MAX,
{
    let zero: Real = Real::from_u64(0);
    let mut equity: Real = starting;
    let mut out: Vec<Real> = Vec::new();
    let mut quiet: u64 = 0;
    let mut i: usize = 0;
    while i < days.len()
        invariant
            i <= days@.len(),
            zero == Real::from_u64(0),
            days_in_order(days@),
            forall|k: int| 0 <= k < days@.len() ==> (#[trigger] days@[k]).0 < u64::MAX,
            equity == equity_after_days(starting, days@.take(i as int)),
            out@ == daily_returns(starting, days@.take(i as int)),
            quiet == quiet_days(starting, days@.take(i as int)),
            i == 0 ==> out@.len() + quiet == 0,
            i > 0 ==> out@.len() + quiet <= days@[i - 1].0 + 1,
        decreases days@.len() - i,
    {
        proof {
            let t = days@.take(i + 1);
            assert(t.drop_last() =~= days@.take(i as int));
            assert(t.last() == days@[i as int]);
            if i > 0 {
                assert(t.drop_last().last() == days@[i - 1]);
                assert(days@[i - 1].0 < days@[i as int].0);
            }
        }
        let prev: Real = equity;
        equity = equity.plus(days[i].1);
        if zero.lt(prev) {
            if i > 0 {
                quiet = quiet + (days[i].0 - days[i - 1].0 - 1);
            }
            out.push(equity.over(prev).minus(Real::from_u64(1)));
        }
        i = i + 1;
    }
    proof {
        assert(days@.take(i as int) =~= days@);
    }
    (out, quiet)
}

/// Days can be counted.
proof fn lemma_days_fit(trades: Seq<CompletedView>)
    ensures
        forall|i: int|
            0 <= i < daily_results(trades).len() ==> (#[trigger] daily_results(trades)[i]).0
                < u64::MAX,
    decreases trades.len(),
{
    if trades.len() > 0 {
        let head = trades.drop_last();
        lemma_days_fit(head);
        law_daily_results_in_order(head);
        let day = trades.last().exit_time_ms / DAY_MS;
        lemma_with_result_in_order(daily_results(head), day, trades.last().pnl_usdt);
    }
}

/// Whether days stand in order, each once.
pub open spec fn days_in_order(days: Seq<(u64, Real)>) -> bool {
    forall|i: int, j: int| 0 <= i < j < days.len() ==> (#[trigger] days[i]).0 < (#[trigger] days[j]).0
}

/// Daily results stand in the order of their days, one for each day.
pub proof fn law_daily_results_in_order(trades: Seq<CompletedView>)
    ensures
        days_in_order(daily_results(trades)),
    decreases trades.len(),
{
    if trades.len() > 0 {
        law_daily_results_in_order(trades.drop_last());
        lemma_with_result_in_order(
            daily_results(trades.drop_last()),
            trades.last().exit_time_ms / DAY_MS,
            trades.last().pnl_usdt,
        );
    }
}

proof fn lemma_with_result_in_order(days: Seq<(u64, Real)>, day: u64, x: Real)
    requires
        days_in_order(days),
    ensures
        days_in_order(with_result(days, day, x)),
        forall|k: int|
            0 <= k < with_result(days, day, x).len() ==> (#[trigger] with_result(days, day, x)[k]).0 == day
                || exists|m: int| 0 <= m < days.len() && days[m].0 == with_result(days, day, x)[k].0,
    decreases days.len(),
{
    let r = with_result(days, day, x);
    if days.len() == 0 || day < days[0].0 {
        assert forall|k: int| 0 <= k < r.len() implies (#[trigger] r[k]).0 == day || exists|m: int|
            0 <= m < days.len() && days[m].0 == r[k].0 by {
            if k > 0 {
                assert(days[k - 1].0 == r[k].0);
            }
        }
        assert forall|i: int, j: int| 0 <= i < j < r.len() implies (#[trigger] r[i]).0 < (#[trigger] r[j]).0 by {
            assert(r[j] == days[j - 1]);
            if i > 0 {
                assert(r[i] == days[i - 1]);
            } else if j > 1 {
                assert(days[0].0 < days[j - 1].0);
            }
        }
    } else if days[0].0 == day {
        assert forall|k: int| 0 <= k < r.len() implies (#[trigger] r[k]).0 == day || exists|m: int|
            0 <= m < days.len() && days[m].0 == r[k].0 by {
            assert(days[k].0 == r[k].0);
        }
        assert forall|i: int, j: int| 0 <= i < j < r.len() implies (#[trigger] r[i]).0 < (#[trigger] r[j]).0 by {
            assert(days[i].0 == r[i].0 && days[j].0 == r[j].0);
        }
    } else {
        let t = days.skip(1);
        assert forall|i: int, j: int| 0 <= i < j < t.len() implies (#[trigger] t[i]).0 < (#[trigger] t[j]).0 by {
            assert(t[i] == days[i + 1] && t[j] == days[j + 1]);
        }
        lemma_with_result_in_order(t, day, x);
        let w = with_result(t, day, x);
        assert forall|k: int| 0 <= k < r.len() implies (#[trigger] r[k]).0 == day || exists|m: int|
            0 <= m < days.len() && days[m].0 == r[k].0 by {
            if k == 0 {
                assert(days[0].0 == r[0].0);
            } else {
                assert(r[k] == w[k - 1]);
                if w[k - 1].0 != day {
                    let m = choose|m: int| 0 <= m < t.len() && t[m].0 == w[k - 1].0;
                    assert(days[m + 1].0 == r[k].0);
                }
            }
        }
        assert forall|i: int, j: int| 0 <= i < j < r.len() implies (#[trigger] r[i]).0 < (#[trigger] r[j]).0 by {
            assert(r[j] == w[j - 1]);
            if i > 0 {
                assert(r[i] == w[i - 1]);
            } else if w[j - 1].0 != day {
                let m = choose|m: int| 0 <= m < t.len() && t[m].0 == w[j - 1].0;
                assert(days[0].0 < days[m + 1].0);
            }
        }
    }
}

/// Trades that all end on one day give no annual ratio, nor do no trades at all.
pub proof fn law_sharpe_needs_two_days(start: Real, trades: Seq<CompletedView>)
    requires
        forall|i: int, j: int|
            0 <= i < trades.len() && 0 <= j < trades.len() ==> (#[trigger] trades[i]).exit_time_ms
                / DAY_MS == (#[trigger] trades[j]).exit_time_ms / DAY_MS,
    ensures
        sharpe_of(start, trades) == nan(),
{
    if trades.len() > 0 {
        lemma_one_day(trades, trades[0].exit_time_ms / DAY_MS);
    }
}

/// Trades that all end on one day have one daily result.
proof fn lemma_one_day(trades: Seq<CompletedView>, day: u64)
    requires
        forall|i: int| 0 <= i < trades.len() ==> (#[trigger] trades[i]).exit_time_ms / DAY_MS == day,
    ensures
        daily_results(trades).len() == if trades.len() == 0 { 0nat } else { 1 },
        trades.len() > 0 ==> daily_results(trades)[0].0 == day,
    decreases trades.len(),
{
    if trades.len() > 0 {
        let head = trades.drop_last();
        assert forall|i: int| 0 <= i < head.len() implies (#[trigger] head[i]).exit_time_ms / DAY_MS
            == day by {
            assert(head[i] == trades[i]);
        }
        lemma_one_day(head, day);
        assert(trades.last() == trades[trades.len() - 1]);
    }
}

/// A trade is a winner or a loser or neither, never both, and none is counted twice.
pub proof fn law_winners_and_losers(trades: Seq<CompletedView>)
    ensures
        wins(trades).len() + losses(trades).len() <= trades.len(),
    decreases trades.len(),
{
    if trades.len() > 0 {
        law_winners_and_losers(trades.drop_last());
    }
}

/// As long as days begin with positive equity, there is one return for every day from the first
/// to the last day on which a trade ended.
pub proof fn law_one_return_for_every_day(start: Real, days: Seq<(u64, Real)>)
    requires
        days.len() > 0,
        days_in_order(days),
        forall|k: int|
            0 <= k < days.len() ==> Real::from_u64(0).lt(
                #[trigger] equity_after_days(start, days.take(k)),
            ),
    ensures
        daily_returns(start, days).len() + quiet_days(start, days) == days.last().0 - days[0].0 + 1,
    decreases days.len(),
{
    let head = days.drop_last();
    let n = days.len();
    assert(days.take(n - 1) =~= head);
    assert(Real::from_u64(0).lt(equity_after_days(start, days.take(n - 1))));
    if n > 1 {
        assert forall|i: int, j: int| 0 <= i < j < head.len() implies (#[trigger] head[i]).0 < (
        #[trigger] head[j]).0 by {
            assert(head[i] == days[i] && head[j] == days[j]);
        }
        assert forall|k: int| 0 <= k < head.len() implies Real::from_u64(0).lt(
            #[trigger] equity_after_days(start, head.take(k)),
        ) by {
            assert(head.take(k) =~= days.take(k));
        }
        law_one_return_for_every_day(start, head);
        assert(head.last() == days[n - 2] && head[0] == days[0]);
        assert(days[n - 2].0 < days[n - 1].0);
    } else {
        assert(daily_returns(start, head) =~= Seq::empty());
    }
}

/// A whole number.
pub open spec fn whole(n: int) -> Real {
    rounded(n * pow2(UNIT_EXP as nat), 1)
}

/// Whether a whole number has a magnitude below two to the power of 53, so that sums are exact.
pub open spec fn small(n: int) -> bool {
    -0x20_0000_0000_0000 < n < 0x20_0000_0000_0000
}

/// Whether the result of a trade is a small whole number.
pub open spec fn has_amount(t: CompletedView) -> bool {
    exists|n: int| small(n) && t.pnl_usdt == #[trigger] whole(n)
}

/// The result of a trade as a whole number.
pub open spec fn amount(t: CompletedView) -> int {
    choose|n: int| small(n) && t.pnl_usdt == #[trigger] whole(n)
}

/// The day on which a trade ended.
pub open spec fn day_of(t: CompletedView) -> u64 {
    t.exit_time_ms / DAY_MS
}

/// The sum of the results of a day.
pub open spec fn day_sum(trades: Seq<CompletedView>, day: u64) -> int
    decreases trades.len(),
{
    if trades.len() == 0 {
        0
    } else {
        day_sum(trades.drop_last(), day) + (if day_of(trades.last()) == day {
            amount(trades.last())
        } else {
            0
        })
    }
}

/// Whether a trade ended on a day.
pub open spec fn has_day(trades: Seq<CompletedView>, day: u64) -> bool {
    exists|i: int| 0 <= i < trades.len() && day_of(#[trigger] trades[i]) == day
}

/// The sum of the magnitudes of all results.
pub open spec fn turnover(trades: Seq<CompletedView>) -> nat
    decreases trades.len(),
{
    if trades.len() == 0 {
        0
    } else {
        turnover(trades.drop_last()) + abs(amount(trades.last()))
    }
}

/// Whether all sums of results are exact.
pub open spec fn exact(trades: Seq<CompletedView>) -> bool {
    &&& forall|i: int| 0 <= i < trades.len() ==> has_amount(#[trigger] trades[i])
    &&& small(turnover(trades) as int)
}

/// The annual ratio depends on nothing but the days on which trades ended and the sum of the
/// results of each.
pub proof fn law_ratio_depends_on_days(
    start: Real,
    a: Seq<CompletedView>,
    b: Seq<CompletedView>,
)
    requires
        exact(a),
        exact(b),
        forall|day: u64| #[trigger] has_day(a, day) == has_day(b, day),
        forall|day: u64| #[trigger] day_sum(a, day) == day_sum(b, day),
    ensures
        daily_results(a) == daily_results(b),
        sharpe_of(start, a) == sharpe_of(start, b),
{
    law_daily_results_in_order(a);
    law_daily_results_in_order(b);
    assert forall|day: u64| result_on(daily_results(a), day) == #[trigger] result_on(
        daily_results(b),
        day,
    ) by {
        lemma_daily_results(a, day);
        lemma_daily_results(b, day);
        assert(has_day(a, day) == has_day(b, day));
        assert(day_sum(a, day) == day_sum(b, day));
    }
    lemma_same_results(daily_results(a), daily_results(b));
}

/// The order in which trades stand does not matter to the annual ratio.
pub proof fn law_ratio_ignores_order(start: Real, a: Seq<CompletedView>, b: Seq<CompletedView>)
    requires
        exact(a),
        a.to_multiset() == b.to_multiset(),
    ensures
        sharpe_of(start, a) == sharpe_of(start, b),
{
    broadcast use vstd::seq_lib::group_to_multiset_ensures;

    assert(a.len() == a.to_multiset().len() && b.len() == b.to_multiset().len());
    assert forall|i: int| 0 <= i < b.len() implies has_amount(#[trigger] b[i]) by {
        assert(b.contains(b[i]));
        assert(b.to_multiset().contains(b[i]));
        assert(a.contains(b[i]));
        let k = choose|k: int| 0 <= k < a.len() && a[k] == b[i];
        assert(has_amount(a[k]));
    }
    let f = |n: nat, t: CompletedView| n + abs(amount(t));
    assert(vstd::seq_lib::commutative_foldl(f));
    vstd::seq_lib::lemma_fold_left_permutation(a, b, f, 0nat);
    lemma_turnover_is_fold(a, f);
    lemma_turnover_is_fold(b, f);
    assert forall|day: u64| #[trigger] has_day(a, day) == has_day(b, day) by {
        if has_day(a, day) {
            let i = choose|i: int| 0 <= i < a.len() && day_of(#[trigger] a[i]) == day;
            assert(a.contains(a[i]));
            assert(a.to_multiset().contains(a[i]));
            assert(b.contains(a[i]));
            let k = choose|k: int| 0 <= k < b.len() && b[k] == a[i];
            assert(day_of(b[k]) == day);
        }
        if has_day(b, day) {
            let i = choose|i: int| 0 <= i < b.len() && day_of(#[trigger] b[i]) == day;
            assert(b.contains(b[i]));
            assert(b.to_multiset().contains(b[i]));
            assert(a.contains(b[i]));
            let k = choose|k: int| 0 <= k < a.len() && a[k] == b[i];
            assert(day_of(a[k]) == day);
        }
    }
    assert forall|day: u64| #[trigger] day_sum(a, day) == day_sum(b, day) by {
        let g = |n: int, t: CompletedView|
            n + (if day_of(t) == day {
                amount(t)
            } else {
                0
            });
        assert(vstd::seq_lib::commutative_foldl(g));
        vstd::seq_lib::lemma_fold_left_permutation(a, b, g, 0int);
        lemma_day_sum_is_fold(a, day, g);
        lemma_day_sum_is_fold(b, day, g);
    }
    law_ratio_depends_on_days(start, a, b);
}

/// Two trades that ended on the same day count like one with the sum of their results.
pub proof fn law_ratio_merges_trades_of_a_day(
    start: Real,
    others: Seq<CompletedView>,
    t1: CompletedView,
    t2: CompletedView,
    both: CompletedView,
)
    requires
        exact(others.push(t1).push(t2)),
        day_of(t1) == day_of(t2),
        day_of(both) == day_of(t1),
        both.pnl_usdt == whole(amount(t1) + amount(t2)),
    ensures
        sharpe_of(start, others.push(t1).push(t2)) == sharpe_of(start, others.push(both)),
{
    let a = others.push(t1).push(t2);
    let b = others.push(both);
    assert(a.drop_last() =~= others.push(t1));
    assert(others.push(t1).drop_last() =~= others);
    assert(b.drop_last() =~= others);
    assert(a.last() == t2 && others.push(t1).last() == t1 && b.last() == both);
    assert(turnover(a) == turnover(others.push(t1)) + abs(amount(t2)));
    assert(turnover(others.push(t1)) == turnover(others) + abs(amount(t1)));
    assert(turnover(b) == turnover(others) + abs(amount(both)));
    assert(small(amount(t1) + amount(t2)));
    assert(has_amount(both));
    lemma_whole_differ(amount(both), amount(t1) + amount(t2));
    assert forall|i: int| 0 <= i < b.len() implies has_amount(#[trigger] b[i]) by {
        if i < others.len() {
            assert(a[i] == b[i]);
        }
    }
    assert forall|day: u64| #[trigger] has_day(a, day) == has_day(b, day) by {
        if has_day(a, day) {
            let i = choose|i: int| 0 <= i < a.len() && day_of(#[trigger] a[i]) == day;
            if i < others.len() {
                assert(b[i] == a[i]);
            } else {
                assert(day_of(b[others.len() as int]) == day);
            }
        }
        if has_day(b, day) {
            let i = choose|i: int| 0 <= i < b.len() && day_of(#[trigger] b[i]) == day;
            if i < others.len() {
                assert(a[i] == b[i]);
            } else {
                assert(day_of(a[others.len() as int]) == day);
            }
        }
    }
    assert forall|day: u64| #[trigger] day_sum(a, day) == day_sum(b, day) by {
        assert(day_sum(a, day) == day_sum(others.push(t1), day) + (if day_of(t2) == day {
            amount(t2)
        } else {
            0
        }));
        assert(day_sum(others.push(t1), day) == day_sum(others, day) + (if day_of(t1) == day {
            amount(t1)
        } else {
            0
        }));
    }
    law_ratio_depends_on_days(start, a, b);
}

proof fn lemma_turnover_is_fold(
    trades: Seq<CompletedView>,
    f: spec_fn(nat, CompletedView) -> nat,
)
    requires
        forall|n: nat, t: CompletedView| #[trigger] f(n, t) == n + abs(amount(t)),
    ensures
        turnover(trades) == trades.fold_left(0nat, f),
    decreases trades.len(),
{
    if trades.len() > 0 {
        lemma_turnover_is_fold(trades.drop_last(), f);
    }
}

proof fn lemma_day_sum_is_fold(
    trades: Seq<CompletedView>,
    day: u64,
    g: spec_fn(int, CompletedView) -> int,
)
    requires
        forall|n: int, t: CompletedView|
            #[trigger] g(n, t) == n + (if day_of(t) == day {
                amount(t)
            } else {
                0
            }),
    ensures
        day_sum(trades, day) == trades.fold_left(0int, g),
    decreases trades.len(),
{
    if trades.len() > 0 {
        lemma_day_sum_is_fold(trades.drop_last(), day, g);
    }
}

/// The value of a small whole number.
proof fn lemma_whole(n: int)
    requires
        small(n),
    ensures
        whole(n).finite(),
        whole(n).units() == n * pow2(UNIT_EXP as nat),
        n >= 0 ==> !whole(n).neg(),
{
    reveal(Real::spec_from_u64);
    let u = pow2(UNIT_EXP as nat);
    lemma_pow2_pos(UNIT_EXP as nat);
    let m = abs(n) as u64;
    lemma_from_small(m);
    assert(abs(n * u) == m * u) by (nonlinear_arith)
        requires
            m == abs(n),
            u > 0,
            abs(n * u) == (if n * u < 0 { -(n * u) } else { n * u }),
            abs(n) == (if n < 0 { -n } else { n }),
    ;
    assert(n < 0 ==> n * u < 0) by (nonlinear_arith)
        requires
            u > 0,
    ;
    assert(n >= 0 ==> n * u >= 0) by (nonlinear_arith)
        requires
            u > 0,
    ;
    lemma_signed(n * u < 0, nearest_mag(abs(n * u), 1));
    assert((-m) * u == -(m * u)) by (nonlinear_arith);
}

/// Different small whole numbers differ.
proof fn lemma_whole_differ(a: int, b: int)
    requires
        small(a),
        small(b),
        whole(a) == whole(b),
    ensures
        a == b,
{
    lemma_whole(a);
    lemma_whole(b);
    let u = pow2(UNIT_EXP as nat);
    lemma_pow2_pos(UNIT_EXP as nat);
    assert(a == b) by (nonlinear_arith)
        requires
            a * u == b * u,
            u > 0,
    ;
}

/// Sums of small whole numbers are exact.
proof fn lemma_whole_sum(a: int, b: int)
    requires
        small(a),
        small(b),
    ensures
        whole(a).plus(whole(b)) == whole(a + b),
{
    reveal(Real::spec_plus);
    lemma_whole(a);
    lemma_whole(b);
    let u = pow2(UNIT_EXP as nat);
    lemma_pow2_pos(UNIT_EXP as nat);
    assert(a * u + b * u == (a + b) * u) by (nonlinear_arith);
    if (a + b) * u == 0 {
        assert(a + b == 0) by (nonlinear_arith)
            requires
                (a + b) * u == 0,
                u > 0,
        ;
        crate::number::lemma_nearest_zero(1);
    }
}

/// The result of a day among daily results.
spec fn result_on(days: Seq<(u64, Real)>, day: u64) -> Option<Real>
    decreases days.len(),
{
    if days.len() == 0 {
        None
    } else if days[0].0 == day {
        Some(days[0].1)
    } else {
        result_on(days.skip(1), day)
    }
}

proof fn lemma_order_of_rest(days: Seq<(u64, Real)>)
    requires
        days_in_order(days),
        days.len() > 0,
    ensures
        days_in_order(days.skip(1)),
{
    let t = days.skip(1);
    assert forall|i: int, j: int| 0 <= i < j < t.len() implies (#[trigger] t[i]).0 < (
    #[trigger] t[j]).0 by {
        assert(t[i] == days[i + 1] && t[j] == days[j + 1]);
    }
}

/// There is no result of a day before the first one.
proof fn lemma_no_result_before(days: Seq<(u64, Real)>, day: u64)
    requires
        days_in_order(days),
        days.len() > 0 ==> day < days[0].0,
    ensures
        result_on(days, day) is None,
    decreases days.len(),
{
    if days.len() > 0 {
        lemma_order_of_rest(days);
        if days.len() > 1 {
            assert(days[0].0 < days[1].0);
            assert(days.skip(1)[0] == days[1]);
        }
        lemma_no_result_before(days.skip(1), day);
    }
}

/// Adding a result changes its own day and no other.
proof fn lemma_result_added(days: Seq<(u64, Real)>, day: u64, x: Real, other: u64)
    requires
        days_in_order(days),
    ensures
        result_on(with_result(days, day, x), other) == if other == day {
            match result_on(days, day) {
                Some(y) => Some(y.plus(x)),
                None => Some(Real::from_u64(0).plus(x)),
            }
        } else {
            result_on(days, other)
        },
    decreases days.len(),
{
    let r = with_result(days, day, x);
    if days.len() == 0 || day < days[0].0 {
        lemma_no_result_before(days, day);
        assert(r.skip(1) =~= days);
    } else if days[0].0 == day {
        assert(r.skip(1) =~= days.skip(1));
    } else {
        lemma_order_of_rest(days);
        lemma_result_added(days.skip(1), day, x, other);
        assert(r.skip(1) =~= with_result(days.skip(1), day, x));
    }
}

/// The result of each day is the sum of the results of its trades.
proof fn lemma_daily_results(trades: Seq<CompletedView>, day: u64)
    requires
        exact(trades),
    ensures
        result_on(daily_results(trades), day) == if has_day(trades, day) {
            Some(whole(day_sum(trades, day)))
        } else {
            None
        },
        abs(day_sum(trades, day)) <= turnover(trades),
        !has_day(trades, day) ==> day_sum(trades, day) == 0,
    decreases trades.len(),
{
    if trades.len() > 0 {
        let head = trades.drop_last();
        let t = trades.last();
        assert(trades[trades.len() - 1] == t);
        assert forall|i: int| 0 <= i < head.len() implies has_amount(#[trigger] head[i]) by {
            assert(head[i] == trades[i]);
        }
        lemma_daily_results(head, day);
        lemma_daily_results(head, day_of(t));
        law_daily_results_in_order(head);
        lemma_result_added(daily_results(head), day_of(t), t.pnl_usdt, day);
        assert(has_amount(t));
        assert(whole(0) == Real::from_u64(0)) by {
            reveal(Real::spec_from_u64);
        }
        lemma_whole_sum(day_sum(head, day), amount(t));
        lemma_whole_sum(0, amount(t));
        assert(has_day(trades, day) == (has_day(head, day) || day_of(t) == day)) by {
            if has_day(trades, day) {
                let i = choose|i: int| 0 <= i < trades.len() && day_of(#[trigger] trades[i]) == day;
                if i < head.len() {
                    assert(head[i] == trades[i]);
                }
            }
            if has_day(head, day) {
                let i = choose|i: int| 0 <= i < head.len() && day_of(#[trigger] head[i]) == day;
                assert(trades[i] == head[i]);
            }
            if day_of(t) == day {
                assert(day_of(trades[trades.len() - 1]) == day);
            }
        }
    }
}

/// Daily results are known by the result of each day.
proof fn lemma_same_results(a: Seq<(u64, Real)>, b: Seq<(u64, Real)>)
    requires
        days_in_order(a),
        days_in_order(b),
        forall|day: u64| result_on(a, day) == #[trigger] result_on(b, day),
    ensures
        a == b,
    decreases a.len(),
{
    if a.len() == 0 {
        if b.len() > 0 {
            assert(result_on(b, b[0].0) is Some);
        }
        assert(a =~= b);
    } else {
        if b.len() == 0 {
            assert(result_on(b, a[0].0) is None);
        }
        if a[0].0 < b[0].0 {
            lemma_no_result_before(b, a[0].0);
        }
        if b[0].0 < a[0].0 {
            lemma_no_result_before(a, b[0].0);
            assert(result_on(b, b[0].0) is Some);
        }
        assert(result_on(a, a[0].0) == result_on(b, a[0].0));
        let (s, t) = (a.skip(1), b.skip(1));
        lemma_order_of_rest(a);
        lemma_order_of_rest(b);
        assert forall|day: u64| result_on(s, day) == #[trigger] result_on(t, day) by {
            assert(result_on(a, day) == result_on(b, day));
            if day == a[0].0 {
                if s.len() > 0 {
                    assert(s[0] == a[1] && a[0].0 < a[1].0);
                }
                if t.len() > 0 {
                    assert(t[0] == b[1] && b[0].0 < b[1].0);
                }
                lemma_no_result_before(s, day);
                lemma_no_result_before(t, day);
            }
        }
        lemma_same_results(s, t);
        assert(a =~= seq![a[0]] + s);
        assert(b =~= seq![b[0]] + t);
    }
}

} // verus!
