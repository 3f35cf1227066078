//! What reports and lines tell.

use crate::abc_brc::PatternDirection;
use crate::backtest::MissingData;
use crate::candle::summary;
use crate::candle::summary_item;
use crate::candle::AggregatorView;
use crate::candle::Candle;
use crate::candle::Timeframe;
use crate::fixed::fixed_text;
use crate::instrument::swing_summary;
use crate::live::LiveStats;
use crate::metrics::flush_right;
use crate::metrics::BacktestMetrics;
use crate::number::Real;
use crate::position::PositionState;
use crate::risk::EntryZone;
use crate::risk::RejectionReason;
use crate::risk::TradeSignal;
use crate::swing::SwingView;
use crate::text::decimal;
use vstd::prelude::*;

verus! {

/// Whether a text tells a part.
pub open spec fn tells(s: Seq<char>, part: Seq<char>) -> bool {
    exists|i: int|
        0 <= i <= s.len() - part.len() && #[trigger] s.subrange(i, i + part.len()) == part
}

/// What a text tells, a longer one tells too; and it tells what it goes on with.
proof fn lemma_goes_on(s: Seq<char>, label: Seq<char>, value: Seq<char>)
    ensures
        tells(s + label + value, label + value),
        forall|x: Seq<char>| tells(s, x) ==> #[trigger] tells(s + label + value, x),
{
    let all = s + label + value;
    let part = label + value;
    assert(all.subrange(s.len() as int, (s.len() + part.len()) as int) =~= part);
    assert forall|x: Seq<char>| tells(s, x) implies #[trigger] tells(all, x) by {
        let i = choose|i: int|
            0 <= i <= s.len() - x.len() && #[trigger] s.subrange(i, i + x.len()) == x;
        assert(all.subrange(i, i + x.len()) =~= s.subrange(i, i + x.len()));
    }
}

/// A text that is set to the right is as wide as asked for, ends in the text, and begins with blanks.
pub proof fn law_set_to_the_right(t: Seq<char>, width: nat)
    ensures
        t.len() >= width ==> flush_right(t, width) == t,
        t.len() < width ==> flush_right(t, width).len() == width,
        flush_right(t, width).skip(flush_right(t, width).len() - t.len()) == t,
        forall|i: int|
            0 <= i < flush_right(t, width).len() - t.len() ==> #[trigger] flush_right(t, width)[i]
                == ' ',
{
    let r = flush_right(t, width);
    assert(r.skip(r.len() - t.len()) =~= t);
    if t.len() >= width {
        assert(r =~= t);
    }
}

/// The report of a replay tells every figure behind its name.
#[verifier::spinoff_prover]
#[verifier::rlimit(50)]
pub proof fn law_report(m: BacktestMetrics)
    ensures
        ({
            let r = m.report_text();
            let money = |x: Real| flush_right(fixed_text(x, 2), 12);
            let share = |x: Real| flush_right(fixed_text(x, 2), 11);
            let ratio = |x: Real| flush_right(fixed_text(x, 3), 12);
            let count = |n: usize| flush_right(decimal(n as nat), 12);
            &&& tells(r, "\n  Ending equity         : $"@ + money(m.ending_equity))
            &&& tells(r, "\n  Total return          :  "@ + share(m.total_return_pct))
            &&& tells(r, "%\n  Total P&L             : $"@ + money(m.total_pnl))
            &&& tells(r, "\n\n  Total trades          :  "@ + count(m.total_trades))
            &&& tells(r, "\n    Winners             :  "@ + count(m.winners))
            &&& tells(r, "\n    Losers              :  "@ + count(m.losers))
            &&& tells(
                r,
                "\n    Win rate            :  "@ + share(m.win_rate.times(Real::from_u64(100))),
            )
            &&& tells(r, "%\n\n  Profit factor         :  "@ + ratio(m.profit_factor))
            &&& tells(r, "\n  Avg R multiple        :  "@ + ratio(m.avg_r_multiple))
            &&& tells(r, "\n  Max drawdown          :  "@ + share(m.max_drawdown_pct))
            &&& tells(r, "%\n  Sharpe (annualized)   :  "@ + ratio(m.sharpe_annualized))
            &&& tells(
                r,
                "\n  Avg trade duration    :  "@ + flush_right(
                    fixed_text(m.avg_trade_duration_sec, 1),
                    9,
                ),
            )
            &&& tells(r, " sec\n\n  Gross win             : $"@ + money(m.gross_win))
            &&& tells(r, "\n  Gross loss            : $"@ + money(m.gross_loss))
            &&& tells(
                r,
                "\n=== BACKTEST RESULTS ===\n  Starting equity       : $"@ + money(
                    m.starting_equity,
                ),
            )
        }),
{
    let money = |x: Real| flush_right(fixed_text(x, 2), 12);
    let share = |x: Real| flush_right(fixed_text(x, 2), 11);
    let ratio = |x: Real| flush_right(fixed_text(x, 3), 12);
    let count = |n: usize| flush_right(decimal(n as nat), 12);
    let head = "\n=== BACKTEST RESULTS ===\n  Starting equity       : $"@;
    let none = Seq::<char>::empty();
    let s = head + money(m.starting_equity);
    lemma_goes_on(none, head, money(m.starting_equity));
    assert(none + head + money(m.starting_equity) =~= s);
    let parts = seq![
        ("\n  Ending equity         : $"@, money(m.ending_equity)),
        ("\n  Total return          :  "@, share(m.total_return_pct)),
        ("%\n  Total P&L             : $"@, money(m.total_pnl)),
        ("\n\n  Total trades          :  "@, count(m.total_trades)),
        ("\n    Winners             :  "@, count(m.winners)),
        ("\n    Losers              :  "@, count(m.losers)),
        ("\n    Win rate            :  "@, share(m.win_rate.times(Real::from_u64(100)))),
        ("%\n\n  Profit factor         :  "@, ratio(m.profit_factor)),
        ("\n  Avg R multiple        :  "@, ratio(m.avg_r_multiple)),
        ("\n  Max drawdown          :  "@, share(m.max_drawdown_pct)),
        ("%\n  Sharpe (annualized)   :  "@, ratio(m.sharpe_annualized)),
        (
            "\n  Avg trade duration    :  "@,
            flush_right(fixed_text(m.avg_trade_duration_sec, 1), 9),
        ),
        (" sec\n\n  Gross win             : $"@, money(m.gross_win)),
        ("\n  Gross loss            : $"@, money(m.gross_loss)),
        ("\n=========================\n\n"@, none),
    ];
    reveal_with_fuel(told_in_turn, 16);
    let r = m.report_text();
    let before = told_in_turn(s, parts.drop_last());
    assert(before + "\n=========================\n\n"@ + none =~= before
        + "\n=========================\n\n"@);
    assert(told_in_turn(s, parts) == r);
    lemma_told(s, parts);
    assert forall|i: int| 0 <= i < parts.len() implies tells(
        r,
        (#[trigger] parts[i]).0 + parts[i].1,
    ) by {}
    assert(tells(r, parts[0].0 + parts[0].1));
    assert(tells(r, parts[1].0 + parts[1].1));
    assert(tells(r, parts[2].0 + parts[2].1));
    assert(tells(r, parts[3].0 + parts[3].1));
    assert(tells(r, parts[4].0 + parts[4].1));
    assert(tells(r, parts[5].0 + parts[5].1));
    assert(tells(r, parts[6].0 + parts[6].1));
    assert(tells(r, parts[7].0 + parts[7].1));
    assert(tells(r, parts[8].0 + parts[8].1));
    assert(tells(r, parts[9].0 + parts[9].1));
    assert(tells(r, parts[10].0 + parts[10].1));
    assert(tells(r, parts[11].0 + parts[11].1));
    assert(tells(r, parts[12].0 + parts[12].1));
    assert(tells(r, parts[13].0 + parts[13].1));
}

/// A text that goes on with names and values.
pub open spec fn told_in_turn(s: Seq<char>, parts: Seq<(Seq<char>, Seq<char>)>) -> Seq<char>
    decreases parts.len(),
{
    if parts.len() == 0 {
        s
    } else {
        told_in_turn(s, parts.drop_last()) + parts.last().0 + parts.last().1
    }
}

proof fn lemma_told(s: Seq<char>, parts: Seq<(Seq<char>, Seq<char>)>)
    ensures
        forall|x: Seq<char>| tells(s, x) ==> #[trigger] tells(told_in_turn(s, parts), x),
        forall|i: int|
            0 <= i < parts.len() ==> tells(
                told_in_turn(s, parts),
                (#[trigger] parts[i]).0 + parts[i].1,
            ),
    decreases parts.len(),
{
    if parts.len() > 0 {
        let head = parts.drop_last();
        lemma_told(s, head);
        lemma_goes_on(told_in_turn(s, head), parts.last().0, parts.last().1);
        assert forall|i: int| 0 <= i < parts.len() implies tells(
            told_in_turn(s, parts),
            (#[trigger] parts[i]).0 + parts[i].1,
        ) by {
            if i < head.len() {
                assert(head[i] == parts[i]);
                assert(tells(told_in_turn(s, head), head[i].0 + head[i].1));
            }
        }
    }
}

/// The status line tells every count, the price and what it is given of positions and candles.
pub proof fn law_status(s: LiveStats, price: Real, positions: Seq<char>, candles: Seq<char>)
    ensures
        ({
            let r = s.status_text(price, positions, candles);
            &&& tells(r, "Trades: "@ + decimal(s.trades as nat))
            &&& tells(r, " | Price: $"@ + fixed_text(price, 2))
            &&& tells(
                r,
                " | Signals built/submitted: "@ + (decimal(s.signals_built as nat) + "/"@ + decimal(
                    s.signals_submitted as nat,
                )),
            )
            &&& tells(r, " | Sniper gated: "@ + decimal(s.sniper_gated_off as nat))
            &&& tells(
                r,
                " | Ticks/books dropped: "@ + (decimal(s.ticks_dropped as nat) + "/"@ + decimal(
                    s.books_dropped as nat,
                )),
            )
            &&& tells(r, " | Positions: "@ + positions)
            &&& tells(r, " | Candles: ["@ + candles)
        }),
{
    let none = Seq::<char>::empty();
    let head = "Trades: "@ + decimal(s.trades as nat);
    lemma_goes_on(none, "Trades: "@, decimal(s.trades as nat));
    assert(none + "Trades: "@ + decimal(s.trades as nat) =~= head);
    let signals = decimal(s.signals_built as nat) + "/"@ + decimal(s.signals_submitted as nat);
    let dropped = decimal(s.ticks_dropped as nat) + "/"@ + decimal(s.books_dropped as nat);
    let parts = seq![
        (" | Price: $"@, fixed_text(price, 2)),
        (" | Signals built/submitted: "@, signals),
        (" | Sniper gated: "@, decimal(s.sniper_gated_off as nat)),
        (" | Ticks/books dropped: "@, dropped),
        (" | Positions: "@, positions),
        (" | Candles: ["@, candles),
        ("]"@, none),
    ];
    reveal_with_fuel(told_in_turn, 8);
    let r = s.status_text(price, positions, candles);
    let a = head + " | Price: $"@ + fixed_text(price, 2) + " | Signals built/submitted: "@;
    assert(a + signals =~= a + decimal(s.signals_built as nat) + "/"@ + decimal(
        s.signals_submitted as nat,
    ));
    let b = a + signals + " | Sniper gated: "@ + decimal(s.sniper_gated_off as nat)
        + " | Ticks/books dropped: "@;
    assert(b + dropped =~= b + decimal(s.ticks_dropped as nat) + "/"@ + decimal(
        s.books_dropped as nat,
    ));
    let before = b + dropped + " | Positions: "@ + positions + " | Candles: ["@ + candles;
    assert(before + "]"@ + none =~= before + "]"@);
    assert(told_in_turn(head, parts) == r);
    lemma_told(head, parts);
    assert(tells(r, parts[0].0 + parts[0].1));
    assert(tells(r, parts[1].0 + parts[1].1));
    assert(tells(r, parts[2].0 + parts[2].1));
    assert(tells(r, parts[3].0 + parts[3].1));
    assert(tells(r, parts[4].0 + parts[4].1));
    assert(tells(r, parts[5].0 + parts[5].1));
}

/// The line of a trade tells its size, its three prices, its risk, its reward and their ratio.
pub proof fn law_line_of_a_trade(s: TradeSignal)
    ensures
        ({
            let r = s.text();
            &&& s.direction is Bullish ==> tells(
                r,
                "BULLISH"@ + " "@ + s.entry_zone.text() + " "@ + s.timeframe.label_text(),
            )
            &&& s.direction is Bearish ==> tells(
                r,
                "BEARISH"@ + " "@ + s.entry_zone.text() + " "@ + s.timeframe.label_text(),
            )
            &&& tells(r, "] "@ + decimal(s.contracts as nat))
            &&& tells(r, "ct @ $"@ + fixed_text(s.entry_price, 2))
            &&& tells(r, " | SL $"@ + fixed_text(s.stop_price, 2))
            &&& tells(r, " | TP $"@ + fixed_text(s.target_price, 2))
            &&& tells(r, " | Risk $"@ + fixed_text(s.risk_amount, 2))
            &&& tells(r, " Reward $"@ + fixed_text(s.reward_amount, 2))
            &&& tells(r, " (R:R 1:"@ + fixed_text(s.rr_ratio, 2))
            &&& s.direction is Bullish ==> tells(r, " ["@ + "BUY"@)
            &&& s.direction is Bearish ==> tells(r, " ["@ + "SELL"@)
        }),
{
    let none = Seq::<char>::empty();
    let side = if s.direction is Bullish { "BUY"@ } else { "SELL"@ };
    let head = s.direction.text() + " "@ + s.entry_zone.text() + " "@ + s.timeframe.label_text();
    let parts = seq![
        (" ["@, side),
        ("] "@, decimal(s.contracts as nat)),
        ("ct @ $"@, fixed_text(s.entry_price, 2)),
        (" | SL $"@, fixed_text(s.stop_price, 2)),
        (" | TP $"@, fixed_text(s.target_price, 2)),
        (" | Risk $"@, fixed_text(s.risk_amount, 2)),
        (" Reward $"@, fixed_text(s.reward_amount, 2)),
        (" (R:R 1:"@, fixed_text(s.rr_ratio, 2)),
        (")"@, none),
    ];
    reveal_with_fuel(told_in_turn, 10);
    let r = s.text();
    lemma_goes_on(none, none, head);
    assert(none + none + head =~= head);
    assert(none + head =~= head);
    let before = told_in_turn(head, parts.drop_last());
    assert(before + ")"@ + none =~= before + ")"@);
    assert(told_in_turn(head, parts) == r);
    lemma_told(head, parts);
    assert(tells(r, parts[0].0 + parts[0].1));
    assert(tells(r, parts[1].0 + parts[1].1));
    assert(tells(r, parts[2].0 + parts[2].1));
    assert(tells(r, parts[3].0 + parts[3].1));
    assert(tells(r, parts[4].0 + parts[4].1));
    assert(tells(r, parts[5].0 + parts[5].1));
    assert(tells(r, parts[6].0 + parts[6].1));
    assert(tells(r, parts[7].0 + parts[7].1));
}

/// A refusal tells its reason, and of a ratio both what it is and what was asked for.
pub proof fn law_words_of_refusals(actual: Real, required: Real)
    ensures
        RejectionReason::DegenerateStop.text() == "degenerate stop (entry == stop)"@,
        RejectionReason::PositionTooSmall.text() == "position size < 1 contract"@,
        RejectionReason::InvalidBalance.text() == "account balance invalid"@,
        (RejectionReason::InsufficientRr { actual, required }).text() == "R:R 1:"@ + fixed_text(
            actual,
            2,
        ) + " below minimum 1:"@ + fixed_text(required, 2),
{
}

/// What states, directions and zones are called.
pub proof fn law_words()
    ensures
        PositionState::Pending.text() == "PENDING"@,
        PositionState::Open.text() == "OPEN"@,
        PositionState::Closed.text() == "CLOSED"@,
        PositionState::Canceled.text() == "CANCELED"@,
        PatternDirection::Bullish.text() == "BULLISH"@,
        PatternDirection::Bearish.text() == "BEARISH"@,
        EntryZone::Golden.text() == "GOLDEN"@,
        EntryZone::Sniper.text() == "SNIPER"@,
{
}

/// The line of a candle tells its prices, its volume and its trades, and whether it rose.
pub proof fn law_line_of_a_candle(c: Candle)
    ensures
        ({
            let r = c.text();
            &&& c.open.lt(c.close) ==> r.len() > 0 && r.take("▲"@.len() as int) == "▲"@
            &&& !c.open.lt(c.close) ==> r.len() > 0 && r.take("▼"@.len() as int) == "▼"@
            &&& tells(r, " O:"@ + fixed_text(c.open, 2))
            &&& tells(r, " H:"@ + fixed_text(c.high, 2))
            &&& tells(r, " L:"@ + fixed_text(c.low, 2))
            &&& tells(r, " C:"@ + fixed_text(c.close, 2))
            &&& tells(r, " V:"@ + fixed_text(c.volume, 4))
            &&& tells(r, " ("@ + decimal(c.trade_count as nat))
        }),
{
    reveal_strlit("▲");
    reveal_strlit("▼");
    let none = Seq::<char>::empty();
    let head = if c.open.lt(c.close) { "▲"@ } else { "▼"@ };
    let parts = seq![
        (" O:"@, fixed_text(c.open, 2)),
        (" H:"@, fixed_text(c.high, 2)),
        (" L:"@, fixed_text(c.low, 2)),
        (" C:"@, fixed_text(c.close, 2)),
        (" V:"@, fixed_text(c.volume, 4)),
        (" ("@, decimal(c.trade_count as nat)),
        ("t)"@, none),
    ];
    reveal_with_fuel(told_in_turn, 8);
    let r = c.text();
    let before = told_in_turn(head, parts.drop_last());
    assert(before + "t)"@ + none =~= before + "t)"@);
    assert(told_in_turn(head, parts) == r);
    lemma_told(head, parts);
    assert(tells(r, parts[0].0 + parts[0].1));
    assert(tells(r, parts[1].0 + parts[1].1));
    assert(tells(r, parts[2].0 + parts[2].1));
    assert(tells(r, parts[3].0 + parts[3].1));
    assert(tells(r, parts[4].0 + parts[4].1));
    assert(tells(r, parts[5].0 + parts[5].1));
    assert(r.take(head.len() as int) =~= head);
}

/// The summaries of candles and pivots tell each timeframe in turn, with bars between them.
pub proof fn law_summaries(
    v: Seq<AggregatorView>,
    a: AggregatorView,
    s: Seq<(Timeframe, SwingView)>,
    d: (Timeframe, SwingView),
)
    ensures
        summary_item(a) == a.timeframe.label_text() + ":"@ + decimal(a.history.len()) + "/"@ + decimal(
            a.produced,
        ),
        summary(seq![a]) == summary_item(a),
        v.len() > 0 ==> summary(v.push(a)) == summary(v) + " | "@ + summary_item(a),
        swing_summary(seq![d]) == d.0.label_text() + ":"@ + decimal(d.1.confirmed.len()) + "swings"@,
        s.len() > 0 ==> swing_summary(s.push(d)) == swing_summary(s) + " | "@ + swing_summary(seq![d]),
{
    assert(v.push(a).drop_last() =~= v);
    assert(s.push(d).drop_last() =~= s);
    reveal_with_fuel(swing_summary, 2);
    assert(seq![d].last() == d);
}

/// What is said of data that is missing.
pub proof fn law_words_of_missing_data(dir: Seq<char>)
    ensures
        tells(MissingData::NoTradeFiles.text(dir), dir),
        tells(MissingData::NoBookFiles.text(dir), dir),
        MissingData::NoTradeFiles.text(dir) != MissingData::NoBookFiles.text(dir),
{
    reveal_strlit("no trade Parquet files found in ");
    reveal_strlit("no book Parquet files found in ");
    let none = Seq::<char>::empty();
    let a = "no trade Parquet files found in "@;
    let b = "no book Parquet files found in "@;
    let tail = " — ladder mode requires book data. Did you record with AUGUR_PERSISTENCE_ENABLED=1 on v0.9+?"@;
    lemma_goes_on(a, dir, none);
    lemma_goes_on(b, dir, tail);
    assert(a + dir + none =~= a + dir);
    assert(dir + none =~= dir);
    assert((a + dir).subrange(a.len() as int, (a.len() + dir.len()) as int) =~= dir);
    assert((b + dir + tail).subrange(b.len() as int, (b.len() + dir.len()) as int) =~= dir);
    assert(MissingData::NoTradeFiles.text(dir)[3] == 't');
    assert(MissingData::NoBookFiles.text(dir)[3] == 'b');
}

} // verus!
