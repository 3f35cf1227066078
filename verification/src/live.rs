//! What the live program does with a trade: which entries it makes, under which names, and what
//! it counts.
//!
//! Sending an order and waiting for the answer happens elsewhere.

use crate::abc_brc::abcd_in;
use crate::abc_brc::detect_abcd;
use crate::abc_brc::AbcdPattern;
use crate::backtest::golden_signal;
use crate::backtest::sniper_signal;
use crate::backtest::strategy_on;
use crate::candle::Timeframe;
use crate::fibonacci::FibSequence;
use crate::fixed::fixed_text;
use crate::instrument::Instrument;
use crate::number::Real;
use crate::order_manager::OrderSubmission;
use crate::order_manager::SubmissionError;
use crate::portfolio::PortfolioView;
use crate::position::lemma_place;
use crate::position::pending_of;
use crate::position::PositionState;
use crate::position::Positions;
use crate::position::PositionsView;
use crate::risk::EntryZone;
use crate::risk::RejectionReason;
use crate::risk::RiskEngine;
use crate::risk::RiskParams;
use crate::risk::TradeSignal;
use crate::swing::SwingPoint;
use crate::text::decimal;
use crate::text::decimal_text;
use vstd::prelude::*;
use vstd::string::*;

verus! {

/// What becomes of a possible entry.
#[derive(Debug)]
pub enum Verdict {
    /// One like it is pending or open.
    Skipped,
    /// It may only be added to an open golden entry, and there is none.
    Gated,
    /// It is not worth its risk.
    Rejected(RejectionReason),
    /// It is made.
    Enter(TradeSignal),
}

/// What becomes of a trade that the risk rules have looked at.
pub open spec fn verdict_of(signal: Result<TradeSignal, RejectionReason>) -> Verdict {
    match signal {
        Ok(s) => Verdict::Enter(s),
        Err(reason) => Verdict::Rejected(reason),
    }
}

/// What becomes of the golden entry of a pattern.
pub open spec fn golden_verdict(
    v: PositionsView,
    params: RiskParams,
    p: AbcdPattern,
    timeframe: Timeframe,
) -> Verdict {
    if v.active_entry(timeframe, p.direction, EntryZone::Golden) {
        Verdict::Skipped
    } else {
        verdict_of(golden_signal(params, p, timeframe))
    }
}

/// What becomes of the sniper entry of a pattern.
pub open spec fn sniper_verdict(
    v: PositionsView,
    params: RiskParams,
    p: AbcdPattern,
    timeframe: Timeframe,
) -> Verdict {
    if v.active_entry(timeframe, p.direction, EntryZone::Sniper) {
        Verdict::Skipped
    } else if !v.open_golden(timeframe, p.direction) {
        Verdict::Gated
    } else {
        verdict_of(sniper_signal(params, p, timeframe))
    }
}

/// The pattern that the pivots of a timeframe form, if they form one.
pub fn find_pattern(instrument: &Instrument, timeframe: Timeframe) -> (r: Option<AbcdPattern>)
    ensures
        r == match instrument@.detector_of(timeframe) {
            Some(d) => abcd_in(d.confirmed),
            None => None,
        },
{
    match instrument.swing_detector(timeframe) {
        Some(detector) => detect_abcd(detector),
        None => None,
    }
}

/// What becomes of the golden entry of a pattern.
pub fn decide_golden(
    positions: &Positions,
    risk: &RiskEngine,
    pattern: &AbcdPattern,
    timeframe: Timeframe,
) -> (r: Verdict)
    ensures
        r == golden_verdict(positions@, risk.spec_params(), *pattern, timeframe),
{
    if positions.has_active_entry(timeframe, pattern.direction, EntryZone::Golden) {
        return Verdict::Skipped;
    }
    let fib = FibSequence::from_pattern(pattern);
    match risk.evaluate_golden(pattern, &fib, timeframe) {
        Ok(signal) => Verdict::Enter(signal),
        Err(reason) => Verdict::Rejected(reason),
    }
}

/// What becomes of the sniper entry of a pattern.
pub fn decide_sniper(
    positions: &Positions,
    risk: &RiskEngine,
    pattern: &AbcdPattern,
    timeframe: Timeframe,
) -> (r: Verdict)
    ensures
        r == sniper_verdict(positions@, risk.spec_params(), *pattern, timeframe),
{
    if positions.has_active_entry(timeframe, pattern.direction, EntryZone::Sniper) {
        return Verdict::Skipped;
    }
    if !positions.has_open_golden(timeframe, pattern.direction) {
        return Verdict::Gated;
    }
    let fib = FibSequence::from_pattern(pattern);
    match risk.evaluate_sniper(pattern, &fib, timeframe) {
        Ok(signal) => Verdict::Enter(signal),
        Err(reason) => Verdict::Rejected(reason),
    }
}

/// The name under which an entry is sent.
pub open spec fn client_id_of(signal: TradeSignal, now_ms: u64) -> Seq<char> {
    "augur_"@ + signal.timeframe.label_text() + "_"@ + signal.entry_zone.text() + "_"@ + decimal(
        now_ms as nat,
    )
}

/// The name under which an entry is sent.
pub fn client_id(signal: &TradeSignal, now_ms: u64) -> (s: String)
    ensures
        s@ == client_id_of(*signal, now_ms),
{
    let mut s = "augur_".to_owned();
    s.append(signal.timeframe.label());
    s.append("_");
    s.append(signal.entry_zone.to_text().as_str());
    s.append("_");
    s.append(decimal_text(now_ms).as_str());
    s
}

/// Takes in an entry that is not sent, because trading is off. It keeps others like it away, and
/// never opens. Returns the name under which it is known.
pub fn record_dry_run(positions: &mut Positions, signal: &TradeSignal, now_ms: u64) -> (id: String)
    requires
        old(positions)@.wf(),
    ensures
        id@ == client_id_of(*signal, now_ms),
        final(positions)@ == old(positions)@.put(
            pending_of(*signal, client_id_of(*signal, now_ms), None, now_ms),
        ),
        final(positions)@.wf(),
{
    let id = client_id(signal, now_ms);
    positions.record_unsubmitted(signal, id.clone(), now_ms);
    id
}

/// Takes in what became of an entry that was sent. Returns whether it was taken.
pub fn record_submission(
    positions: &mut Positions,
    signal: &TradeSignal,
    outcome: &Result<OrderSubmission, SubmissionError>,
    now_ms: u64,
) -> (taken: bool)
    requires
        old(positions)@.wf(),
    ensures
        taken == (outcome is Ok),
        final(positions)@ == match outcome {
            Ok(s) => old(positions)@.indexed(s.entry_ord_id@, s.client_ord_id@).put(
                pending_of(*signal, s.client_ord_id@, Some(s.entry_ord_id@), now_ms),
            ),
            Err(_) => old(positions)@,
        },
        final(positions)@.wf(),
{
    match outcome {
        Ok(s) => {
            positions.record_submission(
                signal,
                s.client_ord_id.clone(),
                s.entry_ord_id.clone(),
                now_ms,
            );
            true
        },
        Err(_) => false,
    }
}

/// What the live program counts.
#[derive(Debug, Clone, Copy)]
pub struct LiveStats {
    pub trades: u64,
    pub books: u64,
    pub signals_built: u64,
    pub signals_submitted: u64,
    pub sniper_gated_off: u64,
    pub ticks_dropped: u64,
    pub books_dropped: u64,
}

impl LiveStats {
    /// Nothing was counted.
    pub open spec fn zero() -> LiveStats {
        LiveStats {
            trades: 0,
            books: 0,
            signals_built: 0,
            signals_submitted: 0,
            sniper_gated_off: 0,
            ticks_dropped: 0,
            books_dropped: 0,
        }
    }

    /// Whether each count can go on.
    pub open spec fn room(self) -> bool {
        &&& self.trades < u64::MAX
        &&& self.books < u64::MAX
        &&& self.signals_built < u64::MAX
        &&& self.signals_submitted < u64::MAX
        &&& self.sniper_gated_off < u64::MAX
        &&& self.ticks_dropped < u64::MAX
        &&& self.books_dropped < u64::MAX
    }

    /// Whether each count can go on.
    pub fn has_room(&self) -> (r: bool)
        ensures
            r == self.room(),
    {
        self.trades < u64::MAX && self.books < u64::MAX && self.signals_built < u64::MAX
            && self.signals_submitted < u64::MAX && self.sniper_gated_off < u64::MAX
            && self.ticks_dropped < u64::MAX && self.books_dropped < u64::MAX
    }

    /// Counts of nothing.
    pub fn new() -> (r: Self)
        ensures
            r == LiveStats::zero(),
    {
        LiveStats {
            trades: 0,
            books: 0,
            signals_built: 0,
            signals_submitted: 0,
            sniper_gated_off: 0,
            ticks_dropped: 0,
            books_dropped: 0,
        }
    }

    /// Counts a trade. Returns whether to tell how things are: at every thousandth.
    pub fn count_trade(&mut self) -> (tell: bool)
        requires
            old(self).trades < u64::MAX,
        ensures
            *final(self) == (LiveStats { trades: (old(self).trades + 1) as u64, ..*old(self) }),
            tell == (final(self).trades % 1000 == 0),
    {
        self.trades = self.trades + 1;
        self.trades % 1000 == 0
    }

    /// Counts an order book. Returns whether to tell of it: at every five hundredth.
    pub fn count_book(&mut self) -> (tell: bool)
        requires
            old(self).books < u64::MAX,
        ensures
            *final(self) == (LiveStats { books: (old(self).books + 1) as u64, ..*old(self) }),
            tell == (final(self).books % 500 == 0),
    {
        self.books = self.books + 1;
        self.books % 500 == 0
    }

    /// Counts an entry that is to be made.
    pub fn count_built(&mut self)
        requires
            old(self).signals_built < u64::MAX,
        ensures
            *final(self) == (LiveStats {
                signals_built: (old(self).signals_built + 1) as u64,
                ..*old(self)
            }),
    {
        self.signals_built = self.signals_built + 1;
    }

    /// Counts an entry that the exchange took.
    pub fn count_submitted(&mut self)
        requires
            old(self).signals_submitted < u64::MAX,
        ensures
            *final(self) == (LiveStats {
                signals_submitted: (old(self).signals_submitted + 1) as u64,
                ..*old(self)
            }),
    {
        self.signals_submitted = self.signals_submitted + 1;
    }

    /// Counts a sniper entry without an open golden one.
    pub fn count_gated(&mut self)
        requires
            old(self).sniper_gated_off < u64::MAX,
        ensures
            *final(self) == (LiveStats {
                sniper_gated_off: (old(self).sniper_gated_off + 1) as u64,
                ..*old(self)
            }),
    {
        self.sniper_gated_off = self.sniper_gated_off + 1;
    }

    /// Counts a trade that was not recorded. Returns whether to tell of it: at the first of
    /// every hundred.
    pub fn count_dropped_tick(&mut self) -> (tell: bool)
        requires
            old(self).ticks_dropped < u64::MAX,
        ensures
            *final(self) == (LiveStats {
                ticks_dropped: (old(self).ticks_dropped + 1) as u64,
                ..*old(self)
            }),
            tell == (final(self).ticks_dropped % 100 == 1),
    {
        self.ticks_dropped = self.ticks_dropped + 1;
        self.ticks_dropped % 100 == 1
    }

    /// Counts an order book that was not recorded. Returns whether to tell of it: at the first of
    /// every five hundred.
    pub fn count_dropped_book(&mut self) -> (tell: bool)
        requires
            old(self).books_dropped < u64::MAX,
        ensures
            *final(self) == (LiveStats {
                books_dropped: (old(self).books_dropped + 1) as u64,
                ..*old(self)
            }),
            tell == (final(self).books_dropped % 500 == 1),
    {
        self.books_dropped = self.books_dropped + 1;
        self.books_dropped % 500 == 1
    }

    /// How things are.
    pub open spec fn status_text(
        self,
        price: Real,
        positions: Seq<char>,
        candles: Seq<char>,
    ) -> Seq<char> {
        "Trades: "@ + decimal(self.trades as nat) + " | Price: $"@ + fixed_text(price, 2)
            + " | Signals built/submitted: "@ + decimal(self.signals_built as nat) + "/"@ + decimal(
            self.signals_submitted as nat,
        ) + " | Sniper gated: "@ + decimal(self.sniper_gated_off as nat)
            + " | Ticks/books dropped: "@ + decimal(self.ticks_dropped as nat) + "/"@ + decimal(
            self.books_dropped as nat,
        ) + " | Positions: "@ + positions + " | Candles: ["@ + candles + "]"@
    }

    /// How things are.
    pub fn status(&self, price: Real, positions: &str, candles: &str) -> (s: String)
        ensures
            s@ == self.status_text(price, positions@, candles@),
    {
        let mut s = "Trades: ".to_owned();
        s.append(decimal_text(self.trades).as_str());
        s.append(" | Price: $");
        s.append(price.fixed(2).as_str());
        s.append(" | Signals built/submitted: ");
        s.append(decimal_text(self.signals_built).as_str());
        s.append("/");
        s.append(decimal_text(self.signals_submitted).as_str());
        s.append(" | Sniper gated: ");
        s.append(decimal_text(self.sniper_gated_off).as_str());
        s.append(" | Ticks/books dropped: ");
        s.append(decimal_text(self.ticks_dropped).as_str());
        s.append("/");
        s.append(decimal_text(self.books_dropped).as_str());
        s.append(" | Positions: ");
        s.append(positions);
        s.append(" | Candles: [");
        s.append(candles);
        s.append("]");
        s
    }
}

/// No entry is made while one of its timeframe, direction and zone is pending or open.
pub proof fn law_live_entries_never_stack(
    v: PositionsView,
    params: RiskParams,
    p: AbcdPattern,
    timeframe: Timeframe,
)
    ensures
        golden_verdict(v, params, p, timeframe) is Enter ==> !v.active_entry(
            timeframe,
            p.direction,
            EntryZone::Golden,
        ),
        sniper_verdict(v, params, p, timeframe) is Enter ==> !v.active_entry(
            timeframe,
            p.direction,
            EntryZone::Sniper,
        ),
{
}

/// A sniper entry is only added to a golden entry that is filled.
pub proof fn law_live_sniper_needs_open_golden(
    v: PositionsView,
    params: RiskParams,
    p: AbcdPattern,
    timeframe: Timeframe,
)
    ensures
        sniper_verdict(v, params, p, timeframe) is Enter ==> v.open_golden(timeframe, p.direction),
{
}

/// An entry that was only recorded does not let sniper entries in.
pub proof fn law_dry_run_keeps_gate_closed(
    v: PositionsView,
    signal: TradeSignal,
    id: Seq<char>,
    now_ms: u64,
    timeframe: Timeframe,
    p: AbcdPattern,
)
    requires
        !v.open_golden(timeframe, p.direction),
    ensures
        !v.put(pending_of(signal, id, None, now_ms)).open_golden(timeframe, p.direction),
{
    let q = pending_of(signal, id, None, now_ms);
    let w = v.put(q);
    lemma_place(v.entries, id);
    assert forall|i: int| 0 <= i < w.entries.len() implies !((#[trigger] w.entries[i]).state
        == PositionState::Open && w.entries[i].is_entry(
        timeframe,
        p.direction,
        EntryZone::Golden,
    )) by {
        if w.entries[i] != q {
            assert(w.entries[i] == v.entries[i]);
        }
    }
}

/// The replay enters what the live program would enter: on the same pivots, with the same
/// parameters, and where the same entries are active and open.
pub proof fn law_replay_agrees_with_live(
    live: PositionsView,
    later: PositionsView,
    replay: PortfolioView,
    pivots: Seq<SwingPoint>,
    p: AbcdPattern,
    timeframe: Timeframe,
    params: RiskParams,
    ms: u64,
)
    requires
        abcd_in(pivots) == Some(p),
        live.active_entry(timeframe, p.direction, EntryZone::Golden) == replay.active_entry(
            timeframe,
            p.direction,
            EntryZone::Golden,
        ),
        ({
            let next = match golden_verdict(live, params, p, timeframe) {
                Verdict::Enter(s) => replay.submitting(s, ms),
                _ => replay,
            };
            &&& later.active_entry(timeframe, p.direction, EntryZone::Sniper) == next.active_entry(
                timeframe,
                p.direction,
                EntryZone::Sniper,
            )
            &&& later.open_golden(timeframe, p.direction) == next.open_golden(
                timeframe,
                p.direction,
            )
        }),
    ensures
        ({
            let next = match golden_verdict(live, params, p, timeframe) {
                Verdict::Enter(s) => replay.submitting(s, ms),
                _ => replay,
            };
            strategy_on(replay, pivots, timeframe, params, ms) == match sniper_verdict(
                later,
                params,
                p,
                timeframe,
            ) {
                Verdict::Enter(s) => next.submitting(s, ms),
                _ => next,
            }
        }),
{
}

} // verus!
