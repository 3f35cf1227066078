//! The live program between two answers from outside.
//!
//! A trade confirms pivots, pivots form patterns, and a pattern suggests two entries: the golden
//! one and, on top of it, the sniper one. Each is considered in turn. While trading is on, an
//! entry that is to be made is sent, and the answer comes back before the next is considered.
//! While it is off, the entry is only recorded.

use crate::abc_brc::abcd_in;
use crate::abc_brc::AbcdPattern;
use crate::backtest::golden_signal;
use crate::backtest::sniper_signal;
use crate::candle::closed_by;
use crate::candle::Timeframe;
use crate::instrument::fresh_instrument;
use crate::instrument::refreshed;
use crate::instrument::usual_candles;
use crate::instrument::usual_detectors;
use crate::instrument::IngestOutcome;
use crate::instrument::Instrument;
use crate::instrument::InstrumentView;
use crate::live::client_id;
use crate::live::client_id_of;
use crate::live::decide_golden;
use crate::live::decide_sniper;
use crate::live::find_pattern;
use crate::live::golden_verdict;
use crate::live::law_dry_run_keeps_gate_closed;
use crate::live::record_dry_run;
use crate::live::record_submission;
use crate::live::sniper_verdict;
use crate::live::LiveStats;
use crate::live::Verdict;
use crate::order_manager::OrderSubmission;
use crate::order_manager::SubmissionError;
use crate::position::lemma_place;
use crate::position::pending_of;
use crate::position::place_of;
use crate::position::PositionView;
use crate::position::Positions;
use crate::position::PositionsView;
use crate::risk::EntryZone;
use crate::risk::RejectionReason;
use crate::risk::RiskEngine;
use crate::risk::RiskParams;
use crate::risk::TradeSignal;
use crate::swing::SwingPoint;
use crate::ws_types::OrderBookUpdate;
use crate::ws_types::TradeUpdate;
use vstd::prelude::*;

verus! {

/// An entry that a pattern suggests.
#[derive(Debug, Clone, Copy, PartialEq, Eq, Structural)]
pub struct Candidate {
    pub zone: EntryZone,
    pub timeframe: Timeframe,
    pub pattern: AbcdPattern,
}

/// The entries that the pivots of a timeframe suggest: those of the pattern that they form, the
/// golden one first.
pub open spec fn suggested_by(instrument: InstrumentView, timeframe: Timeframe) -> Seq<Candidate> {
    match instrument.detector_of(timeframe) {
        Some(d) => match abcd_in(d.confirmed) {
            Some(pattern) => seq![
                Candidate { zone: EntryZone::Golden, timeframe, pattern },
                Candidate { zone: EntryZone::Sniper, timeframe, pattern },
            ],
            None => Seq::empty(),
        },
        None => Seq::empty(),
    }
}

/// The entries that new pivots suggest, in the order of the pivots.
pub open spec fn suggested(
    instrument: InstrumentView,
    swings: Seq<(Timeframe, SwingPoint)>,
) -> Seq<Candidate>
    decreases swings.len(),
{
    if swings.len() == 0 {
        Seq::empty()
    } else {
        suggested(instrument, swings.drop_last()) + suggested_by(instrument, swings.last().0)
    }
}

/// The entries that new pivots suggest, in the order of the pivots.
pub fn candidates(instrument: &Instrument, swings: &Vec<(Timeframe, SwingPoint)>) -> (r: Vec<
    Candidate,
>)
    ensures
        r@ == suggested(instrument@, swings@),
{
    let mut r: Vec<Candidate> = Vec::new();
    let mut i: usize = 0;
    assert(swings@.take(0) =~= Seq::empty());
    while i < swings.len()
        invariant
            i <= swings@.len(),
            r@ == suggested(instrument@, swings@.take(i as int)),
        decreases swings@.len() - i,
    {
        let timeframe: Timeframe = swings[i].0;
        let ghost before = r@;
        if let Some(pattern) = find_pattern(instrument, timeframe) {
            r.push(Candidate { zone: EntryZone::Golden, timeframe, pattern });
            r.push(Candidate { zone: EntryZone::Sniper, timeframe, pattern });
        }
        proof {
            let t = swings@.take(i + 1);
            assert(t.drop_last() =~= swings@.take(i as int));
            assert(t.last() == swings@[i as int]);
            assert(r@ =~= before + suggested_by(instrument@, timeframe));
        }
        i = i + 1;
    }
    assert(swings@.take(i as int) =~= swings@);
    r
}

/// What becomes of a suggested entry.
pub open spec fn verdict_on(v: PositionsView, params: RiskParams, c: Candidate) -> Verdict {
    match c.zone {
        EntryZone::Golden => golden_verdict(v, params, c.pattern, c.timeframe),
        EntryZone::Sniper => sniper_verdict(v, params, c.pattern, c.timeframe),
    }
}

/// What to do about a suggested entry.
#[derive(Debug)]
pub enum Step {
    /// Nothing: one like it is pending or open.
    Skipped,
    /// Nothing: there is no open golden entry to add it to.
    Gated,
    /// Nothing: it is not worth its risk.
    Rejected(RejectionReason),
    /// Nothing more: it was recorded under this name, because trading is off.
    Recorded(TradeSignal, String),
    /// Send it under this name.
    Send(TradeSignal, String),
}

/// Whether a step is the one that a verdict calls for.
pub open spec fn carries_out(step: Step, verdict: Verdict, trading: bool, now_ms: u64) -> bool {
    match verdict {
        Verdict::Skipped => step is Skipped,
        Verdict::Gated => step is Gated,
        Verdict::Rejected(reason) => step == Step::Rejected(reason),
        Verdict::Enter(signal) => if trading {
            step matches Step::Send(s, id) && s == signal && id@ == client_id_of(signal, now_ms)
        } else {
            step matches Step::Recorded(s, id) && s == signal && id@ == client_id_of(signal, now_ms)
        },
    }
}

/// The positions after a verdict. Only an entry that is not sent is recorded at once.
pub open spec fn recorded(
    v: PositionsView,
    verdict: Verdict,
    trading: bool,
    now_ms: u64,
) -> PositionsView {
    match verdict {
        Verdict::Enter(signal) => if trading {
            v
        } else {
            v.put(pending_of(signal, client_id_of(signal, now_ms), None, now_ms))
        },
        _ => v,
    }
}

/// The positions after the answer to an entry.
pub open spec fn answered(
    v: PositionsView,
    signal: TradeSignal,
    outcome: Result<OrderSubmission, SubmissionError>,
    now_ms: u64,
) -> PositionsView {
    match outcome {
        Ok(s) => v.indexed(s.entry_ord_id@, s.client_ord_id@).put(
            pending_of(signal, s.client_ord_id@, Some(s.entry_ord_id@), now_ms),
        ),
        Err(_) => v,
    }
}

/// The positions after all of some suggested entries were considered while trading is off.
pub open spec fn dry_run(
    v: PositionsView,
    params: RiskParams,
    cs: Seq<Candidate>,
    now_ms: u64,
) -> PositionsView
    decreases cs.len(),
{
    if cs.len() == 0 {
        v
    } else {
        let w = dry_run(v, params, cs.drop_last(), now_ms);
        recorded(w, verdict_on(w, params, cs.last()), false, now_ms)
    }
}

/// The counts after a verdict.
pub open spec fn tallied(stats: LiveStats, verdict: Verdict) -> LiveStats {
    match verdict {
        Verdict::Gated => LiveStats {
            sniper_gated_off: (stats.sniper_gated_off + 1) as u64,
            ..stats
        },
        Verdict::Enter(_) => LiveStats {
            signals_built: (stats.signals_built + 1) as u64,
            ..stats
        },
        _ => stats,
    }
}

/// What a trade brought about.
pub struct TradeNews {
    pub outcome: IngestOutcome,
    /// The entries to consider, in turn.
    pub candidates: Vec<Candidate>,
    /// Whether to tell how things are.
    pub tell: bool,
}

pub struct TraderView {
    pub instrument: InstrumentView,
    pub params: RiskParams,
    pub trading: bool,
    pub stats: LiveStats,
}

/// The live program.
pub struct Trader {
    instrument: Instrument,
    risk: RiskEngine,
    trading: bool,
    stats: LiveStats,
}

impl View for Trader {
    type V = TraderView;

    closed spec fn view(&self) -> TraderView {
        TraderView {
            instrument: self.instrument@,
            params: self.risk.spec_params(),
            trading: self.trading,
            stats: self.stats,
        }
    }
}

impl Trader {
    /// A program that has seen nothing.
    pub fn new(symbol: &str, params: RiskParams, trading: bool) -> (r: Self)
        ensures
            r@.instrument == fresh_instrument(symbol@, usual_candles(), usual_detectors()),
            r@.instrument.wf(),
            r@.params == params,
            r@.trading == trading,
            r@.stats == LiveStats::zero(),
    {
        Trader {
            instrument: Instrument::new(symbol),
            risk: RiskEngine::new(params),
            trading,
            stats: LiveStats::new(),
        }
    }

    /// The market.
    pub fn instrument(&self) -> (r: &Instrument)
        ensures
            r@ == self@.instrument,
    {
        &self.instrument
    }

    /// The risk rules.
    pub fn risk(&self) -> (r: &RiskEngine)
        ensures
            r.spec_params() == self@.params,
    {
        &self.risk
    }

    /// The counts.
    pub fn stats(&self) -> (r: &LiveStats)
        ensures
            *r == self@.stats,
    {
        &self.stats
    }

    /// Whether a trade at a time can be taken in.
    pub fn accepts(&self, timestamp_ms: u64) -> (r: bool)
        requires
            self@.instrument.wf(),
        ensures
            r == (self@.instrument.has_room(timestamp_ms) && self@.stats.room()),
    {
        self.instrument.accepts(timestamp_ms) && self.stats.has_room()
    }

    /// Takes a trade in.
    pub fn on_trade(&mut self, trade: &TradeUpdate) -> (r: TradeNews)
        requires
            old(self)@.instrument.wf(),
            old(self)@.instrument.has_room(trade.timestamp_ms),
            old(self)@.stats.room(),
        ensures
            ({
                let before = old(self)@;
                let instrument = before.instrument.after(
                    trade.price,
                    trade.size,
                    trade.side@,
                    trade.timestamp_ms,
                );
                let swings = before.instrument.swings(trade.price, trade.size, trade.timestamp_ms);
                &&& final(self)@ == (TraderView {
                    instrument,
                    stats: LiveStats { trades: (before.stats.trades + 1) as u64, ..before.stats },
                    ..before
                })
                &&& r.outcome.closed_candles@ == closed_by(
                    before.instrument.candles,
                    trade.timestamp_ms,
                )
                &&& r.outcome.new_swings@ == swings
                &&& r.candidates@ == suggested(instrument, swings)
            }),
            r.tell == (final(self)@.stats.trades % 1000 == 0),
            final(self)@.instrument.wf(),
    {
        let tell = self.stats.count_trade();
        let outcome = self.instrument.update_from_trade(trade);
        let candidates = candidates(&self.instrument, &outcome.new_swings);
        TradeNews { outcome, candidates, tell }
    }

    /// Takes a book update in. Returns whether to tell of it.
    pub fn on_book(&mut self, book: &OrderBookUpdate) -> (tell: bool)
        requires
            old(self)@.stats.room(),
        ensures
            ({
                let before = old(self)@;
                final(self)@ == (TraderView {
                    instrument: InstrumentView {
                        book: refreshed(
                            before.instrument.book,
                            book.bids@,
                            book.asks@,
                            book.timestamp_ms,
                        ),
                        ..before.instrument
                    },
                    stats: LiveStats { books: (before.stats.books + 1) as u64, ..before.stats },
                    ..before
                })
            }),
            tell == (final(self)@.stats.books % 500 == 0),
    {
        let tell = self.stats.count_book();
        self.instrument.update_from_book(book);
        tell
    }

    /// A trade was not recorded. Returns whether to tell of it.
    pub fn on_dropped_tick(&mut self) -> (tell: bool)
        requires
            old(self)@.stats.room(),
        ensures
            final(self)@ == (TraderView {
                stats: LiveStats {
                    ticks_dropped: (old(self)@.stats.ticks_dropped + 1) as u64,
                    ..old(self)@.stats
                },
                ..old(self)@
            }),
            tell == (final(self)@.stats.ticks_dropped % 100 == 1),
    {
        self.stats.count_dropped_tick()
    }

    /// An order book was not recorded. Returns whether to tell of it.
    pub fn on_dropped_book(&mut self) -> (tell: bool)
        requires
            old(self)@.stats.room(),
        ensures
            final(self)@ == (TraderView {
                stats: LiveStats {
                    books_dropped: (old(self)@.stats.books_dropped + 1) as u64,
                    ..old(self)@.stats
                },
                ..old(self)@
            }),
            tell == (final(self)@.stats.books_dropped % 500 == 1),
    {
        self.stats.count_dropped_book()
    }

    /// Considers a suggested entry.
    pub fn consider(&mut self, positions: &mut Positions, c: &Candidate, now_ms: u64) -> (r: Step)
        requires
            old(positions)@.wf(),
            old(self)@.stats.room(),
        ensures
            ({
                let before = old(self)@;
                let verdict = verdict_on(old(positions)@, before.params, *c);
                &&& carries_out(r, verdict, before.trading, now_ms)
                &&& final(positions)@ == recorded(
                    old(positions)@,
                    verdict,
                    before.trading,
                    now_ms,
                )
                &&& final(self)@ == (TraderView { stats: tallied(before.stats, verdict), ..before })
            }),
            final(positions)@.wf(),
    {
        let verdict = match c.zone {
            EntryZone::Golden => decide_golden(positions, &self.risk, &c.pattern, c.timeframe),
            EntryZone::Sniper => decide_sniper(positions, &self.risk, &c.pattern, c.timeframe),
        };
        match verdict {
            Verdict::Skipped => Step::Skipped,
            Verdict::Gated => {
                self.stats.count_gated();
                Step::Gated
            },
            Verdict::Rejected(reason) => Step::Rejected(reason),
            Verdict::Enter(signal) => {
                self.stats.count_built();
                if self.trading {
                    Step::Send(signal, client_id(&signal, now_ms))
                } else {
                    let id = record_dry_run(positions, &signal, now_ms);
                    Step::Recorded(signal, id)
                }
            },
        }
    }

    /// Takes in the answer to an entry that was sent. Returns whether it was taken.
    pub fn on_reply(
        &mut self,
        positions: &mut Positions,
        signal: &TradeSignal,
        outcome: &Result<OrderSubmission, SubmissionError>,
        now_ms: u64,
    ) -> (taken: bool)
        requires
            old(positions)@.wf(),
            old(self)@.stats.room(),
        ensures
            taken == (outcome is Ok),
            final(positions)@ == answered(old(positions)@, *signal, *outcome, now_ms),
            final(positions)@.wf(),
            final(self)@ == (TraderView {
                stats: if taken {
                    LiveStats {
                        signals_submitted: (old(self)@.stats.signals_submitted + 1) as u64,
                        ..old(self)@.stats
                    }
                } else {
                    old(self)@.stats
                },
                ..old(self)@
            }),
    {
        let taken = record_submission(positions, signal, outcome, now_ms);
        if taken {
            self.stats.count_submitted();
        }
        taken
    }
}

/// While trading is off, nothing is sent.
pub proof fn law_nothing_is_sent_while_trading_is_off(step: Step, verdict: Verdict, now_ms: u64)
    requires
        carries_out(step, verdict, false, now_ms),
    ensures
        !(step is Send),
{
}

/// While trading is off, no sniper entry is made where no golden entry was open, however many
/// entries are considered: what is recorded never counts as filled.
pub proof fn law_dry_run_makes_no_sniper_entries(
    v: PositionsView,
    params: RiskParams,
    cs: Seq<Candidate>,
    c: Candidate,
    now_ms: u64,
)
    requires
        !v.open_golden(c.timeframe, c.pattern.direction),
        c.zone == EntryZone::Sniper,
    ensures
        !dry_run(v, params, cs, now_ms).open_golden(c.timeframe, c.pattern.direction),
        !(verdict_on(dry_run(v, params, cs, now_ms), params, c) is Enter),
    decreases cs.len(),
{
    if cs.len() > 0 {
        law_dry_run_makes_no_sniper_entries(v, params, cs.drop_last(), c, now_ms);
        let w = dry_run(v, params, cs.drop_last(), now_ms);
        if let Verdict::Enter(signal) = verdict_on(w, params, cs.last()) {
            law_dry_run_keeps_gate_closed(
                w,
                signal,
                client_id_of(signal, now_ms),
                now_ms,
                c.timeframe,
                c.pattern,
            );
        }
    }
}

/// An entry that was recorded or taken is skipped when it is suggested again.
pub proof fn law_entries_are_not_repeated(
    v: PositionsView,
    params: RiskParams,
    c: Candidate,
    signal: TradeSignal,
    submission: OrderSubmission,
    now_ms: u64,
)
    requires
        verdict_on(v, params, c) == Verdict::Enter(signal),
    ensures
        verdict_on(recorded(v, Verdict::Enter(signal), false, now_ms), params, c) is Skipped,
        verdict_on(answered(v, signal, Ok(submission), now_ms), params, c) is Skipped,
{
    let made = match c.zone {
        EntryZone::Golden => golden_signal(params, c.pattern, c.timeframe),
        EntryZone::Sniper => sniper_signal(params, c.pattern, c.timeframe),
    };
    assert(made == Ok::<TradeSignal, RejectionReason>(signal));
    let p = pending_of(signal, client_id_of(signal, now_ms), None, now_ms);
    lemma_put_is_active(v, p);
    let w = v.indexed(submission.entry_ord_id@, submission.client_ord_id@);
    let q = pending_of(
        signal,
        submission.client_ord_id@,
        Some(submission.entry_ord_id@),
        now_ms,
    );
    lemma_put_is_active(w, q);
}

/// An active entry that was put among the positions is found there.
proof fn lemma_put_is_active(v: PositionsView, p: PositionView)
    requires
        p.is_active(),
    ensures
        v.put(p).active_entry(p.timeframe, p.direction, p.entry_zone),
{
    lemma_place(v.entries, p.client_ord_id);
    let i = place_of(v.entries, p.client_ord_id) as int;
    assert(v.put(p).entries[i] == p);
}

} // verus!
