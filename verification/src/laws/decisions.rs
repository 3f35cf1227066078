//! Which entries the live program makes, and what it remembers of them.

use crate::abc_brc::abcd_in;
use crate::backtest::golden_signal;
use crate::backtest::sniper_signal;
use crate::candle::Timeframe;
use crate::instrument::InstrumentView;
use crate::live::client_id_of;
use crate::live::LiveStats;
use crate::live::Verdict;
use crate::order_manager::OrderSubmission;
use crate::order_manager::SubmissionError;
use crate::position::pending_of;
use crate::position::PositionsView;
use crate::risk::EntryZone;
use crate::risk::RiskParams;
use crate::risk::TradeSignal;
use crate::swing::SwingPoint;
use crate::text::decimal;
use crate::trader::answered;
use crate::trader::carries_out;
use crate::trader::dry_run;
use crate::trader::recorded;
use crate::trader::suggested;
use crate::trader::tallied;
use crate::trader::verdict_on;
use crate::trader::Candidate;
use crate::trader::Step;
use vstd::prelude::*;

verus! {

/// Whether one like an entry is pending or open.
pub open spec fn has_one_like_it(v: PositionsView, c: Candidate) -> bool {
    exists|i: int|
        0 <= i < v.entries.len() && ({
            let p = #[trigger] v.entries[i];
            &&& p.state is Pending || p.state is Open
            &&& p.timeframe == c.timeframe
            &&& p.direction == c.pattern.direction
            &&& p.entry_zone == c.zone
        })
}

/// Whether a golden entry is open to which an entry can be added.
pub open spec fn has_golden_below(v: PositionsView, c: Candidate) -> bool {
    exists|i: int|
        0 <= i < v.entries.len() && ({
            let p = #[trigger] v.entries[i];
            &&& p.state is Open
            &&& p.timeframe == c.timeframe
            &&& p.direction == c.pattern.direction
            &&& p.entry_zone is Golden
        })
}

/// An entry is skipped where one like it is pending or open. A sniper entry is held back where no
/// golden one is open. Every other entry is made or refused as the risk rules say of its zone.
pub proof fn law_verdicts(v: PositionsView, params: RiskParams, c: Candidate)
    ensures
        ({
            let r = verdict_on(v, params, c);
            let signal = if c.zone is Golden {
                golden_signal(params, c.pattern, c.timeframe)
            } else {
                sniper_signal(params, c.pattern, c.timeframe)
            };
            let held_back = c.zone is Sniper && !has_golden_below(v, c);
            &&& r is Skipped <==> has_one_like_it(v, c)
            &&& r is Gated <==> !has_one_like_it(v, c) && held_back
            &&& !has_one_like_it(v, c) && !held_back ==> {
                &&& signal matches Ok(s) ==> r == Verdict::Enter(s)
                &&& signal matches Err(e) ==> r == Verdict::Rejected(e)
            }
        }),
{
    let (t, d) = (c.timeframe, c.pattern.direction);
    assert(v.active_entry(t, d, c.zone) <==> has_one_like_it(v, c));
    assert(v.open_golden(t, d) <==> has_golden_below(v, c));
}

/// An entry that is to be made is sent under its name while trading is on, and only recorded under
/// it while trading is off. Nothing is sent or recorded otherwise, and the step says why.
pub proof fn law_steps(step: Step, verdict: Verdict, trading: bool, now_ms: u64)
    requires
        carries_out(step, verdict, trading, now_ms),
    ensures
        verdict is Skipped <==> step is Skipped,
        verdict is Gated <==> step is Gated,
        verdict matches Verdict::Rejected(e) ==> step == Step::Rejected(e),
        trading ==> (verdict matches Verdict::Enter(s) ==> (step matches Step::Send(t, id) && t == s
            && id@ == client_id_of(s, now_ms))),
        !trading ==> (verdict matches Verdict::Enter(s) ==> (step matches Step::Recorded(t, id) && t == s
            && id@ == client_id_of(s, now_ms))),
        step is Send ==> verdict is Enter && trading,
        step is Recorded ==> verdict is Enter && !trading,
{
}

/// Only an entry that is made while trading is off is remembered at once: as pending, under its name,
/// without a number of the exchange. It keeps others like it away and lets no sniper entry in.
pub proof fn law_dry_entries(v: PositionsView, verdict: Verdict, trading: bool, now_ms: u64)
    requires
        v.wf(),
    ensures
        ({
            let w = recorded(v, verdict, trading, now_ms);
            &&& verdict !is Enter || trading ==> w == v
            &&& !trading ==> (verdict matches Verdict::Enter(s) ==> {
                let p = w.get(client_id_of(s, now_ms));
                &&& w.by_ord_id == v.by_ord_id
                &&& p is Some
                &&& p->0.state is Pending
                &&& p->0.entry_ord_id is None
                &&& p->0.timeframe == s.timeframe
                &&& p->0.direction == s.direction
                &&& p->0.entry_zone == s.entry_zone
                &&& p->0.contracts == s.contracts
                &&& p->0.entry_price == s.entry_price
                &&& p->0.stop_price == s.stop_price
                &&& p->0.target_price == s.target_price
                &&& p->0.filled_size == 0
                &&& p->0.submitted_at_ms == now_ms
            })
        }),
{
    if let Verdict::Enter(s) = verdict {
        crate::laws::registry::law_submissions(v, s, client_id_of(s, now_ms), None, now_ms);
    }
}

/// An entry that the exchange took is remembered as pending, under its name and with its number. One
/// that was refused leaves no trace.
pub proof fn law_answers(
    v: PositionsView,
    s: TradeSignal,
    outcome: Result<OrderSubmission, SubmissionError>,
    now_ms: u64,
)
    requires
        v.wf(),
    ensures
        ({
            let w = answered(v, s, outcome, now_ms);
            &&& outcome is Err ==> w == v
            &&& outcome matches Ok(o) ==> {
                let p = w.get(o.client_ord_id@);
                &&& p is Some
                &&& p->0.state is Pending
                &&& p->0.entry_ord_id == Some(o.entry_ord_id@)
                &&& p->0.timeframe == s.timeframe
                &&& p->0.direction == s.direction
                &&& p->0.entry_zone == s.entry_zone
                &&& p->0.contracts == s.contracts
                &&& p->0.entry_price == s.entry_price
                &&& p->0.stop_price == s.stop_price
                &&& p->0.target_price == s.target_price
                &&& p->0.submitted_at_ms == now_ms
                &&& exists|i: int|
                    0 <= i < w.by_ord_id.len() && #[trigger] w.by_ord_id[i] == (
                        o.entry_ord_id@,
                        o.client_ord_id@,
                    )
            }
        }),
{
    if let Ok(o) = outcome {
        let (a, b) = (o.entry_ord_id@, o.client_ord_id@);
        let u = v.indexed(a, b);
        let i = crate::position::index_place(v.by_ord_id, a) as int;
        lemma_index_bound(v.by_ord_id, a);
        assert(u.by_ord_id[i] == (a, b));
        lemma_indexed_wf(v, a, b);
        crate::laws::registry::law_submissions(u, s, b, Some(a), now_ms);
        assert(answered(v, s, outcome, now_ms).by_ord_id[i] == (a, b));
    }
}

proof fn lemma_index_bound(pairs: Seq<(Seq<char>, Seq<char>)>, a: Seq<char>)
    ensures
        crate::position::index_place(pairs, a) <= pairs.len(),
        forall|j: int|
            0 <= j < crate::position::index_place(pairs, a) ==> (#[trigger] pairs[j]).0 != a,
        crate::position::index_place(pairs, a) < pairs.len() ==> pairs[crate::position::index_place(
            pairs,
            a,
        ) as int].0 == a,
    decreases pairs.len(),
{
    if pairs.len() > 0 && pairs[0].0 != a {
        lemma_index_bound(pairs.skip(1), a);
        assert forall|j: int| 0 <= j < crate::position::index_place(pairs, a) implies (
        #[trigger] pairs[j]).0 != a by {
            if j > 0 {
                assert(pairs.skip(1)[j - 1] == pairs[j]);
            }
        }
    }
}

proof fn lemma_indexed_wf(v: PositionsView, a: Seq<char>, b: Seq<char>)
    requires
        v.wf(),
    ensures
        v.indexed(a, b).wf(),
{
    lemma_index_bound(v.by_ord_id, a);
    let w = v.indexed(a, b);
    let k = crate::position::index_place(v.by_ord_id, a) as int;
    assert forall|i: int, j: int| 0 <= i < j < w.by_ord_id.len() implies (#[trigger] w.by_ord_id[i]).0
        != (#[trigger] w.by_ord_id[j]).0 by {
        if i != k && j != k {
            assert(v.by_ord_id[i].0 != v.by_ord_id[j].0);
        } else if k == i && j < v.by_ord_id.len() {
            assert(v.by_ord_id[i].0 != v.by_ord_id[j].0);
        } else if k == j {
            assert(v.by_ord_id[i].0 != a);
        }
    }
}

/// What is counted: an entry that is to be made, or one that is held back, and nothing else.
pub proof fn law_counts(stats: LiveStats, verdict: Verdict)
    requires
        stats.room(),
    ensures
        ({
            let s = tallied(stats, verdict);
            &&& s.trades == stats.trades
            &&& s.books == stats.books
            &&& s.signals_submitted == stats.signals_submitted
            &&& s.ticks_dropped == stats.ticks_dropped
            &&& s.books_dropped == stats.books_dropped
            &&& verdict is Enter ==> s.signals_built == stats.signals_built + 1
            &&& verdict !is Enter ==> s.signals_built == stats.signals_built
            &&& verdict is Gated ==> s.sniper_gated_off == stats.sniper_gated_off + 1
            &&& verdict !is Gated ==> s.sniper_gated_off == stats.sniper_gated_off
        }),
{
}

/// Every new pivot suggests the two entries of the setup on its timeframe, the golden one first, if
/// there is a setup; nothing else suggests any.
pub proof fn law_suggestions(
    instrument: InstrumentView,
    swings: Seq<(Timeframe, SwingPoint)>,
    next: (Timeframe, SwingPoint),
)
    ensures
        suggested(instrument, Seq::empty()) == Seq::<Candidate>::empty(),
        ({
            let before = suggested(instrument, swings);
            let after = suggested(instrument, swings.push(next));
            let setup = match instrument.detector_of(next.0) {
                Some(d) => abcd_in(d.confirmed),
                None => None,
            };
            &&& setup is None ==> after == before
            &&& setup matches Some(p) ==> {
                &&& after.len() == before.len() + 2
                &&& after.take(before.len() as int) == before
                &&& after[before.len() as int] == (Candidate {
                    zone: EntryZone::Golden,
                    timeframe: next.0,
                    pattern: p,
                })
                &&& after[before.len() as int + 1] == (Candidate {
                    zone: EntryZone::Sniper,
                    timeframe: next.0,
                    pattern: p,
                })
            }
        }),
{
    assert(swings.push(next).drop_last() =~= swings);
    let before = suggested(instrument, swings);
    let after = suggested(instrument, swings.push(next));
    assert(before + Seq::<Candidate>::empty() =~= before);
    if after.len() > before.len() {
        assert(after.take(before.len() as int) =~= before);
    }
}

/// Entries of different timeframes, zones or times have different names.
pub proof fn law_names_tell_entries_apart(a: TradeSignal, b: TradeSignal, s: u64, t: u64)
    requires
        client_id_of(a, s) == client_id_of(b, t),
    ensures
        a.timeframe == b.timeframe,
        a.entry_zone == b.entry_zone,
        s == t,
{
    reveal_strlit("augur_");
    reveal_strlit("_");
    reveal_strlit("1m");
    reveal_strlit("5m");
    reveal_strlit("15m");
    reveal_strlit("1h");
    reveal_strlit("4h");
    reveal_strlit("1d");
    reveal_strlit("GOLDEN");
    reveal_strlit("SNIPER");
    let (x, y) = (client_id_of(a, s), client_id_of(b, t));
    let (n, m) = (a.timeframe.label_text().len() as int, b.timeframe.label_text().len() as int);
    assert(x[6] == a.timeframe.label_text()[0] && y[6] == b.timeframe.label_text()[0]);
    assert(x[7] == a.timeframe.label_text()[1] && y[7] == b.timeframe.label_text()[1]);
    assert(x[6 + n] == '_' && y[6 + m] == '_');
    assert(n == 2 ==> x[8] == '_');
    assert(m == 2 ==> y[8] == '_');
    assert(n == 3 ==> x[8] == 'm');
    assert(m == 3 ==> y[8] == 'm');
    assert(n == m);
    assert(a.timeframe == b.timeframe);
    assert(x[7 + n] == a.entry_zone.text()[0] && y[7 + n] == b.entry_zone.text()[0]);
    assert(a.entry_zone == b.entry_zone);
    assert(x.skip(14 + n) =~= decimal(s as nat));
    assert(y.skip(14 + n) =~= decimal(t as nat));
    crate::text::law_decimal_round_trip(s);
    crate::text::law_decimal_round_trip(t);
}

/// While trading is off, each suggested entry is judged by what the ones before it have left behind.
pub proof fn law_suggestions_are_judged_in_turn(
    v: PositionsView,
    params: RiskParams,
    cs: Seq<Candidate>,
    c: Candidate,
    now_ms: u64,
)
    ensures
        dry_run(v, params, Seq::empty(), now_ms) == v,
        ({
            let before = dry_run(v, params, cs, now_ms);
            let after = dry_run(v, params, cs.push(c), now_ms);
            match verdict_on(before, params, c) {
                Verdict::Enter(s) => after == before.put(
                    pending_of(s, client_id_of(s, now_ms), None, now_ms),
                ),
                _ => after == before,
            }
        }),
{
    assert(cs.push(c).drop_last() =~= cs);
}

} // verus!
