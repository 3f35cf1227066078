//! The replay of recorded market data through the strategy and a simulated account.

pub use crate::corpus::discover_book_files;
pub use crate::corpus::discover_trade_files;
pub use crate::corpus::read_book_file;
pub use crate::corpus::read_trade_file;
pub use crate::ladder::walk_ladder_limit;
pub use crate::ladder::walk_ladder_market;
pub use crate::ladder::BookSnapshot;
pub use crate::ladder::LadderFill;
pub use crate::metrics::BacktestMetrics;
pub use crate::portfolio::BacktestPortfolio;
pub use crate::portfolio::CompletedTrade;

use crate::abc_brc::abcd_in;
use crate::abc_brc::detect_abcd;
use crate::abc_brc::AbcdPattern;
use crate::abc_brc::PatternDirection;
use crate::candle::Timeframe;
use crate::fibonacci::extended;
use crate::fibonacci::retraced;
use crate::fibonacci::FibSequence;
use crate::fibonacci::FIB_RETRACE_GOLDEN;
use crate::fibonacci::FIB_RETRACE_SNIPER;
use crate::fibonacci::FIB_TARGET_3;
use crate::instrument::time_fits;
use crate::instrument::usual_candles;
use crate::instrument::IngestOutcome;
use crate::instrument::Instrument;
use crate::instrument::InstrumentView;
use crate::metrics::metrics_of;
use crate::number::Real;
use crate::portfolio::OpenPosition;
use crate::portfolio::PortfolioView;
use crate::risk::signal_of;
use crate::risk::EntryZone;
use crate::risk::RejectionReason;
use crate::risk::RiskEngine;
use crate::risk::RiskParams;
use crate::risk::TradeSignal;
use crate::swing::SwingPoint;
use crate::ws_types::TradeUpdate;
use vstd::prelude::*;
use vstd::string::*;

verus! {

/// How orders are filled.
#[derive(Debug, Clone, Copy, PartialEq, Eq, Structural)]
pub enum FillMode {
    /// At once, in full and at the price of the order, when a trade reaches it.
    Optimistic,
    /// Along the recorded order book.
    Ladder,
}

impl FillMode {
    pub open spec fn text(self) -> Seq<char> {
        match self {
            FillMode::Optimistic => "optimistic"@,
            FillMode::Ladder => "ladder"@,
        }
    }

    /// The name of the mode.
    pub fn to_text(&self) -> (s: String)
        ensures
            s@ == self.text(),
    {
        match self {
            FillMode::Optimistic => "optimistic".to_owned(),
            FillMode::Ladder => "ladder".to_owned(),
        }
    }
}

/// What a replay works on.
#[derive(Debug)]
pub struct BacktestConfig {
    /// The directory of the recorded files.
    pub data_dir: String,
    /// Equity in USDT at the start.
    pub starting_equity: Real,
    pub risk_params: RiskParams,
    /// Where the completed trades are written, if anywhere.
    pub csv_output: Option<String>,
    pub symbol: String,
    pub fill_mode: FillMode,
}

impl BacktestConfig {
    /// The usual configuration.
    pub fn with_defaults(data_dir: String, starting_equity: Real) -> (r: Self)
        ensures
            r.data_dir@ == data_dir@,
            r.starting_equity == starting_equity,
            r.risk_params == RiskParams::fmg_default(starting_equity),
            r.csv_output is None,
            r.symbol@ == "BTC-USDT-SWAP"@,
            r.fill_mode == FillMode::Optimistic,
    {
        BacktestConfig {
            data_dir,
            starting_equity,
            risk_params: RiskParams::fmg_default(starting_equity),
            csv_output: None,
            symbol: "BTC-USDT-SWAP".to_owned(),
            fill_mode: FillMode::Optimistic,
        }
    }
}

/// A trade or a book, in one stream.
#[derive(Debug)]
pub enum BacktestEvent {
    Trade(TradeUpdate),
    Book(BookSnapshot),
}

impl BacktestEvent {
    pub open spec fn spec_timestamp_ms(&self) -> u64 {
        match *self {
            BacktestEvent::Trade(t) => t.timestamp_ms,
            BacktestEvent::Book(b) => b.timestamp_ms,
        }
    }

    /// When it happened.
    #[verifier::when_used_as_spec(spec_timestamp_ms)]
    pub fn timestamp_ms(&self) -> (r: u64)
        ensures
            r == self.spec_timestamp_ms(),
    {
        match self {
            BacktestEvent::Trade(t) => t.timestamp_ms,
            BacktestEvent::Book(b) => b.timestamp_ms,
        }
    }
}

/// Two streams merged by time. Of a book and a trade at the same time, the book comes first.
pub open spec fn merged(trades: Seq<TradeUpdate>, books: Seq<BookSnapshot>) -> Seq<BacktestEvent>
    decreases trades.len() + books.len(),
{
    if trades.len() == 0 && books.len() == 0 {
        Seq::empty()
    } else if books.len() > 0 && (trades.len() == 0 || books[0].timestamp_ms <= trades[0].timestamp_ms) {
        seq![BacktestEvent::Book(books[0])] + merged(trades, books.skip(1))
    } else {
        seq![BacktestEvent::Trade(trades[0])] + merged(trades.skip(1), books)
    }
}

/// The items of a list, last first.
fn reversed<T>(items: Vec<T>) -> (r: Vec<T>)
    ensures
        r@ == items@.reverse(),
{
    let mut rest: Vec<T> = items;
    let mut r: Vec<T> = Vec::new();
    let ghost all = rest@;
    while rest.len() > 0
        invariant
            rest@ == all.take(rest@.len() as int),
            rest@.len() <= all.len(),
            r@ == all.skip(rest@.len() as int).reverse(),
        decreases rest@.len(),
    {
        let ghost n = rest@.len() as int;
        match rest.pop() {
            Some(x) => {
                r.push(x);
                proof {
                    assert(all.take(n).drop_last() =~= all.take(n - 1));
                    assert(all.skip(n).reverse().push(all[n - 1]) =~= all.skip(n - 1).reverse());
                }
            },
            None => {},
        }
    }
    proof {
        assert(all.skip(0) =~= all);
    }
    r
}

/// Merges two streams by time. Of a book and a trade at the same time, the book comes first, so
/// that the trade meets it.
pub fn merge_streams(trades: Vec<TradeUpdate>, books: Vec<BookSnapshot>) -> (r: Vec<BacktestEvent>)
    ensures
        r@ == merged(trades@, books@),
{
    let ghost (ts, bs) = (trades@, books@);
    let mut t: Vec<TradeUpdate> = reversed(trades);
    let mut b: Vec<BookSnapshot> = reversed(books);
    let mut out: Vec<BacktestEvent> = Vec::new();
    proof {
        assert(t@.reverse() =~= ts);
        assert(b@.reverse() =~= bs);
        assert(out@ + merged(ts, bs) =~= merged(ts, bs));
    }
    while t.len() > 0 || b.len() > 0
        invariant
            out@ + merged(t@.reverse(), b@.reverse()) == merged(ts, bs),
        decreases t@.len() + b@.len(),
    {
        let ghost (t0, b0, out0) = (t@, b@, out@);
        proof {
            if t0.len() > 0 {
                assert(t0.reverse()[0] == t0.last());
                assert(t0.reverse().skip(1) =~= t0.drop_last().reverse());
            }
            if b0.len() > 0 {
                assert(b0.reverse()[0] == b0.last());
                assert(b0.reverse().skip(1) =~= b0.drop_last().reverse());
            }
        }
        let book_first: bool = b.len() > 0 && (t.len() == 0 || b[b.len() - 1].timestamp_ms <= t[t.len()
            - 1].timestamp_ms);
        if book_first {
            match b.pop() {
                Some(x) => {
                    out.push(BacktestEvent::Book(x));
                },
                None => {},
            }
        } else {
            match t.pop() {
                Some(x) => {
                    out.push(BacktestEvent::Trade(x));
                },
                None => {},
            }
        }
        proof {
            let rest = merged(t@.reverse(), b@.reverse());
            assert(out0 + (seq![out@.last()] + rest) =~= out@ + rest);
        }
    }
    proof {
        assert(t@.reverse().len() == 0 && b@.reverse().len() == 0);
        assert(out@ + Seq::<BacktestEvent>::empty() =~= out@);
    }
    out
}

/// The trades of a stream.
pub open spec fn trades_in(events: Seq<BacktestEvent>) -> Seq<TradeUpdate>
    decreases events.len(),
{
    if events.len() == 0 {
        Seq::empty()
    } else {
        match events[0] {
            BacktestEvent::Trade(t) => seq![t] + trades_in(events.skip(1)),
            BacktestEvent::Book(_) => trades_in(events.skip(1)),
        }
    }
}

/// The books of a stream.
pub open spec fn books_in(events: Seq<BacktestEvent>) -> Seq<BookSnapshot>
    decreases events.len(),
{
    if events.len() == 0 {
        Seq::empty()
    } else {
        match events[0] {
            BacktestEvent::Trade(_) => books_in(events.skip(1)),
            BacktestEvent::Book(b) => seq![b] + books_in(events.skip(1)),
        }
    }
}

/// A merge loses nothing, doubles nothing, and keeps the order within each stream.
pub proof fn law_merge_keeps_both_streams(trades: Seq<TradeUpdate>, books: Seq<BookSnapshot>)
    ensures
        trades_in(merged(trades, books)) == trades,
        books_in(merged(trades, books)) == books,
        merged(trades, books).len() == trades.len() + books.len(),
    decreases trades.len() + books.len(),
{
    let m = merged(trades, books);
    if trades.len() == 0 && books.len() == 0 {
        assert(trades_in(m) =~= trades);
        assert(books_in(m) =~= books);
    } else if books.len() > 0 && (trades.len() == 0 || books[0].timestamp_ms <= trades[0].timestamp_ms) {
        law_merge_keeps_both_streams(trades, books.skip(1));
        assert(m.skip(1) =~= merged(trades, books.skip(1)));
        assert(seq![books[0]] + books.skip(1) =~= books);
    } else {
        law_merge_keeps_both_streams(trades.skip(1), books);
        assert(m.skip(1) =~= merged(trades.skip(1), books));
        assert(seq![trades[0]] + trades.skip(1) =~= trades);
    }
}

/// Whether trades stand in the order of time.
pub open spec fn trades_in_order(s: Seq<TradeUpdate>) -> bool {
    forall|i: int, j: int| 0 <= i < j < s.len() ==> (#[trigger] s[i]).timestamp_ms <= (#[trigger] s[j]).timestamp_ms
}

/// Whether books stand in the order of time.
pub open spec fn books_in_order(s: Seq<BookSnapshot>) -> bool {
    forall|i: int, j: int| 0 <= i < j < s.len() ==> (#[trigger] s[i]).timestamp_ms <= (#[trigger] s[j]).timestamp_ms
}

/// Whether events stand in the order of time.
pub open spec fn events_in_order(s: Seq<BacktestEvent>) -> bool {
    forall|i: int, j: int|
        0 <= i < j < s.len() ==> (#[trigger] s[i]).timestamp_ms() <= (#[trigger] s[j]).timestamp_ms()
}

/// Whether no event of a stream is older than a time.
spec fn none_before(s: Seq<BacktestEvent>, ts: u64) -> bool {
    forall|i: int| 0 <= i < s.len() ==> ts <= (#[trigger] s[i]).timestamp_ms()
}

/// Two streams in the order of time are merged into one in the order of time.
pub proof fn law_merge_is_ordered(trades: Seq<TradeUpdate>, books: Seq<BookSnapshot>)
    requires
        trades_in_order(trades),
        books_in_order(books),
    ensures
        events_in_order(merged(trades, books)),
    decreases trades.len() + books.len(),
{
    let m = merged(trades, books);
    if trades.len() == 0 && books.len() == 0 {
    } else if books.len() > 0 && (trades.len() == 0 || books[0].timestamp_ms <= trades[0].timestamp_ms) {
        let rest = books.skip(1);
        assert(books_in_order(rest)) by {
            assert forall|i: int, j: int| 0 <= i < j < rest.len() implies (#[trigger] rest[i]).timestamp_ms
                <= (#[trigger] rest[j]).timestamp_ms by {
                assert(rest[i] == books[i + 1] && rest[j] == books[j + 1]);
            }
        }
        law_merge_is_ordered(trades, rest);
        let ts = books[0].timestamp_ms;
        assert forall|i: int| 0 <= i < rest.len() implies ts <= (#[trigger] rest[i]).timestamp_ms by {
            assert(rest[i] == books[i + 1]);
        }
        assert forall|i: int| 0 <= i < trades.len() implies ts <= (#[trigger] trades[i]).timestamp_ms by {
            if i > 0 {
                assert(trades[0].timestamp_ms <= trades[i].timestamp_ms);
            }
        }
        lemma_merge_none_before(trades, rest, ts);
        lemma_prepend_in_order(m[0], merged(trades, rest));
        assert(m =~= seq![m[0]] + merged(trades, rest));
    } else {
        let rest = trades.skip(1);
        assert(trades_in_order(rest)) by {
            assert forall|i: int, j: int| 0 <= i < j < rest.len() implies (#[trigger] rest[i]).timestamp_ms
                <= (#[trigger] rest[j]).timestamp_ms by {
                assert(rest[i] == trades[i + 1] && rest[j] == trades[j + 1]);
            }
        }
        law_merge_is_ordered(rest, books);
        let ts = trades[0].timestamp_ms;
        assert forall|i: int| 0 <= i < rest.len() implies ts <= (#[trigger] rest[i]).timestamp_ms by {
            assert(rest[i] == trades[i + 1]);
        }
        assert forall|i: int| 0 <= i < books.len() implies ts <= (#[trigger] books[i]).timestamp_ms by {
            if i > 0 {
                assert(books[0].timestamp_ms <= books[i].timestamp_ms);
            }
        }
        lemma_merge_none_before(rest, books, ts);
        lemma_prepend_in_order(m[0], merged(rest, books));
        assert(m =~= seq![m[0]] + merged(rest, books));
    }
}

proof fn lemma_prepend_in_order(e: BacktestEvent, s: Seq<BacktestEvent>)
    requires
        events_in_order(s),
        none_before(s, e.timestamp_ms()),
    ensures
        events_in_order(seq![e] + s),
{
    let m = seq![e] + s;
    assert forall|i: int, j: int| 0 <= i < j < m.len() implies (#[trigger] m[i]).timestamp_ms() <= (
    #[trigger] m[j]).timestamp_ms() by {
        assert(m[j] == s[j - 1]);
        if i > 0 {
            assert(m[i] == s[i - 1]);
        }
    }
}

proof fn lemma_merge_none_before(trades: Seq<TradeUpdate>, books: Seq<BookSnapshot>, ts: u64)
    requires
        forall|i: int| 0 <= i < trades.len() ==> ts <= (#[trigger] trades[i]).timestamp_ms,
        forall|i: int| 0 <= i < books.len() ==> ts <= (#[trigger] books[i]).timestamp_ms,
    ensures
        none_before(merged(trades, books), ts),
    decreases trades.len() + books.len(),
{
    let m = merged(trades, books);
    if trades.len() == 0 && books.len() == 0 {
    } else if books.len() > 0 && (trades.len() == 0 || books[0].timestamp_ms <= trades[0].timestamp_ms) {
        let rest = books.skip(1);
        assert forall|i: int| 0 <= i < rest.len() implies ts <= (#[trigger] rest[i]).timestamp_ms by {
            assert(rest[i] == books[i + 1]);
        }
        lemma_merge_none_before(trades, rest, ts);
        assert forall|i: int| 0 <= i < m.len() implies ts <= (#[trigger] m[i]).timestamp_ms() by {
            if i > 0 {
                assert(m[i] == merged(trades, rest)[i - 1]);
            }
        }
    } else {
        let rest = trades.skip(1);
        assert forall|i: int| 0 <= i < rest.len() implies ts <= (#[trigger] rest[i]).timestamp_ms by {
            assert(rest[i] == trades[i + 1]);
        }
        lemma_merge_none_before(rest, books, ts);
        assert forall|i: int| 0 <= i < m.len() implies ts <= (#[trigger] m[i]).timestamp_ms() by {
            if i > 0 {
                assert(m[i] == merged(rest, books)[i - 1]);
            }
        }
    }
}

/// The trade at the golden zone of a pattern, or why it is none.
pub open spec fn golden_signal(
    params: RiskParams,
    p: AbcdPattern,
    timeframe: Timeframe,
) -> Result<TradeSignal, RejectionReason> {
    let (a, b, d) = (p.a.price, p.b.price, p.direction);
    signal_of(
        params,
        p,
        extended(a, b, d, Real { bits: FIB_TARGET_3 }),
        timeframe,
        EntryZone::Golden,
        retraced(a, b, d, Real { bits: FIB_RETRACE_GOLDEN }),
    )
}

/// The trade at the sniper zone of a pattern, or why it is none.
pub open spec fn sniper_signal(
    params: RiskParams,
    p: AbcdPattern,
    timeframe: Timeframe,
) -> Result<TradeSignal, RejectionReason> {
    let (a, b, d) = (p.a.price, p.b.price, p.direction);
    signal_of(
        params,
        p,
        extended(a, b, d, Real { bits: FIB_TARGET_3 }),
        timeframe,
        EntryZone::Sniper,
        retraced(a, b, d, Real { bits: FIB_RETRACE_SNIPER }),
    )
}

/// The account after a signal was submitted, if there is one.
pub open spec fn entering(
    v: PortfolioView,
    signal: Result<TradeSignal, RejectionReason>,
    ms: u64,
) -> PortfolioView {
    match signal {
        Ok(s) => v.submitting(s, ms),
        Err(_) => v,
    }
}

/// The account after the strategy looked at the pivots of a timeframe: a golden entry where
/// none is active, and a sniper entry where none is active and the golden entry is filled.
pub open spec fn strategy_on(
    v: PortfolioView,
    pivots: Seq<SwingPoint>,
    timeframe: Timeframe,
    params: RiskParams,
    ms: u64,
) -> PortfolioView {
    match abcd_in(pivots) {
        Some(p) => {
            let w = if v.active_entry(timeframe, p.direction, EntryZone::Golden) {
                v
            } else {
                entering(v, golden_signal(params, p, timeframe), ms)
            };
            if !w.active_entry(timeframe, p.direction, EntryZone::Sniper) && w.open_golden(
                timeframe,
                p.direction,
            ) {
                entering(w, sniper_signal(params, p, timeframe), ms)
            } else {
                w
            }
        },
        None => v,
    }
}

/// The account after the strategy looked at every timeframe that has a new pivot.
pub open spec fn strategy_steps(
    v: PortfolioView,
    instrument: InstrumentView,
    swings: Seq<(Timeframe, SwingPoint)>,
    params: RiskParams,
    ms: u64,
) -> PortfolioView
    decreases swings.len(),
{
    if swings.len() == 0 {
        v
    } else {
        let w = strategy_steps(v, instrument, swings.drop_last(), params, ms);
        let timeframe = swings.last().0;
        match instrument.detector_of(timeframe) {
            Some(d) => strategy_on(w, d.confirmed, timeframe, params, ms),
            None => w,
        }
    }
}

/// The state of a replay.
pub struct EngineView {
    pub instrument: InstrumentView,
    pub params: RiskParams,
    pub portfolio: PortfolioView,
    pub last_tick_ts: u64,
    pub last_price: Real,
    pub config: BacktestConfig,
}

impl EngineView {
    pub open spec fn wf(self) -> bool {
        self.instrument.wf() && self.portfolio.wf()
    }

    /// The state after a trade.
    pub open spec fn after_trade(self, trade: TradeUpdate, mode: FillMode) -> EngineView {
        let (price, size, ts) = (trade.price, trade.size, trade.timestamp_ms);
        let portfolio = match mode {
            FillMode::Optimistic => self.portfolio.after_tick(price, ts),
            FillMode::Ladder => self.portfolio.after_tick_on_book(price, ts),
        };
        let instrument = self.instrument.after(price, size, trade.side@, ts);
        EngineView {
            instrument,
            portfolio: strategy_steps(
                portfolio,
                instrument,
                self.instrument.swings(price, size, ts),
                self.params,
                ts,
            ),
            ..self
        }
    }

    /// The state after an event of a merged stream.
    pub open spec fn after_event(self, event: BacktestEvent) -> EngineView {
        match event {
            BacktestEvent::Trade(t) => EngineView {
                last_tick_ts: t.timestamp_ms,
                last_price: t.price,
                ..self
            }.after_trade(t, FillMode::Ladder),
            BacktestEvent::Book(b) => EngineView {
                last_tick_ts: b.timestamp_ms,
                portfolio: self.portfolio.after_book(b),
                ..self
            },
        }
    }

    /// The state after some trades, fills being optimistic.
    pub open spec fn after_trades(self, trades: Seq<TradeUpdate>) -> EngineView
        decreases trades.len(),
    {
        if trades.len() == 0 {
            self
        } else {
            let t = trades.last();
            EngineView {
                last_tick_ts: t.timestamp_ms,
                last_price: t.price,
                ..self.after_trades(trades.drop_last())
            }.after_trade(t, FillMode::Optimistic)
        }
    }

    /// The state after some events, fills going along the book.
    pub open spec fn after_events(self, events: Seq<BacktestEvent>) -> EngineView
        decreases events.len(),
    {
        if events.len() == 0 {
            self
        } else {
            self.after_events(events.drop_last()).after_event(events.last())
        }
    }

    /// The state at the end of the data.
    pub open spec fn finished(self) -> EngineView {
        EngineView { portfolio: self.portfolio.at_end(self.last_price, self.last_tick_ts), ..self }
    }

    /// The state after a whole replay.
    pub open spec fn replayed(self, trades: Seq<TradeUpdate>, books: Seq<BookSnapshot>) -> EngineView {
        let start = EngineView { last_price: Real::from_u64(0), ..self };
        match self.config.fill_mode {
            FillMode::Optimistic => start.after_trades(trades).finished(),
            FillMode::Ladder => start.after_events(merged(trades, books)).finished(),
        }
    }
}

/// Whether a replay can take some trades in: their times and their count fit into 64 bits.
pub open spec fn replay_fits(v: InstrumentView, trades: Seq<TradeUpdate>) -> bool {
    &&& v.trade_count + trades.len() <= u64::MAX
    &&& forall|i: int| 0 <= i < trades.len() ==> time_fits(v.candles, (#[trigger] trades[i]).timestamp_ms)
}

/// Why a replay cannot start.
#[derive(Debug, Clone, Copy, PartialEq, Eq, Structural)]
pub enum MissingData {
    NoTradeFiles,
    NoBookFiles,
}

impl MissingData {
    pub open spec fn text(self, data_dir: Seq<char>) -> Seq<char> {
        match self {
            MissingData::NoTradeFiles => "no trade Parquet files found in "@ + data_dir,
            MissingData::NoBookFiles => "no book Parquet files found in "@ + data_dir
                + " — ladder mode requires book data. Did you record with AUGUR_PERSISTENCE_ENABLED=1 on v0.9+?"@,
        }
    }

    /// The reason in words.
    pub fn to_text(&self, data_dir: &str) -> (s: String)
        ensures
            s@ == self.text(data_dir@),
    {
        match self {
            MissingData::NoTradeFiles => {
                let mut s = "no trade Parquet files found in ".to_owned();
                s.append(data_dir);
                s
            },
            MissingData::NoBookFiles => {
                let mut s = "no book Parquet files found in ".to_owned();
                s.append(data_dir);
                s.append(
                    " — ladder mode requires book data. Did you record with AUGUR_PERSISTENCE_ENABLED=1 on v0.9+?",
                );
                s
            },
        }
    }
}

/// What a replay lacks: trades in any mode, books when fills go along them.
pub open spec fn missing(mode: FillMode, trade_files: nat, book_files: nat) -> Option<MissingData> {
    if trade_files == 0 {
        Some(MissingData::NoTradeFiles)
    } else if mode == FillMode::Ladder && book_files == 0 {
        Some(MissingData::NoBookFiles)
    } else {
        None
    }
}

/// What a replay of so many files lacks, if anything.
pub fn missing_data(mode: FillMode, trade_files: usize, book_files: usize) -> (r: Option<
    MissingData,
>)
    ensures
        r == missing(mode, trade_files as nat, book_files as nat),
{
    if trade_files == 0 {
        Some(MissingData::NoTradeFiles)
    } else if mode == FillMode::Ladder && book_files == 0 {
        Some(MissingData::NoBookFiles)
    } else {
        None
    }
}

/// Replays recorded data through the strategy.
pub struct BacktestEngine {
    config: BacktestConfig,
    instrument: Instrument,
    risk: RiskEngine,
    portfolio: BacktestPortfolio,
    last_tick_ts: u64,
    last_price: Real,
}

impl View for BacktestEngine {
    type V = EngineView;

    closed spec fn view(&self) -> EngineView {
        EngineView {
            instrument: self.instrument@,
            params: self.risk.spec_params(),
            portfolio: self.portfolio@,
            last_tick_ts: self.last_tick_ts,
            last_price: self.last_price,
            config: self.config,
        }
    }
}

impl BacktestEngine {
    /// A replay that has seen nothing.
    pub fn new(config: BacktestConfig) -> (r: Self)
        ensures
            r@.wf(),
            r@.params == config.risk_params,
            r@.config == config,
            r@.last_tick_ts == 0,
            r@.last_price == Real::from_u64(0),
            r@.instrument == crate::instrument::fresh_instrument(
                config.symbol@,
                usual_candles(),
                crate::instrument::usual_detectors(),
            ),
            r@.portfolio.starting_equity == config.starting_equity,
            r@.portfolio.equity == config.starting_equity,
            r@.portfolio.active.len() == 0,
            r@.portfolio.completed.len() == 0,
            r@.portfolio.book.is_blank(),
            r@.portfolio.book.is_empty(),
    {
        let instrument = Instrument::new(config.symbol.as_str());
        let risk = RiskEngine::new(config.risk_params);
        let portfolio = BacktestPortfolio::new(config.starting_equity);
        BacktestEngine {
            config,
            instrument,
            risk,
            portfolio,
            last_tick_ts: 0,
            last_price: Real::from_u64(0),
        }
    }

    /// The simulated account.
    pub fn portfolio(&self) -> (r: &BacktestPortfolio)
        ensures
            r@ == self@.portfolio,
    {
        &self.portfolio
    }

    /// Whether a replay can take some trades in.
    pub fn accepts(&self, trades: &Vec<TradeUpdate>) -> (r: bool)
        requires
            self@.wf(),
        ensures
            r == replay_fits(self@.instrument, trades@),
    {
        if self.instrument.trades_seen() > u64::MAX - trades.len() as u64 {
            return false;
        }
        let mut i: usize = 0;
        while i < trades.len()
            invariant
                i <= trades@.len(),
                self@.wf(),
                self@.instrument.trade_count + trades@.len() <= u64::MAX,
                forall|k: int|
                    0 <= k < i ==> time_fits(self@.instrument.candles, (#[trigger] trades@[k]).timestamp_ms),
            decreases trades@.len() - i,
        {
            if !self.instrument.accepts(trades[i].timestamp_ms) {
                return false;
            }
            i = i + 1;
        }
        true
    }

    /// Replays all data and returns the results.
    ///
    /// The trades are those of all trade files and the books those of all book files, in the
    /// order of the files. The books count only when fills go along them.
    pub fn run(
        &mut self,
        trade_files: usize,
        trades: Vec<TradeUpdate>,
        book_files: usize,
        books: Vec<BookSnapshot>,
    ) -> (r: Result<BacktestMetrics, MissingData>)
        requires
            old(self)@.wf(),
            replay_fits(old(self)@.instrument, trades@),
        ensures
            match missing(old(self)@.config.fill_mode, trade_files as nat, book_files as nat) {
                Some(e) => r == Err::<BacktestMetrics, MissingData>(e) && final(self)@ == old(self)@,
                None => {
                    &&& final(self)@ == old(self)@.replayed(trades@, books@)
                    &&& r == Ok::<BacktestMetrics, MissingData>(metrics_of(final(self)@.portfolio))
                },
            },
            final(self)@.wf(),
    {
        if let Some(e) = missing_data(self.config.fill_mode, trade_files, book_files) {
            return Err(e);
        }
        match self.config.fill_mode {
            FillMode::Optimistic => {
                self.run_optimistic(trades);
            },
            FillMode::Ladder => {
                self.run_ladder(trades, books);
            },
        }
        Ok(BacktestMetrics::compute(&self.portfolio))
    }

    fn run_optimistic(&mut self, trades: Vec<TradeUpdate>)
        requires
            old(self)@.wf(),
            replay_fits(old(self)@.instrument, trades@),
            old(self)@.config.fill_mode == FillMode::Optimistic,
        ensures
            final(self)@ == old(self)@.replayed(trades@, Seq::empty()),
            final(self)@.wf(),
    {
        self.last_price = Real::from_u64(0);
        let ghost start = self@;
        let mut i: usize = 0;
        proof {
            assert(trades@.take(0) =~= Seq::<TradeUpdate>::empty());
        }
        while i < trades.len()
            invariant
                i <= trades@.len(),
                self@.wf(),
                replay_fits(start.instrument, trades@),
                self@ == start.after_trades(trades@.take(i as int)),
                self@.instrument.trade_count == start.instrument.trade_count + i,
                same_timeframes(start.instrument, self@.instrument),
            decreases trades@.len() - i,
        {
            proof {
                let t = trades@.take(i + 1);
                assert(t.drop_last() =~= trades@.take(i as int));
                assert(t.last() == trades@[i as int]);
                lemma_time_fits(start.instrument, self@.instrument, trades@[i as int].timestamp_ms);
                lemma_same_timeframes(
                    start.instrument,
                    self@.instrument,
                    trades@[i as int].price,
                    trades@[i as int].size,
                    trades@[i as int].side@,
                    trades@[i as int].timestamp_ms,
                );
            }
            self.last_tick_ts = trades[i].timestamp_ms;
            self.last_price = trades[i].price;
            self.process_tick(&trades[i]);
            i = i + 1;
        }
        proof {
            assert(trades@.take(i as int) =~= trades@);
        }
        self.portfolio.force_close_all(self.last_price, self.last_tick_ts);
    }

    fn run_ladder(&mut self, trades: Vec<TradeUpdate>, books: Vec<BookSnapshot>)
        requires
            old(self)@.wf(),
            replay_fits(old(self)@.instrument, trades@),
            old(self)@.config.fill_mode == FillMode::Ladder,
        ensures
            final(self)@ == old(self)@.replayed(trades@, books@),
            final(self)@.wf(),
    {
        self.last_price = Real::from_u64(0);
        let ghost start = self@;
        let ghost (ts, bs) = (trades@, books@);
        let events: Vec<BacktestEvent> = merge_streams(trades, books);
        let mut i: usize = 0;
        proof {
            assert(events@.take(0) =~= Seq::<BacktestEvent>::empty());
            assert(events@.skip(0) =~= events@);
            law_merge_keeps_both_streams(ts, bs);
            assert(trades_in(events@.skip(0)) == ts.skip(0)) by {
                assert(ts.skip(0) =~= ts);
            }
        }
        let ghost mut seen: nat = 0;
        while i < events.len()
            invariant
                i <= events@.len(),
                self@.wf(),
                replay_fits(start.instrument, ts),
                self@ == start.after_events(events@.take(i as int)),
                seen <= ts.len(),
                self@.instrument.trade_count == start.instrument.trade_count + seen,
                trades_in(events@.skip(i as int)) == ts.skip(seen as int),
                same_timeframes(start.instrument, self@.instrument),
            decreases events@.len() - i,
        {
            proof {
                let e = events@.take(i + 1);
                assert(e.drop_last() =~= events@.take(i as int));
                assert(e.last() == events@[i as int]);
                let rest = events@.skip(i as int);
                assert(rest[0] == events@[i as int]);
                assert(rest.skip(1) =~= events@.skip(i + 1));
            }
            match &events[i] {
                BacktestEvent::Book(snap) => {
                    self.last_tick_ts = snap.timestamp_ms;
                    self.portfolio.process_book(*snap);
                },
                BacktestEvent::Trade(trade) => {
                    proof {
                        let rest = events@.skip(i as int);
                        let u = trades_in(rest);
                        assert(u =~= seq![*trade] + trades_in(rest.skip(1)));
                        assert(u.len() > 0);
                        assert(ts.skip(seen as int)[0] == *trade);
                        assert(ts[seen as int] == *trade);
                        assert(ts.skip(seen as int).skip(1) =~= ts.skip(seen as int + 1));
                        assert(u.skip(1) =~= trades_in(rest.skip(1)));
                        lemma_time_fits(start.instrument, self@.instrument, trade.timestamp_ms);
                        lemma_same_timeframes(
                            start.instrument,
                            self@.instrument,
                            trade.price,
                            trade.size,
                            trade.side@,
                            trade.timestamp_ms,
                        );
                        seen = seen + 1;
                    }
                    self.last_tick_ts = trade.timestamp_ms;
                    self.last_price = trade.price;
                    self.process_tick_ladder(trade);
                },
            }
            i = i + 1;
        }
        proof {
            assert(events@.take(i as int) =~= events@);
        }
        self.portfolio.force_close_all(self.last_price, self.last_tick_ts);
    }

    /// Takes a trade in, fills being optimistic.
    pub fn process_tick(&mut self, trade: &TradeUpdate)
        requires
            old(self)@.wf(),
            old(self)@.instrument.has_room(trade.timestamp_ms),
        ensures
            final(self)@ == old(self)@.after_trade(*trade, FillMode::Optimistic),
            final(self)@.wf(),
    {
        self.portfolio.process_tick(trade.price, trade.timestamp_ms);
        let outcome: IngestOutcome = self.instrument.update_from_trade(trade);
        self.run_strategy_step(&outcome, trade.timestamp_ms);
    }

    /// Takes a trade in, fills going along the book.
    pub fn process_tick_ladder(&mut self, trade: &TradeUpdate)
        requires
            old(self)@.wf(),
            old(self)@.instrument.has_room(trade.timestamp_ms),
        ensures
            final(self)@ == old(self)@.after_trade(*trade, FillMode::Ladder),
            final(self)@.wf(),
    {
        self.portfolio.process_tick_ladder(trade.price, trade.timestamp_ms);
        let outcome: IngestOutcome = self.instrument.update_from_trade(trade);
        self.run_strategy_step(&outcome, trade.timestamp_ms);
    }

    /// Lets the strategy look at every timeframe with new pivots. It only adds entries: never a
    /// second one on a timeframe, a direction and a zone, and a sniper entry only on a golden one
    /// that was completely filled before.
    pub fn run_strategy_step(&mut self, outcome: &IngestOutcome, now_ms: u64)
        requires
            old(self)@.wf(),
        ensures
            only_entered(old(self)@.portfolio, final(self)@.portfolio),
            entries_distinct(old(self)@.portfolio) ==> entries_distinct(final(self)@.portfolio),
            outcome.new_swings@.len() == 0 ==> final(self)@ == old(self)@,
            final(self)@ == (EngineView {
                portfolio: strategy_steps(
                    old(self)@.portfolio,
                    old(self)@.instrument,
                    outcome.new_swings@,
                    old(self)@.params,
                    now_ms,
                ),
                ..old(self)@
            }),
            final(self)@.wf(),
    {
        let ghost start = self@;
        let ghost swings = outcome.new_swings@;
        let mut i: usize = 0;
        proof {
            assert(swings.take(0) =~= Seq::<(Timeframe, SwingPoint)>::empty());
        }
        while i < outcome.new_swings.len()
            invariant
                i <= outcome.new_swings@.len(),
                swings == outcome.new_swings@,
                self@.wf(),
                self@ == (EngineView {
                    portfolio: strategy_steps(
                        start.portfolio,
                        start.instrument,
                        swings.take(i as int),
                        start.params,
                        now_ms,
                    ),
                    ..start
                }),
            decreases outcome.new_swings@.len() - i,
        {
            proof {
                assert(swings.take(i + 1).drop_last() =~= swings.take(i as int));
                assert(swings.take(i + 1).last() == swings[i as int]);
            }
            let timeframe: Timeframe = outcome.new_swings[i].0;
            self.strategy_on_timeframe(timeframe, now_ms);
            i = i + 1;
        }
        proof {
            law_strategy_step(start.portfolio, start.instrument, swings, start.params, now_ms);
            assert(swings.take(i as int) =~= swings);
        }
    }

    /// Lets the strategy look at the pivots of a timeframe.
    fn strategy_on_timeframe(&mut self, timeframe: Timeframe, now_ms: u64)
        requires
            old(self)@.wf(),
        ensures
            final(self)@ == (EngineView {
                portfolio: match old(self)@.instrument.detector_of(timeframe) {
                    Some(d) => strategy_on(
                        old(self)@.portfolio,
                        d.confirmed,
                        timeframe,
                        old(self)@.params,
                        now_ms,
                    ),
                    None => old(self)@.portfolio,
                },
                ..old(self)@
            }),
            final(self)@.wf(),
    {
        let pattern: AbcdPattern = match self.instrument.swing_detector(timeframe) {
            Some(detector) => match detect_abcd(detector) {
                Some(p) => p,
                None => return ,
            },
            None => return ,
        };
        let fib = FibSequence::from_pattern(&pattern);
        let golden_active: bool = self.portfolio.has_active_entry(
            timeframe,
            pattern.direction,
            EntryZone::Golden,
        );
        if !golden_active {
            if let Ok(signal) = self.risk.evaluate_golden(&pattern, &fib, timeframe) {
                self.portfolio.submit(signal, now_ms);
            }
        }
        let sniper_active: bool = self.portfolio.has_active_entry(
            timeframe,
            pattern.direction,
            EntryZone::Sniper,
        );
        let golden_open: bool = self.portfolio.has_open_golden(timeframe, pattern.direction);
        if !sniper_active && golden_open {
            if let Ok(signal) = self.risk.evaluate_sniper(&pattern, &fib, timeframe) {
                self.portfolio.submit(signal, now_ms);
            }
        }
    }
}

/// Whether two states have candles of the same timeframes.
pub open spec fn same_timeframes(a: InstrumentView, b: InstrumentView) -> bool {
    &&& a.candles.len() == b.candles.len()
    &&& forall|i: int| 0 <= i < a.candles.len() ==> (#[trigger] a.candles[i]).timeframe == b.candles[i].timeframe
}

proof fn lemma_time_fits(a: InstrumentView, b: InstrumentView, ts: u64)
    requires
        same_timeframes(a, b),
        time_fits(a.candles, ts),
    ensures
        time_fits(b.candles, ts),
{
    assert forall|i: int| 0 <= i < b.candles.len() implies (#[trigger] b.candles[i]).start_of(ts)
        + b.candles[i].timeframe.duration_ms() <= u64::MAX by {
        assert(a.candles[i].timeframe == b.candles[i].timeframe);
    }
}

proof fn lemma_same_timeframes(a: InstrumentView, b: InstrumentView, price: Real, size: Real, side: Seq<char>, ts: u64)
    requires
        same_timeframes(a, b),
    ensures
        same_timeframes(a, b.after(price, size, side, ts)),
{
    let c = b.after(price, size, side, ts);
    assert forall|i: int| 0 <= i < a.candles.len() implies (#[trigger] a.candles[i]).timeframe
        == c.candles[i].timeframe by {
        assert(b.candles[i].timeframe == c.candles[i].timeframe);
    }
}

/// Whether no two entries share timeframe, direction and zone.
pub open spec fn entries_distinct(v: PortfolioView) -> bool {
    forall|i: int, j: int|
        0 <= i < j < v.active.len() ==> !(#[trigger] v.active[i]).is_entry(
            (#[trigger] v.active[j]).signal.timeframe,
            v.active[j].signal.direction,
            v.active[j].signal.entry_zone,
        )
}

/// The strategy never stacks a second entry on a timeframe, a direction and a zone.
pub proof fn law_strategy_never_stacks(
    v: PortfolioView,
    pivots: Seq<SwingPoint>,
    timeframe: Timeframe,
    params: RiskParams,
    ms: u64,
)
    requires
        entries_distinct(v),
    ensures
        entries_distinct(strategy_on(v, pivots, timeframe, params, ms)),
{
    match abcd_in(pivots) {
        Some(p) => {
            let w = if v.active_entry(timeframe, p.direction, EntryZone::Golden) {
                v
            } else {
                entering(v, golden_signal(params, p, timeframe), ms)
            };
            if !v.active_entry(timeframe, p.direction, EntryZone::Golden) {
                if let Ok(s) = golden_signal(params, p, timeframe) {
                    lemma_distinct_entry(v, s, ms);
                }
            }
            if !w.active_entry(timeframe, p.direction, EntryZone::Sniper) && w.open_golden(
                timeframe,
                p.direction,
            ) {
                if let Ok(s) = sniper_signal(params, p, timeframe) {
                    lemma_distinct_entry(w, s, ms);
                }
            }
        },
        None => {},
    }
}

proof fn lemma_distinct_entry(v: PortfolioView, s: TradeSignal, ms: u64)
    requires
        entries_distinct(v),
        !v.active_entry(s.timeframe, s.direction, s.entry_zone),
    ensures
        entries_distinct(v.submitting(s, ms)),
{
    let w = v.submitting(s, ms);
    assert forall|i: int, j: int| 0 <= i < j < w.active.len() implies !(#[trigger] w.active[i]).is_entry(
        (#[trigger] w.active[j]).signal.timeframe,
        w.active[j].signal.direction,
        w.active[j].signal.entry_zone,
    ) by {
        assert(w.active[i] == v.active[i]);
        if j < v.active.len() {
            assert(w.active[j] == v.active[j]);
        } else {
            assert(!v.active[i].is_entry(s.timeframe, s.direction, s.entry_zone));
        }
    }
}

/// A sniper entry is added only where a golden entry of the same timeframe and direction is
/// completely filled: without one, the strategy adds golden entries alone.
pub proof fn law_sniper_needs_open_golden(
    v: PortfolioView,
    pivots: Seq<SwingPoint>,
    timeframe: Timeframe,
    params: RiskParams,
    ms: u64,
)
    requires
        forall|d: PatternDirection| !v.open_golden(timeframe, d),
    ensures
        ({
            let w = strategy_on(v, pivots, timeframe, params, ms);
            &&& w.active.len() >= v.active.len()
            &&& forall|i: int|
                v.active.len() <= i < w.active.len() ==> (#[trigger] w.active[i]).signal.entry_zone
                    == EntryZone::Golden
            &&& forall|i: int| 0 <= i < v.active.len() ==> #[trigger] w.active[i] == v.active[i]
        }),
{
    match abcd_in(pivots) {
        Some(p) => {
            let w = if v.active_entry(timeframe, p.direction, EntryZone::Golden) {
                v
            } else {
                entering(v, golden_signal(params, p, timeframe), ms)
            };
            assert(!w.open_golden(timeframe, p.direction)) by {
                assert(!v.open_golden(timeframe, p.direction));
                if w.open_golden(timeframe, p.direction) {
                    let i = choose|i: int|
                        {
                            &&& 0 <= i < w.active.len()
                            &&& (#[trigger] w.active[i]).fully_open()
                            &&& w.active[i].is_entry(timeframe, p.direction, EntryZone::Golden)
                        };
                    if i < v.active.len() {
                        assert(w.active[i] == v.active[i]);
                    }
                }
            }
        },
        None => {},
    }
}

/// Ticks and books never stack entries: each position stays what it is, or ends.
pub proof fn law_market_never_stacks(v: PortfolioView, price: Real, ms: u64, book: BookSnapshot)
    requires
        entries_distinct(v),
    ensures
        entries_distinct(v.after_tick(price, ms)),
        entries_distinct(v.after_tick_on_book(price, ms)),
        entries_distinct(v.after_book(book)),
{
    let start = PortfolioView { active: Seq::empty(), ..v };
    lemma_ticking_distinct(start, v.active, price, ms);
    lemma_walking_distinct(start, v.active, price, ms);
    let w = v.after_book(book);
    assert forall|i: int, j: int| 0 <= i < j < w.active.len() implies !(#[trigger] w.active[i]).is_entry(
        (#[trigger] w.active[j]).signal.timeframe,
        w.active[j].signal.direction,
        w.active[j].signal.entry_zone,
    ) by {
        assert(w.active[i].signal == v.active[i].signal && w.active[j].signal == v.active[j].signal);
    }
}

/// Whether the entries that are kept and those that are left are distinct.
spec fn distinct_with(v: PortfolioView, rest: Seq<OpenPosition>) -> bool {
    entries_distinct(PortfolioView { active: v.active + rest, ..v })
}

proof fn lemma_distinct_step(v: PortfolioView, rest: Seq<OpenPosition>, p: OpenPosition)
    requires
        rest.len() > 0,
        distinct_with(v, rest),
        p.signal == rest[0].signal,
    ensures
        distinct_with(v, rest.skip(1)),
        distinct_with(PortfolioView { active: v.active.push(p), ..v }, rest.skip(1)),
{
    let a = v.active + rest;
    let n = v.active.len() as int;
    let va = PortfolioView { active: a, ..v };
    let b = v.active + rest.skip(1);
    let vb = PortfolioView { active: b, ..v };
    assert forall|i: int, j: int| 0 <= i < j < b.len() implies !(#[trigger] vb.active[i]).is_entry(
        (#[trigger] vb.active[j]).signal.timeframe,
        vb.active[j].signal.direction,
        vb.active[j].signal.entry_zone,
    ) by {
        let i2 = if i < n { i } else { i + 1 };
        let j2 = if j < n { j } else { j + 1 };
        assert(b[i] == va.active[i2] && b[j] == va.active[j2]);
    }
    let c = v.active.push(p) + rest.skip(1);
    let vc = PortfolioView { active: c, ..v };
    assert forall|i: int, j: int| 0 <= i < j < c.len() implies !(#[trigger] vc.active[i]).is_entry(
        (#[trigger] vc.active[j]).signal.timeframe,
        vc.active[j].signal.direction,
        vc.active[j].signal.entry_zone,
    ) by {
        assert(c[i].signal == va.active[i].signal && c[j].signal == va.active[j].signal);
    }
}

proof fn lemma_ticking_distinct(v: PortfolioView, rest: Seq<OpenPosition>, price: Real, ms: u64)
    requires
        distinct_with(v, rest),
    ensures
        entries_distinct(v.ticking(rest, price, ms)),
    decreases rest.len(),
{
    if rest.len() == 0 {
        assert(v.active + rest =~= v.active);
    } else {
        let p = rest[0].ticked(price, ms);
        lemma_distinct_step(v, rest, p);
        let w = v.settling(p, p.exit_at(price), ms);
        if p.exit_at(price) is Some {
            assert((PortfolioView { active: w.active + rest.skip(1), ..w }).active =~= v.active + rest.skip(1));
        }
        lemma_ticking_distinct(w, rest.skip(1), price, ms);
    }
}

proof fn lemma_walking_distinct(v: PortfolioView, rest: Seq<OpenPosition>, price: Real, ms: u64)
    requires
        distinct_with(v, rest),
    ensures
        entries_distinct(v.walking(rest, price, ms)),
    decreases rest.len(),
{
    if rest.len() == 0 {
        assert(v.active + rest =~= v.active);
    } else {
        let p = rest[0].ticked_on(v.book, price, ms);
        lemma_distinct_step(v, rest, p);
        let w = v.settling(p, p.exit_on(v.book, price), ms);
        if p.exit_on(v.book, price) is Some {
            assert((PortfolioView { active: w.active + rest.skip(1), ..w }).active =~= v.active + rest.skip(1));
        }
        lemma_walking_distinct(w, rest.skip(1), price, ms);
    }
}

/// Whether one state of an account is another with more entries that nothing has filled yet, the
/// sniper entries among them each on a golden entry that was completely filled before.
pub open spec fn only_entered(v: PortfolioView, w: PortfolioView) -> bool {
    &&& w == (PortfolioView { active: w.active, ..v })
    &&& v.active.is_prefix_of(w.active)
    &&& forall|i: int|
        v.active.len() <= i < w.active.len() ==> {
            let p = #[trigger] w.active[i];
            &&& p.fill_time_ms is None
            &&& p.filled_contracts == 0
            &&& p.signal.entry_zone == EntryZone::Sniper ==> v.open_golden(
                p.signal.timeframe,
                p.signal.direction,
            )
        }
}

/// A whole step of the strategy, over all new pivots of a trade, never stacks an entry on a
/// timeframe, a direction and a zone. It adds a sniper entry only where a golden entry of its
/// timeframe and direction was completely filled before the step. It leaves the other entries, the
/// equity and the completed trades alone, and without new pivots it does nothing.
pub proof fn law_strategy_step(
    v: PortfolioView,
    instrument: InstrumentView,
    swings: Seq<(Timeframe, SwingPoint)>,
    params: RiskParams,
    ms: u64,
)
    ensures
        ({
            let w = strategy_steps(v, instrument, swings, params, ms);
            &&& entries_distinct(v) ==> entries_distinct(w)
            &&& only_entered(v, w)
            &&& swings.len() == 0 ==> w == v
        }),
    decreases swings.len(),
{
    if swings.len() == 0 {
        assert(v.active =~= v.active.subrange(0, v.active.len() as int));
    } else {
        let head = swings.drop_last();
        law_strategy_step(v, instrument, head, params, ms);
        let u = strategy_steps(v, instrument, head, params, ms);
        let timeframe = swings.last().0;
        match instrument.detector_of(timeframe) {
            Some(d) => {
                let w = strategy_on(u, d.confirmed, timeframe, params, ms);
                if entries_distinct(u) {
                    law_strategy_never_stacks(u, d.confirmed, timeframe, params, ms);
                }
                lemma_strategy_only_enters(u, d.confirmed, timeframe, params, ms);
                lemma_only_entered(v, u, w);
            },
            None => {},
        }
    }
}

/// A trade of a replay never leaves two entries of one timeframe, direction and zone.
pub proof fn law_replay_never_stacks(e: EngineView, trade: TradeUpdate, mode: FillMode)
    requires
        entries_distinct(e.portfolio),
    ensures
        entries_distinct(e.after_trade(trade, mode).portfolio),
{
    let (price, ts) = (trade.price, trade.timestamp_ms);
    law_market_never_stacks(e.portfolio, price, ts, e.portfolio.book);
    let portfolio = match mode {
        FillMode::Optimistic => e.portfolio.after_tick(price, ts),
        FillMode::Ladder => e.portfolio.after_tick_on_book(price, ts),
    };
    law_strategy_step(
        portfolio,
        e.instrument.after(price, trade.size, trade.side@, ts),
        e.instrument.swings(price, trade.size, ts),
        e.params,
        ts,
    );
}

/// New entries let no sniper entries in.
proof fn lemma_same_gate(
    v: PortfolioView,
    w: PortfolioView,
    timeframe: Timeframe,
    direction: PatternDirection,
)
    requires
        only_entered(v, w),
    ensures
        w.open_golden(timeframe, direction) == v.open_golden(timeframe, direction),
{
    if w.open_golden(timeframe, direction) {
        let i = choose|i: int|
            {
                &&& 0 <= i < w.active.len()
                &&& (#[trigger] w.active[i]).fully_open()
                &&& w.active[i].is_entry(timeframe, direction, EntryZone::Golden)
            };
        assert(i < v.active.len());
        assert(v.active[i] == w.active.subrange(0, v.active.len() as int)[i]);
    }
    if v.open_golden(timeframe, direction) {
        let i = choose|i: int|
            {
                &&& 0 <= i < v.active.len()
                &&& (#[trigger] v.active[i]).fully_open()
                &&& v.active[i].is_entry(timeframe, direction, EntryZone::Golden)
            };
        assert(v.active[i] == w.active.subrange(0, v.active.len() as int)[i]);
        assert(w.active[i].fully_open());
    }
}

proof fn lemma_only_entered(u: PortfolioView, v: PortfolioView, w: PortfolioView)
    requires
        only_entered(u, v),
        only_entered(v, w),
    ensures
        only_entered(u, w),
{
    assert forall|i: int| 0 <= i < v.active.len() implies #[trigger] w.active[i] == v.active[i] by {
        assert(v.active[i] == w.active.subrange(0, v.active.len() as int)[i]);
    }
    assert forall|i: int| 0 <= i < u.active.len() implies #[trigger] w.active[i] == u.active[i] by {
        assert(u.active[i] == v.active.subrange(0, u.active.len() as int)[i]);
    }
    assert(u.active =~= w.active.subrange(0, u.active.len() as int));
    assert forall|i: int| u.active.len() <= i < w.active.len() implies {
        let p = #[trigger] w.active[i];
        &&& p.fill_time_ms is None
        &&& p.filled_contracts == 0
        &&& p.signal.entry_zone == EntryZone::Sniper ==> u.open_golden(
            p.signal.timeframe,
            p.signal.direction,
        )
    } by {
        let p = w.active[i];
        lemma_same_gate(u, v, p.signal.timeframe, p.signal.direction);
        if i < v.active.len() {
            assert(p == v.active[i]);
        }
    }
}

proof fn lemma_entering_only_enters(
    v: PortfolioView,
    signal: Result<TradeSignal, RejectionReason>,
    ms: u64,
)
    requires
        signal matches Ok(s) ==> s.entry_zone == EntryZone::Sniper ==> v.open_golden(
            s.timeframe,
            s.direction,
        ),
    ensures
        only_entered(v, entering(v, signal, ms)),
{
    let w = entering(v, signal, ms);
    assert(v.active =~= w.active.subrange(0, v.active.len() as int));
}

proof fn lemma_strategy_only_enters(
    v: PortfolioView,
    pivots: Seq<SwingPoint>,
    timeframe: Timeframe,
    params: RiskParams,
    ms: u64,
)
    ensures
        only_entered(v, strategy_on(v, pivots, timeframe, params, ms)),
{
    assert(v.active =~= v.active.subrange(0, v.active.len() as int));
    assert(only_entered(v, v));
    match abcd_in(pivots) {
        Some(p) => {
            let golden = golden_signal(params, p, timeframe);
            lemma_entering_only_enters(v, golden, ms);
            let w = if v.active_entry(timeframe, p.direction, EntryZone::Golden) {
                v
            } else {
                entering(v, golden, ms)
            };
            if w.open_golden(timeframe, p.direction) {
                let sniper = sniper_signal(params, p, timeframe);
                lemma_entering_only_enters(w, sniper, ms);
                lemma_only_entered(v, w, entering(w, sniper, ms));
            }
        },
        None => {},
    }
}

} // verus!
