//! The simulated account: resting entries, open positions and completed trades.

use crate::abc_brc::PatternDirection;
use crate::candle::Timeframe;
use crate::ladder::ladder_fill;
use crate::ladder::market_exit_price;
use crate::ladder::market_price;
use crate::ladder::walk_ladder_limit;
use crate::ladder::BookSnapshot;
use crate::ladder::LadderFill;
use crate::ladder::PriceLimit;
use crate::number::Real;
use crate::risk::EntryZone;
use crate::risk::TradeSignal;
use crate::risk::BTC_USDT_SWAP_CONTRACT_FACE;
use vstd::prelude::*;
use vstd::string::*;

verus! {

/// The contents of a completed trade.
pub struct CompletedView {
    pub zone: Seq<char>,
    pub direction: Seq<char>,
    pub timeframe: Seq<char>,
    pub entry_time_ms: u64,
    pub entry_price: Real,
    pub stop_price: Real,
    pub target_price: Real,
    pub contracts: u64,
    pub exit_time_ms: u64,
    pub exit_price: Real,
    pub exit_reason: Seq<char>,
    pub pnl_usdt: Real,
    pub r_multiple: Real,
    pub equity_after: Real,
    pub duration_ms: u64,
}

/// A completed trade.
#[derive(Debug, Clone)]
pub struct CompletedTrade {
    pub zone: String,
    pub direction: String,
    pub timeframe: String,
    pub entry_time_ms: u64,
    pub entry_price: Real,
    pub stop_price: Real,
    pub target_price: Real,
    pub contracts: u64,
    pub exit_time_ms: u64,
    pub exit_price: Real,
    /// "target", "stop", or "eof" for a position that the data left open.
    pub exit_reason: String,
    pub pnl_usdt: Real,
    pub r_multiple: Real,
    pub equity_after: Real,
    pub duration_ms: u64,
}

impl View for CompletedTrade {
    type V = CompletedView;

    open spec fn view(&self) -> CompletedView {
        CompletedView {
            zone: self.zone@,
            direction: self.direction@,
            timeframe: self.timeframe@,
            entry_time_ms: self.entry_time_ms,
            entry_price: self.entry_price,
            stop_price: self.stop_price,
            target_price: self.target_price,
            contracts: self.contracts,
            exit_time_ms: self.exit_time_ms,
            exit_price: self.exit_price,
            exit_reason: self.exit_reason@,
            pnl_usdt: self.pnl_usdt,
            r_multiple: self.r_multiple,
            equity_after: self.equity_after,
            duration_ms: self.duration_ms,
        }
    }
}

/// A resting entry, or the position that it became.
#[derive(Debug, Clone, Copy, PartialEq, Eq, Structural)]
pub struct OpenPosition {
    pub signal: TradeSignal,
    /// When the entry was completely filled, if it was.
    pub fill_time_ms: Option<u64>,
    pub submit_time_ms: u64,
    pub filled_contracts: u64,
    /// The mean fill price, weighted by size.
    pub avg_fill_price: Real,
}

/// How a position ends: at a price, for a reason.
pub struct Exit {
    pub price: Real,
    pub reason: Seq<char>,
}

impl OpenPosition {
    /// No more is filled than was asked for, and all of it when the entry counts as filled.
    pub open spec fn wf(self) -> bool {
        &&& self.filled_contracts <= self.signal.contracts
        &&& self.fill_time_ms is Some ==> self.filled_contracts == self.signal.contracts
    }

    /// Whether a price reaches the resting entry.
    pub open spec fn entry_hit(self, price: Real) -> bool {
        match self.signal.direction {
            PatternDirection::Bullish => price.le(self.signal.entry_price),
            PatternDirection::Bearish => self.signal.entry_price.le(price),
        }
    }

    /// Whether a price reaches the stop.
    pub open spec fn stop_hit(self, price: Real) -> bool {
        match self.signal.direction {
            PatternDirection::Bullish => price.le(self.signal.stop_price),
            PatternDirection::Bearish => self.signal.stop_price.le(price),
        }
    }

    /// Whether a price reaches the target.
    pub open spec fn target_hit(self, price: Real) -> bool {
        match self.signal.direction {
            PatternDirection::Bullish => self.signal.target_price.le(price),
            PatternDirection::Bearish => price.le(self.signal.target_price),
        }
    }

    /// The exit that a price triggers: the stop before the target, and only once the entry is
    /// filled.
    pub open spec fn exit_at(self, price: Real) -> Option<Exit> {
        if self.fill_time_ms is None {
            None
        } else if self.stop_hit(price) {
            Some(Exit { price: self.signal.stop_price, reason: "stop"@ })
        } else if self.target_hit(price) {
            Some(Exit { price: self.signal.target_price, reason: "target"@ })
        } else {
            None
        }
    }

    /// The position after a tick, when ticks fill entries at once and in full.
    pub open spec fn ticked(self, price: Real, ms: u64) -> OpenPosition {
        if self.fill_time_ms is None && self.entry_hit(price) {
            OpenPosition {
                fill_time_ms: Some(ms),
                filled_contracts: self.signal.contracts,
                avg_fill_price: self.signal.entry_price,
                ..self
            }
        } else {
            self
        }
    }

    /// The position after a fill was added to what is already filled.
    pub open spec fn with_fill(self, fill: LadderFill, ms: u64) -> OpenPosition {
        let filled = (self.filled_contracts + fill.filled_contracts) as u64;
        let before = self.avg_fill_price.times(Real::from_u64(self.filled_contracts));
        let added = fill.avg_price.times(Real::from_u64(fill.filled_contracts));
        if fill.is_nothing() {
            self
        } else {
            OpenPosition {
                filled_contracts: filled,
                avg_fill_price: before.plus(added).over(Real::from_u64(filled)),
                fill_time_ms: if filled >= self.signal.contracts && self.fill_time_ms is None {
                    Some(ms)
                } else {
                    self.fill_time_ms
                },
                ..self
            }
        }
    }

    /// What the opposite side of a book fills of the rest of the entry.
    pub open spec fn entry_fill(self, book: BookSnapshot) -> LadderFill {
        let rest = (self.signal.contracts - self.filled_contracts) as u64;
        let limit = self.signal.entry_price;
        let face = Real { bits: BTC_USDT_SWAP_CONTRACT_FACE };
        match self.signal.direction {
            PatternDirection::Bullish => ladder_fill(
                book.ask_prices@,
                book.ask_sizes@,
                rest,
                face,
                Some(PriceLimit { price: limit, is_buy: true }),
            ),
            PatternDirection::Bearish => ladder_fill(
                book.bid_prices@,
                book.bid_sizes@,
                rest,
                face,
                Some(PriceLimit { price: limit, is_buy: false }),
            ),
        }
    }

    /// The price of the exit along the opposite side of a book, `None` where that side holds no
    /// contract. What its levels cannot fill is done at the price of the deepest of them.
    pub open spec fn exit_price(self, book: BookSnapshot) -> Option<Real> {
        let face = Real { bits: BTC_USDT_SWAP_CONTRACT_FACE };
        match self.signal.direction {
            PatternDirection::Bullish => market_price(
                book.bid_prices@,
                book.bid_sizes@,
                self.filled_contracts,
                face,
            ),
            PatternDirection::Bearish => market_price(
                book.ask_prices@,
                book.ask_sizes@,
                self.filled_contracts,
                face,
            ),
        }
    }

    /// The position after a tick, when entries are filled along a book. An empty book fills
    /// nothing.
    pub open spec fn ticked_on(self, book: BookSnapshot, price: Real, ms: u64) -> OpenPosition {
        if self.fill_time_ms is None && self.entry_hit(price) && !book.is_empty() && self.signal.contracts
            > self.filled_contracts {
            self.with_fill(self.entry_fill(book), ms)
        } else {
            self
        }
    }

    /// The exit that a price triggers, when exits are filled along a book: at the mean price of
    /// the levels that it takes, or at the trigger price when there are none on that side.
    pub open spec fn exit_on(self, book: BookSnapshot, price: Real) -> Option<Exit> {
        match self.exit_at(price) {
            Some(e) => if book.is_empty() {
                None
            } else {
                match self.exit_price(book) {
                    Some(p) => Some(Exit { price: p, reason: e.reason }),
                    None => Some(e),
                }
            },
            None => None,
        }
    }

    /// The position after a new book arrived: what is already partly filled is filled further.
    pub open spec fn booked(self, book: BookSnapshot) -> OpenPosition {
        if 0 < self.filled_contracts < self.signal.contracts {
            self.with_fill(self.entry_fill(book), book.timestamp_ms)
        } else {
            self
        }
    }

    /// Whether the entry is completely filled.
    pub open spec fn fully_open(self) -> bool {
        self.fill_time_ms is Some && self.filled_contracts >= self.signal.contracts
    }

    /// Whether this is an entry of a timeframe, a direction and a zone.
    pub open spec fn is_entry(self, timeframe: Timeframe, direction: PatternDirection, zone: EntryZone) -> bool {
        self.signal.timeframe == timeframe && self.signal.direction == direction && self.signal.entry_zone
            == zone
    }

    fn is_pending(&self) -> (r: bool)
        ensures
            r == (self.fill_time_ms is None),
    {
        self.fill_time_ms.is_none()
    }

    fn is_open(&self) -> (r: bool)
        ensures
            r == (self.fill_time_ms is Some),
    {
        self.fill_time_ms.is_some()
    }

    fn entry_fills_at(&self, tick_price: Real) -> (r: bool)
        ensures
            r == self.entry_hit(tick_price),
    {
        match self.signal.direction {
            PatternDirection::Bullish => tick_price.le(self.signal.entry_price),
            PatternDirection::Bearish => self.signal.entry_price.le(tick_price),
        }
    }

    fn stop_hit_at(&self, tick_price: Real) -> (r: bool)
        ensures
            r == self.stop_hit(tick_price),
    {
        match self.signal.direction {
            PatternDirection::Bullish => tick_price.le(self.signal.stop_price),
            PatternDirection::Bearish => self.signal.stop_price.le(tick_price),
        }
    }

    fn target_hit_at(&self, tick_price: Real) -> (r: bool)
        ensures
            r == self.target_hit(tick_price),
    {
        match self.signal.direction {
            PatternDirection::Bullish => self.signal.target_price.le(tick_price),
            PatternDirection::Bearish => tick_price.le(self.signal.target_price),
        }
    }

    fn is_fully_open(&self) -> (r: bool)
        ensures
            r == self.fully_open(),
    {
        self.is_open() && self.filled_contracts >= self.signal.contracts
    }

    /// Adds a fill to what is already filled.
    fn add_fill(&mut self, fill: &LadderFill, ms: u64)
        requires
            old(self).wf(),
            fill.filled_contracts <= old(self).signal.contracts - old(self).filled_contracts,
        ensures
            *final(self) == old(self).with_fill(*fill, ms),
            final(self).wf(),
    {
        if fill.is_nothing() {
            return ;
        }
        let existing_total: Real = self.avg_fill_price.times(Real::from_u64(self.filled_contracts));
        let new_total: Real = fill.avg_price.times(Real::from_u64(fill.filled_contracts));
        self.filled_contracts = self.filled_contracts + fill.filled_contracts;
        self.avg_fill_price = existing_total.plus(new_total).over(Real::from_u64(self.filled_contracts));
        if self.filled_contracts >= self.signal.contracts && self.fill_time_ms.is_none() {
            self.fill_time_ms = Some(ms);
        }
    }

    /// Walks the rest of the entry along a book.
    fn walk_entry(&self, book: &BookSnapshot) -> (r: LadderFill)
        requires
            self.wf(),
        ensures
            r == self.entry_fill(*book),
            r.filled_contracts <= self.signal.contracts - self.filled_contracts,
    {
        let remaining: u64 = self.signal.contracts - self.filled_contracts;
        let face = Real { bits: BTC_USDT_SWAP_CONTRACT_FACE };
        match self.signal.direction {
            PatternDirection::Bullish => walk_ladder_limit(
                &book.ask_prices,
                &book.ask_sizes,
                remaining,
                face,
                self.signal.entry_price,
                true,
            ),
            PatternDirection::Bearish => walk_ladder_limit(
                &book.bid_prices,
                &book.bid_sizes,
                remaining,
                face,
                self.signal.entry_price,
                false,
            ),
        }
    }

    /// Walks the exit along a book.
    fn walk_exit(&self, book: &BookSnapshot) -> (r: Option<Real>)
        ensures
            r == self.exit_price(*book),
    {
        let face = Real { bits: BTC_USDT_SWAP_CONTRACT_FACE };
        match self.signal.direction {
            PatternDirection::Bullish => market_exit_price(
                &book.bid_prices,
                &book.bid_sizes,
                self.filled_contracts,
                face,
            ),
            PatternDirection::Bearish => market_exit_price(
                &book.ask_prices,
                &book.ask_sizes,
                self.filled_contracts,
                face,
            ),
        }
    }
}

/// The state of the account.
pub struct PortfolioView {
    pub starting_equity: Real,
    pub equity: Real,
    /// Entries and positions in the order of their submission.
    pub active: Seq<OpenPosition>,
    pub completed: Seq<CompletedView>,
    pub book: BookSnapshot,
}

/// The fill price of a position: its mean fill price, or the entry price when it has none.
pub open spec fn fill_price_of(p: OpenPosition) -> Real {
    if Real::from_u64(0).lt(p.avg_fill_price) {
        p.avg_fill_price
    } else {
        p.signal.entry_price
    }
}

/// The size of a position: what is filled, or all of it when nothing is.
pub open spec fn size_of(p: OpenPosition) -> u64 {
    if p.filled_contracts > 0 {
        p.filled_contracts
    } else {
        p.signal.contracts
    }
}

/// What a position wins when it ends at a price.
pub open spec fn pnl_of(p: OpenPosition, exit_price: Real) -> Real {
    let btc = Real::from_u64(size_of(p)).times(Real { bits: BTC_USDT_SWAP_CONTRACT_FACE });
    match p.signal.direction {
        PatternDirection::Bullish => exit_price.minus(fill_price_of(p)).times(btc),
        PatternDirection::Bearish => fill_price_of(p).minus(exit_price).times(btc),
    }
}

/// What a position wins as a multiple of its risk, the risk taken in proportion to its fill.
pub open spec fn r_multiple_of(p: OpenPosition, exit_price: Real) -> Real {
    let share = Real::from_u64(size_of(p)).over(Real::from_u64(p.signal.contracts));
    let risk = p.signal.risk_amount.magnitude().times(share);
    if Real::from_u64(0).lt(risk) {
        pnl_of(p, exit_price).over(risk)
    } else {
        Real::from_u64(0)
    }
}

/// When a position was entered: when it was filled, or submitted if it never was completely.
pub open spec fn entry_time_of(p: OpenPosition) -> u64 {
    match p.fill_time_ms {
        Some(t) => t,
        None => p.submit_time_ms,
    }
}

/// The record of a position that ends.
pub open spec fn record_of(p: OpenPosition, exit: Exit, ms: u64, equity: Real) -> CompletedView {
    CompletedView {
        zone: p.signal.entry_zone.text(),
        direction: p.signal.direction.text(),
        timeframe: p.signal.timeframe.label_text(),
        entry_time_ms: entry_time_of(p),
        entry_price: fill_price_of(p),
        stop_price: p.signal.stop_price,
        target_price: p.signal.target_price,
        contracts: size_of(p),
        exit_time_ms: ms,
        exit_price: exit.price,
        exit_reason: exit.reason,
        pnl_usdt: pnl_of(p, exit.price),
        r_multiple: r_multiple_of(p, exit.price),
        equity_after: equity,
        duration_ms: time_between(entry_time_of(p), ms),
    }
}

impl PortfolioView {
    pub open spec fn wf(self) -> bool {
        forall|i: int| 0 <= i < self.active.len() ==> (#[trigger] self.active[i]).wf()
    }

    /// The account after a position ended.
    pub open spec fn closing(self, p: OpenPosition, exit: Exit, ms: u64) -> PortfolioView {
        let equity = self.equity.plus(pnl_of(p, exit.price));
        PortfolioView {
            equity,
            completed: self.completed.push(record_of(p, exit, ms, equity)),
            ..self
        }
    }

    /// The account after a position was kept or ended.
    pub open spec fn settling(self, p: OpenPosition, exit: Option<Exit>, ms: u64) -> PortfolioView {
        match exit {
            Some(e) => self.closing(p, e, ms),
            None => PortfolioView { active: self.active.push(p), ..self },
        }
    }

    /// The account after the remaining positions saw a tick, one after the other.
    pub open spec fn ticking(self, rest: Seq<OpenPosition>, price: Real, ms: u64) -> PortfolioView
        decreases rest.len(),
    {
        if rest.len() == 0 {
            self
        } else {
            let p = rest[0].ticked(price, ms);
            self.settling(p, p.exit_at(price), ms).ticking(rest.skip(1), price, ms)
        }
    }

    /// The account after a tick.
    pub open spec fn after_tick(self, price: Real, ms: u64) -> PortfolioView {
        PortfolioView { active: Seq::empty(), ..self }.ticking(self.active, price, ms)
    }

    /// The account after the remaining positions saw a tick, fills going along the book.
    pub open spec fn walking(self, rest: Seq<OpenPosition>, price: Real, ms: u64) -> PortfolioView
        decreases rest.len(),
    {
        if rest.len() == 0 {
            self
        } else {
            let p = rest[0].ticked_on(self.book, price, ms);
            self.settling(p, p.exit_on(self.book, price), ms).walking(rest.skip(1), price, ms)
        }
    }

    /// The account after a tick, fills going along the book.
    pub open spec fn after_tick_on_book(self, price: Real, ms: u64) -> PortfolioView {
        PortfolioView { active: Seq::empty(), ..self }.walking(self.active, price, ms)
    }

    /// The account after a new book.
    pub open spec fn after_book(self, book: BookSnapshot) -> PortfolioView {
        PortfolioView {
            book,
            active: Seq::new(self.active.len(), |i: int| self.active[i].booked(book)),
            ..self
        }
    }

    /// The account after the remaining positions were ended: those with any fill, at the last
    /// price. Entries that were never touched are dropped.
    pub open spec fn ending(self, rest: Seq<OpenPosition>, price: Real, ms: u64) -> PortfolioView
        decreases rest.len(),
    {
        if rest.len() == 0 {
            self
        } else {
            let p = rest[0];
            let next = if p.fill_time_ms is Some || p.filled_contracts > 0 {
                self.closing(p, Exit { price, reason: "eof"@ }, ms)
            } else {
                self
            };
            next.ending(rest.skip(1), price, ms)
        }
    }

    /// The account at the end of the data.
    pub open spec fn at_end(self, price: Real, ms: u64) -> PortfolioView {
        PortfolioView { active: Seq::empty(), ..self }.ending(self.active, price, ms)
    }

    /// The account with one more entry.
    pub open spec fn submitting(self, signal: TradeSignal, ms: u64) -> PortfolioView {
        PortfolioView {
            active: self.active.push(
                OpenPosition {
                    signal,
                    fill_time_ms: None,
                    submit_time_ms: ms,
                    filled_contracts: 0,
                    avg_fill_price: Real::from_u64(0),
                },
            ),
            ..self
        }
    }

    /// Whether a golden entry of a timeframe and a direction is completely filled.
    pub open spec fn open_golden(self, timeframe: Timeframe, direction: PatternDirection) -> bool {
        exists|i: int|
            {
                &&& 0 <= i < self.active.len()
                &&& (#[trigger] self.active[i]).fully_open()
                &&& self.active[i].is_entry(timeframe, direction, EntryZone::Golden)
            }
    }

    /// Whether there is an entry of a timeframe, a direction and a zone.
    pub open spec fn active_entry(
        self,
        timeframe: Timeframe,
        direction: PatternDirection,
        zone: EntryZone,
    ) -> bool {
        exists|i: int|
            0 <= i < self.active.len() && (#[trigger] self.active[i]).is_entry(timeframe, direction, zone)
    }
}

/// The contents of some completed trades.
pub open spec fn completed_views(s: Seq<CompletedTrade>) -> Seq<CompletedView> {
    Seq::new(s.len(), |i: int| s[i]@)
}

/// The simulated account.
pub struct BacktestPortfolio {
    starting_equity: Real,
    equity: Real,
    active: Vec<OpenPosition>,
    completed: Vec<CompletedTrade>,
    current_book: BookSnapshot,
}

impl View for BacktestPortfolio {
    type V = PortfolioView;

    closed spec fn view(&self) -> PortfolioView {
        PortfolioView {
            starting_equity: self.starting_equity,
            equity: self.equity,
            active: self.active@,
            completed: completed_views(self.completed@),
            book: self.current_book,
        }
    }
}

impl BacktestPortfolio {
    /// An account with nothing but its equity.
    pub fn new(starting_equity: Real) -> (r: Self)
        ensures
            r@.starting_equity == starting_equity,
            r@.equity == starting_equity,
            r@.active == Seq::<OpenPosition>::empty(),
            r@.completed == Seq::<CompletedView>::empty(),
            r@.book.is_blank(),
            r@.book.is_empty(),
            r@.wf(),
            balanced(r@),
    {
        let r = BacktestPortfolio {
            starting_equity,
            equity: starting_equity,
            active: Vec::new(),
            completed: Vec::new(),
            current_book: BookSnapshot::empty(),
        };
        proof {
            assert(r@.completed =~= Seq::<CompletedView>::empty());
        }
        r
    }

    /// The equity now.
    pub fn equity(&self) -> (r: Real)
        ensures
            r == self@.equity,
    {
        self.equity
    }

    /// The equity at the start.
    pub fn starting_equity(&self) -> (r: Real)
        ensures
            r == self@.starting_equity,
    {
        self.starting_equity
    }

    /// The completed trades, oldest first.
    pub fn completed(&self) -> (r: &Vec<CompletedTrade>)
        ensures
            completed_views(r@) == self@.completed,
    {
        &self.completed
    }

    /// The newest book.
    pub fn current_book(&self) -> (r: &BookSnapshot)
        ensures
            *r == self@.book,
    {
        &self.current_book
    }

    /// Whether a golden entry of a timeframe and a direction is completely filled: the
    /// condition for adding a sniper entry.
    pub fn has_open_golden(&self, tf: Timeframe, dir: PatternDirection) -> (r: bool)
        ensures
            r == self@.open_golden(tf, dir),
    {
        let mut i: usize = 0;
        while i < self.active.len()
            invariant
                i <= self.active@.len(),
                forall|j: int|
                    0 <= j < i ==> !((#[trigger] self@.active[j]).fully_open() && self@.active[j].is_entry(
                        tf,
                        dir,
                        EntryZone::Golden,
                    )),
            decreases self.active@.len() - i,
        {
            let p: OpenPosition = self.active[i];
            if p.is_fully_open() && p.signal.entry_zone == EntryZone::Golden && p.signal.timeframe == tf
                && p.signal.direction == dir {
                proof {
                    assert(self@.active[i as int] == p);
                }
                return true;
            }
            i = i + 1;
        }
        false
    }

    /// Whether there is an entry of a timeframe, a direction and a zone.
    pub fn has_active_entry(&self, tf: Timeframe, dir: PatternDirection, zone: EntryZone) -> (r: bool)
        ensures
            r == self@.active_entry(tf, dir, zone),
    {
        let mut i: usize = 0;
        while i < self.active.len()
            invariant
                i <= self.active@.len(),
                forall|j: int| 0 <= j < i ==> !(#[trigger] self@.active[j]).is_entry(tf, dir, zone),
            decreases self.active@.len() - i,
        {
            let p: OpenPosition = self.active[i];
            if p.signal.timeframe == tf && p.signal.direction == dir && p.signal.entry_zone == zone {
                proof {
                    assert(self@.active[i as int] == p);
                }
                return true;
            }
            i = i + 1;
        }
        false
    }

    /// Adds an entry.
    pub fn submit(&mut self, signal: TradeSignal, now_ms: u64)
        requires
            old(self)@.wf(),
        ensures
            final(self)@ == old(self)@.submitting(signal, now_ms),
            final(self)@.wf(),
            follows(old(self)@, final(self)@),
    {
        proof {
            law_equity_adds_up(self@, Act::Submit(signal, now_ms));
        }
        self.active.push(
            OpenPosition {
                signal,
                fill_time_ms: None,
                submit_time_ms: now_ms,
                filled_contracts: 0,
                avg_fill_price: Real::from_u64(0),
            },
        );
        proof {
            assert forall|i: int| 0 <= i < self@.active.len() implies (#[trigger] self@.active[i]).wf() by {
                if i < old(self)@.active.len() {
                    assert(self@.active[i] == old(self)@.active[i]);
                }
            }
        }
    }

    /// Takes a new book in, and fills further along it what is already partly filled.
    pub fn process_book(&mut self, snapshot: BookSnapshot)
        requires
            old(self)@.wf(),
        ensures
            final(self)@ == old(self)@.after_book(snapshot),
            final(self)@.wf(),
            follows(old(self)@, final(self)@),
    {
        proof {
            law_equity_adds_up(self@, Act::Book(snapshot));
        }
        let ghost before = self@;
        self.current_book = snapshot;
        let n: usize = self.active.len();
        let mut i: usize = 0;
        while i < n
            invariant
                i <= n,
                n == self.active@.len(),
                n == before.active.len(),
                before.wf(),
                self.current_book == snapshot,
                self.starting_equity == before.starting_equity,
                self.equity == before.equity,
                completed_views(self.completed@) == before.completed,
                forall|j: int|
                    0 <= j < i ==> #[trigger] self.active@[j] == before.active[j].booked(snapshot)
                        && self.active@[j].wf(),
                forall|j: int| i <= j < n ==> #[trigger] self.active@[j] == before.active[j],
            decreases n - i,
        {
            let mut p: OpenPosition = self.active[i];
            proof {
                assert(before.active[i as int].wf());
            }
            if p.filled_contracts > 0 && p.filled_contracts < p.signal.contracts {
                let fill: LadderFill = p.walk_entry(&snapshot);
                p.add_fill(&fill, snapshot.timestamp_ms);
            }
            self.active[i] = p;
            i = i + 1;
        }
        proof {
            assert(self@.active =~= before.after_book(snapshot).active);
            assert(self@ == before.after_book(snapshot));
            assert forall|j: int| 0 <= j < self@.active.len() implies (#[trigger] self@.active[j]).wf() by {
                assert(self.active@[j].wf());
            }
        }
    }

    /// Takes a tick in, when ticks fill at once, in full, and at the price of the order.
    pub fn process_tick(&mut self, tick_price: Real, tick_time_ms: u64)
        requires
            old(self)@.wf(),
        ensures
            final(self)@ == old(self)@.after_tick(tick_price, tick_time_ms),
            final(self)@.wf(),
            follows(old(self)@, final(self)@),
    {
        proof {
            law_equity_adds_up(self@, Act::Tick(tick_price, tick_time_ms));
        }
        let ghost before = self@;
        let mut all: Vec<OpenPosition> = Vec::new();
        std::mem::swap(&mut all, &mut self.active);
        let n: usize = all.len();
        let mut i: usize = 0;
        proof {
            assert(all@.skip(0) =~= all@);
            assert(self@ == (PortfolioView { active: Seq::empty(), ..before }));
        }
        while i < n
            invariant
                i <= n,
                n == all@.len(),
                all@ == before.active,
                before.wf(),
                self@.wf(),
                self@.ticking(all@.skip(i as int), tick_price, tick_time_ms) == before.after_tick(
                    tick_price,
                    tick_time_ms,
                ),
            decreases n - i,
        {
            let mut p: OpenPosition = all[i];
            proof {
                assert(before.active[i as int].wf());
                assert(all@.skip(i as int)[0] == p);
                assert(all@.skip(i as int).skip(1) =~= all@.skip(i + 1));
            }
            if p.is_pending() && p.entry_fills_at(tick_price) {
                p.fill_time_ms = Some(tick_time_ms);
                p.filled_contracts = p.signal.contracts;
                p.avg_fill_price = p.signal.entry_price;
            }
            if p.is_open() && p.stop_hit_at(tick_price) {
                self.record_close(p, p.signal.stop_price, "stop", tick_time_ms);
            } else if p.is_open() && p.target_hit_at(tick_price) {
                self.record_close(p, p.signal.target_price, "target", tick_time_ms);
            } else {
                self.keep(p);
            }
            i = i + 1;
        }
        proof {
            assert(all@.skip(n as int).len() == 0);
        }
    }

    /// Keeps a position.
    fn keep(&mut self, p: OpenPosition)
        requires
            old(self)@.wf(),
            p.wf(),
        ensures
            final(self)@ == (PortfolioView { active: old(self)@.active.push(p), ..old(self)@ }),
            final(self)@.wf(),
    {
        self.active.push(p);
        proof {
            assert forall|i: int| 0 <= i < self@.active.len() implies (#[trigger] self@.active[i]).wf() by {
                if i < old(self)@.active.len() {
                    assert(self@.active[i] == old(self)@.active[i]);
                }
            }
        }
    }

    /// Takes a tick in, when fills go along the book.
    pub fn process_tick_ladder(&mut self, tick_price: Real, tick_time_ms: u64)
        requires
            old(self)@.wf(),
        ensures
            final(self)@ == old(self)@.after_tick_on_book(tick_price, tick_time_ms),
            final(self)@.wf(),
            follows(old(self)@, final(self)@),
    {
        proof {
            law_equity_adds_up(self@, Act::TickOnBook(tick_price, tick_time_ms));
        }
        let ghost before = self@;
        let book: BookSnapshot = self.current_book;
        let refuse_empty: bool = book.is_empty();
        let mut all: Vec<OpenPosition> = Vec::new();
        std::mem::swap(&mut all, &mut self.active);
        let n: usize = all.len();
        let mut i: usize = 0;
        proof {
            assert(all@.skip(0) =~= all@);
            assert(self@ == (PortfolioView { active: Seq::empty(), ..before }));
        }
        while i < n
            invariant
                i <= n,
                n == all@.len(),
                all@ == before.active,
                before.wf(),
                self@.wf(),
                self@.book == book,
                refuse_empty == book.is_empty(),
                self@.walking(all@.skip(i as int), tick_price, tick_time_ms) == before.after_tick_on_book(
                    tick_price,
                    tick_time_ms,
                ),
            decreases n - i,
        {
            let mut p: OpenPosition = all[i];
            proof {
                assert(before.active[i as int].wf());
                assert(all@.skip(i as int)[0] == p);
                assert(all@.skip(i as int).skip(1) =~= all@.skip(i + 1));
            }
            if p.is_pending() && p.entry_fills_at(tick_price) && !refuse_empty && p.signal.contracts
                > p.filled_contracts {
                let fill: LadderFill = p.walk_entry(&book);
                p.add_fill(&fill, tick_time_ms);
            }
            let hit_stop: bool = p.is_open() && p.stop_hit_at(tick_price);
            let hit_target: bool = p.is_open() && !hit_stop && p.target_hit_at(tick_price);
            if (hit_stop || hit_target) && !refuse_empty {
                let exit_price: Real = match p.walk_exit(&book) {
                    Some(price) => price,
                    None => if hit_stop {
                        p.signal.stop_price
                    } else {
                        p.signal.target_price
                    },
                };
                if hit_stop {
                    self.record_close_ladder(p, exit_price, "stop", tick_time_ms);
                } else {
                    self.record_close_ladder(p, exit_price, "target", tick_time_ms);
                }
            } else {
                self.keep(p);
            }
            i = i + 1;
        }
        proof {
            assert(all@.skip(n as int).len() == 0);
        }
    }

    /// Ends everything that is left at the last price. Entries that were never touched are
    /// dropped.
    pub fn force_close_all(&mut self, last_price: Real, last_time_ms: u64)
        requires
            old(self)@.wf(),
        ensures
            final(self)@ == old(self)@.at_end(last_price, last_time_ms),
            final(self)@.wf(),
            follows(old(self)@, final(self)@),
            final(self)@.active.len() == 0,
    {
        proof {
            law_equity_adds_up(self@, Act::End(last_price, last_time_ms));
        }
        let ghost before = self@;
        let mut all: Vec<OpenPosition> = Vec::new();
        std::mem::swap(&mut all, &mut self.active);
        let n: usize = all.len();
        let mut i: usize = 0;
        proof {
            assert(all@.skip(0) =~= all@);
            assert(self@ == (PortfolioView { active: Seq::empty(), ..before }));
        }
        while i < n
            invariant
                i <= n,
                n == all@.len(),
                all@ == before.active,
                self@.wf(),
                self@.active.len() == 0,
                self@.ending(all@.skip(i as int), last_price, last_time_ms) == before.at_end(
                    last_price,
                    last_time_ms,
                ),
            decreases n - i,
        {
            let p: OpenPosition = all[i];
            proof {
                assert(all@.skip(i as int)[0] == p);
                assert(all@.skip(i as int).skip(1) =~= all@.skip(i + 1));
            }
            if p.is_open() || p.filled_contracts > 0 {
                self.record_close(p, last_price, "eof", last_time_ms);
            }
            i = i + 1;
        }
        proof {
            assert(all@.skip(n as int).len() == 0);
        }
    }

    /// Completes a trade: books its result, and adds it to the completed ones.
    pub fn record_close(
        &mut self,
        pos: OpenPosition,
        exit_price: Real,
        reason: &str,
        exit_time_ms: u64,
    )
        ensures
            final(self)@ == old(self)@.closing(
                pos,
                Exit { price: exit_price, reason: reason@ },
                exit_time_ms,
            ),
            follows(old(self)@, final(self)@),
    {
        proof {
            lemma_closing_follows(self@, pos, Exit { price: exit_price, reason: reason@ }, exit_time_ms);
        }
        let ghost before = self@;
        let zero: Real = Real::from_u64(0);
        let fill_price: Real = if zero.lt(pos.avg_fill_price) {
            pos.avg_fill_price
        } else {
            pos.signal.entry_price
        };
        let filled: u64 = if pos.filled_contracts > 0 {
            pos.filled_contracts
        } else {
            pos.signal.contracts
        };
        let size_btc: Real = Real::from_u64(filled).times(Real { bits: BTC_USDT_SWAP_CONTRACT_FACE });
        let pnl: Real = match pos.signal.direction {
            PatternDirection::Bullish => exit_price.minus(fill_price).times(size_btc),
            PatternDirection::Bearish => fill_price.minus(exit_price).times(size_btc),
        };
        let filled_frac: Real = Real::from_u64(filled).over(Real::from_u64(pos.signal.contracts));
        let risk: Real = pos.signal.risk_amount.magnitude().times(filled_frac);
        let r_multiple: Real = if zero.lt(risk) { pnl.over(risk) } else { zero };
        self.equity = self.equity.plus(pnl);
        let fill_time: u64 = match pos.fill_time_ms {
            Some(t) => t,
            None => pos.submit_time_ms,
        };
        let duration_ms: u64 = if exit_time_ms >= fill_time { exit_time_ms - fill_time } else { 0 };
        self.completed.push(
            CompletedTrade {
                zone: pos.signal.entry_zone.to_text(),
                direction: pos.signal.direction.to_text(),
                timeframe: pos.signal.timeframe.label().to_owned(),
                entry_time_ms: fill_time,
                entry_price: fill_price,
                stop_price: pos.signal.stop_price,
                target_price: pos.signal.target_price,
                contracts: filled,
                exit_time_ms,
                exit_price,
                exit_reason: reason.to_owned(),
                pnl_usdt: pnl,
                r_multiple,
                equity_after: self.equity,
                duration_ms,
            },
        );
        proof {
            let e = Exit { price: exit_price, reason: reason@ };
            assert(self@.completed =~= before.closing(pos, e, exit_time_ms).completed);
        }
    }

    fn record_close_ladder(
        &mut self,
        pos: OpenPosition,
        vwap_exit_price: Real,
        reason: &str,
        exit_time_ms: u64,
    )
        ensures
            final(self)@ == old(self)@.closing(
                pos,
                Exit { price: vwap_exit_price, reason: reason@ },
                exit_time_ms,
            ),
    {
        self.record_close(pos, vwap_exit_price, reason, exit_time_ms);
    }
}

/// An entry that is not completely filled does not let sniper entries in, whatever
/// part of it is filled.
pub proof fn law_partial_fill_keeps_gate_closed(
    v: PortfolioView,
    timeframe: Timeframe,
    direction: PatternDirection,
)
    requires
        v.wf(),
        forall|i: int|
            0 <= i < v.active.len() && (#[trigger] v.active[i]).is_entry(
                timeframe,
                direction,
                EntryZone::Golden,
            ) ==> v.active[i].filled_contracts < v.active[i].signal.contracts,
    ensures
        !v.open_golden(timeframe, direction),
{
}

/// Entries that were never touched leave no trace at the end of the data.
pub proof fn law_untouched_entries_are_dropped(v: PortfolioView, price: Real, ms: u64)
    requires
        forall|i: int|
            0 <= i < v.active.len() ==> (#[trigger] v.active[i]).fill_time_ms is None
                && v.active[i].filled_contracts == 0,
    ensures
        v.at_end(price, ms).completed == v.completed,
        v.at_end(price, ms).equity == v.equity,
        v.at_end(price, ms).active.len() == 0,
{
    lemma_nothing_to_end(PortfolioView { active: Seq::empty(), ..v }, v.active, price, ms);
}

proof fn lemma_nothing_to_end(v: PortfolioView, rest: Seq<OpenPosition>, price: Real, ms: u64)
    requires
        forall|i: int|
            0 <= i < rest.len() ==> (#[trigger] rest[i]).fill_time_ms is None && rest[i].filled_contracts
                == 0,
    ensures
        v.ending(rest, price, ms) == v,
    decreases rest.len(),
{
    if rest.len() > 0 {
        assert(rest[0].fill_time_ms is None);
        let t = rest.skip(1);
        assert forall|i: int| 0 <= i < t.len() implies (#[trigger] t[i]).fill_time_ms is None
            && t[i].filled_contracts == 0 by {
            assert(t[i] == rest[i + 1]);
        }
        lemma_nothing_to_end(v, t, price, ms);
    }
}

/// Without a book nothing is filled along it: a tick leaves every entry as it is.
pub proof fn law_empty_book_fills_nothing(v: PortfolioView, price: Real, ms: u64)
    requires
        v.book.is_empty(),
    ensures
        v.after_tick_on_book(price, ms) == v,
{
    let start = PortfolioView { active: Seq::empty(), ..v };
    lemma_empty_walk(start, v.active, price, ms);
    assert(start.active + v.active =~= v.active);
}

proof fn lemma_empty_walk(v: PortfolioView, rest: Seq<OpenPosition>, price: Real, ms: u64)
    requires
        v.book.is_empty(),
    ensures
        v.walking(rest, price, ms) == (PortfolioView { active: v.active + rest, ..v }),
    decreases rest.len(),
{
    if rest.len() == 0 {
        assert(v.active + rest =~= v.active);
    } else {
        let w = PortfolioView { active: v.active.push(rest[0]), ..v };
        lemma_empty_walk(w, rest.skip(1), price, ms);
        assert(w.active + rest.skip(1) =~= v.active + rest);
    }
}

/// When one price reaches both the stop and the target, the position ends at the stop.
pub proof fn law_stop_goes_first(p: OpenPosition, price: Real)
    requires
        p.fill_time_ms is Some,
        p.stop_hit(price),
    ensures
        p.exit_at(price) == Some(Exit { price: p.signal.stop_price, reason: "stop"@ }),
{
}

/// The equity is the starting equity plus the results of all completed trades, added in order.
pub open spec fn added_up(start: Real, trades: Seq<CompletedView>) -> Real
    decreases trades.len(),
{
    if trades.len() == 0 {
        start
    } else {
        added_up(start, trades.drop_last()).plus(trades.last().pnl_usdt)
    }
}

/// Whether the books of an account balance: the equity is what the results add up to, each
/// trade tells the equity right after it, and how long it took.
pub open spec fn balanced(v: PortfolioView) -> bool {
    &&& v.equity == added_up(v.starting_equity, v.completed)
    &&& forall|i: int|
        0 <= i < v.completed.len() ==> (#[trigger] v.completed[i]).equity_after == added_up(
            v.starting_equity,
            v.completed.take(i + 1),
        )
    &&& forall|i: int|
        0 <= i < v.completed.len() ==> (#[trigger] v.completed[i]).duration_ms == time_between(
            v.completed[i].entry_time_ms,
            v.completed[i].exit_time_ms,
        )
}

/// The time from one point to a later one; none to an earlier one.
pub open spec fn time_between(from: u64, to: u64) -> u64 {
    if to >= from { (to - from) as u64 } else { 0 }
}

/// Whether one state of an account follows from another: the start is the same, no completed
/// trade was changed or removed, and books that balanced still do.
pub open spec fn follows(v: PortfolioView, w: PortfolioView) -> bool {
    &&& w.starting_equity == v.starting_equity
    &&& v.completed.is_prefix_of(w.completed)
    &&& balanced(v) ==> balanced(w)
}

/// What can happen to an account.
pub enum Act {
    Submit(TradeSignal, u64),
    Book(BookSnapshot),
    Tick(Real, u64),
    TickOnBook(Real, u64),
    End(Real, u64),
}

impl PortfolioView {
    /// The account after something happened.
    pub open spec fn acted(self, act: Act) -> PortfolioView {
        match act {
            Act::Submit(signal, ms) => self.submitting(signal, ms),
            Act::Book(book) => self.after_book(book),
            Act::Tick(price, ms) => self.after_tick(price, ms),
            Act::TickOnBook(price, ms) => self.after_tick_on_book(price, ms),
            Act::End(price, ms) => self.at_end(price, ms),
        }
    }

    /// The account after several things happened.
    pub open spec fn acted_all(self, acts: Seq<Act>) -> PortfolioView
        decreases acts.len(),
    {
        if acts.len() == 0 {
            self
        } else {
            self.acted_all(acts.drop_last()).acted(acts.last())
        }
    }
}

/// Ticks, books, new entries and the end of the data keep the starting equity and all completed
/// trades, and keep the books of an account balanced.
pub proof fn law_equity_adds_up(v: PortfolioView, act: Act)
    ensures
        follows(v, v.acted(act)),
{
    let start = PortfolioView { active: Seq::empty(), ..v };
    match act {
        Act::Submit(_, _) => {},
        Act::Book(_) => {},
        Act::Tick(price, ms) => lemma_ticking_follows(start, v.active, price, ms),
        Act::TickOnBook(price, ms) => lemma_walking_follows(start, v.active, price, ms),
        Act::End(price, ms) => lemma_ending_follows(start, v.active, price, ms),
    }
}

/// Over any run of ticks, books, entries and ends of the data, a new account's equity is the
/// equity at its start plus the results of all its trades, in order. The last trade tells the
/// equity now.
pub proof fn law_account_over_a_run(v: PortfolioView, acts: Seq<Act>)
    requires
        v.completed.len() == 0,
        v.equity == v.starting_equity,
    ensures
        ({
            let w = v.acted_all(acts);
            &&& balanced(w)
            &&& w.starting_equity == v.starting_equity
            &&& w.equity == added_up(v.starting_equity, w.completed)
            &&& w.completed.len() > 0 ==> w.completed.last().equity_after == w.equity
            &&& forall|k: int|
                0 <= k <= acts.len() ==> (#[trigger] v.acted_all(acts.take(k))).completed.is_prefix_of(
                    w.completed,
                )
        }),
    decreases acts.len(),
{
    let w = v.acted_all(acts);
    if acts.len() > 0 {
        let head = acts.drop_last();
        let u = v.acted_all(head);
        law_account_over_a_run(v, head);
        law_equity_adds_up(u, acts.last());
        assert forall|k: int| 0 <= k <= acts.len() implies (#[trigger] v.acted_all(
            acts.take(k),
        )).completed.is_prefix_of(w.completed) by {
            if k == acts.len() {
                assert(acts.take(k) =~= acts);
            } else {
                assert(acts.take(k) =~= head.take(k));
                lemma_prefix(v.acted_all(head.take(k)).completed, u.completed, w.completed);
            }
        }
    } else {
        assert(acts.take(0) =~= acts);
    }
    if w.completed.len() > 0 {
        assert(w.completed.take(w.completed.len() as int) =~= w.completed);
        assert(w.completed[w.completed.len() - 1] == w.completed.last());
    }
}

proof fn lemma_prefix<T>(a: Seq<T>, b: Seq<T>, c: Seq<T>)
    requires
        a.is_prefix_of(b),
        b.is_prefix_of(c),
    ensures
        a.is_prefix_of(c),
{
    assert(a =~= c.subrange(0, a.len() as int)) by {
        assert forall|i: int| 0 <= i < a.len() implies a[i] == c[i] by {
            assert(a[i] == b.subrange(0, a.len() as int)[i]);
            assert(b[i] == c.subrange(0, b.len() as int)[i]);
        }
    }
}

proof fn lemma_follows(u: PortfolioView, v: PortfolioView, w: PortfolioView)
    requires
        follows(u, v),
        follows(v, w),
    ensures
        follows(u, w),
{
    lemma_prefix(u.completed, v.completed, w.completed);
}

proof fn lemma_closing_follows(v: PortfolioView, p: OpenPosition, exit: Exit, ms: u64)
    ensures
        follows(v, v.closing(p, exit, ms)),
{
    let w = v.closing(p, exit, ms);
    assert(w.completed.drop_last() =~= v.completed);
    assert(v.completed =~= w.completed.subrange(0, v.completed.len() as int));
    if balanced(v) {
        assert forall|i: int| 0 <= i < w.completed.len() implies (
        #[trigger] w.completed[i]).equity_after == added_up(
            w.starting_equity,
            w.completed.take(i + 1),
        ) && w.completed[i].duration_ms == time_between(
            w.completed[i].entry_time_ms,
            w.completed[i].exit_time_ms,
        ) by {
            if i < v.completed.len() {
                assert(w.completed[i] == v.completed[i]);
                assert(w.completed.take(i + 1) =~= v.completed.take(i + 1));
            } else {
                assert(w.completed.take(i + 1) =~= w.completed);
            }
        }
    }
}

proof fn lemma_ticking_follows(v: PortfolioView, rest: Seq<OpenPosition>, price: Real, ms: u64)
    ensures
        follows(v, v.ticking(rest, price, ms)),
    decreases rest.len(),
{
    if rest.len() > 0 {
        let p = rest[0].ticked(price, ms);
        let w = v.settling(p, p.exit_at(price), ms);
        match p.exit_at(price) {
            Some(e) => lemma_closing_follows(v, p, e, ms),
            None => {},
        }
        lemma_ticking_follows(w, rest.skip(1), price, ms);
        lemma_follows(v, w, v.ticking(rest, price, ms));
    }
}

proof fn lemma_walking_follows(v: PortfolioView, rest: Seq<OpenPosition>, price: Real, ms: u64)
    ensures
        follows(v, v.walking(rest, price, ms)),
    decreases rest.len(),
{
    if rest.len() > 0 {
        let p = rest[0].ticked_on(v.book, price, ms);
        let w = v.settling(p, p.exit_on(v.book, price), ms);
        match p.exit_on(v.book, price) {
            Some(e) => lemma_closing_follows(v, p, e, ms),
            None => {},
        }
        lemma_walking_follows(w, rest.skip(1), price, ms);
        lemma_follows(v, w, v.walking(rest, price, ms));
    }
}

proof fn lemma_ending_follows(v: PortfolioView, rest: Seq<OpenPosition>, price: Real, ms: u64)
    ensures
        follows(v, v.ending(rest, price, ms)),
    decreases rest.len(),
{
    if rest.len() > 0 {
        let p = rest[0];
        let e = Exit { price, reason: "eof"@ };
        let w = if p.fill_time_ms is Some || p.filled_contracts > 0 {
            v.closing(p, e, ms)
        } else {
            v
        };
        lemma_closing_follows(v, p, e, ms);
        lemma_ending_follows(w, rest.skip(1), price, ms);
        lemma_follows(v, w, v.ending(rest, price, ms));
    }
}

} // verus!
