//! The life of every order from its submission to its exit.
//!
//! A position is pending until its entry is filled, which opens it, or canceled. An open
//! position is closed when its exit is filled. No other change of state exists: an order event
//! that arrives twice, or late, changes nothing.

use crate::abc_brc::PatternDirection;
use crate::candle::Timeframe;
use crate::fixed::fixed_text;
use crate::number::Real;
use crate::risk::EntryZone;
use crate::risk::TradeSignal;
use crate::text::decimal;
use crate::text::decimal_text;
use crate::text::same_text;
use vstd::prelude::*;
use vstd::string::*;

verus! {

/// Where a position stands.
#[derive(Debug, Clone, Copy, PartialEq, Eq, Structural)]
pub enum PositionState {
    /// The entry rests on the book, not or not fully filled.
    Pending,
    /// The entry is filled and the exits are active.
    Open,
    /// The exit is filled.
    Closed,
    /// The entry was canceled.
    Canceled,
}

impl PositionState {
    pub open spec fn text(self) -> Seq<char> {
        match self {
            PositionState::Pending => "PENDING"@,
            PositionState::Open => "OPEN"@,
            PositionState::Closed => "CLOSED"@,
            PositionState::Canceled => "CANCELED"@,
        }
    }

    /// The name of the state.
    pub fn to_text(&self) -> (s: String)
        ensures
            s@ == self.text(),
    {
        match self {
            PositionState::Pending => "PENDING".to_owned(),
            PositionState::Open => "OPEN".to_owned(),
            PositionState::Closed => "CLOSED".to_owned(),
            PositionState::Canceled => "CANCELED".to_owned(),
        }
    }
}

/// The contents of a tracked position.
pub struct PositionView {
    pub client_ord_id: Seq<char>,
    pub entry_ord_id: Option<Seq<char>>,
    pub direction: PatternDirection,
    pub timeframe: Timeframe,
    pub entry_zone: EntryZone,
    pub state: PositionState,
    pub contracts: u64,
    pub entry_price: Real,
    pub stop_price: Real,
    pub target_price: Real,
    pub fill_price: Option<Real>,
    pub filled_size: u64,
    pub submitted_at_ms: u64,
    pub last_update_ms: u64,
}

impl PositionView {
    /// Whether the entry can still fill, or has filled and not been closed.
    pub open spec fn is_active(self) -> bool {
        self.state == PositionState::Pending || self.state == PositionState::Open
    }

    /// Whether this is an entry of a timeframe, a direction and a zone.
    pub open spec fn is_entry(self, timeframe: Timeframe, direction: PatternDirection, zone: EntryZone) -> bool {
        self.timeframe == timeframe && self.direction == direction && self.entry_zone == zone
    }
}

/// A position of which the exchange has been or could have been told.
#[derive(Debug)]
pub struct TrackedPosition {
    pub client_ord_id: String,
    /// The exchange's name of the entry order, once it has one.
    pub entry_ord_id: Option<String>,
    pub direction: PatternDirection,
    pub timeframe: Timeframe,
    pub entry_zone: EntryZone,
    pub state: PositionState,
    pub contracts: u64,
    pub entry_price: Real,
    pub stop_price: Real,
    pub target_price: Real,
    /// Average fill price of the entry, once it has one.
    pub fill_price: Option<Real>,
    pub filled_size: u64,
    pub submitted_at_ms: u64,
    pub last_update_ms: u64,
}

/// The characters of an optional text.
pub open spec fn text_of(s: Option<String>) -> Option<Seq<char>> {
    match s {
        Some(t) => Some(t@),
        None => None,
    }
}

impl View for TrackedPosition {
    type V = PositionView;

    open spec fn view(&self) -> PositionView {
        PositionView {
            client_ord_id: self.client_ord_id@,
            entry_ord_id: text_of(self.entry_ord_id),
            direction: self.direction,
            timeframe: self.timeframe,
            entry_zone: self.entry_zone,
            state: self.state,
            contracts: self.contracts,
            entry_price: self.entry_price,
            stop_price: self.stop_price,
            target_price: self.target_price,
            fill_price: self.fill_price,
            filled_size: self.filled_size,
            submitted_at_ms: self.submitted_at_ms,
            last_update_ms: self.last_update_ms,
        }
    }
}

/// The position that a signal starts.
pub open spec fn pending_of(
    signal: TradeSignal,
    client_ord_id: Seq<char>,
    entry_ord_id: Option<Seq<char>>,
    now_ms: u64,
) -> PositionView {
    PositionView {
        client_ord_id,
        entry_ord_id,
        direction: signal.direction,
        timeframe: signal.timeframe,
        entry_zone: signal.entry_zone,
        state: PositionState::Pending,
        contracts: signal.contracts,
        entry_price: signal.entry_price,
        stop_price: signal.stop_price,
        target_price: signal.target_price,
        fill_price: None,
        filled_size: 0,
        submitted_at_ms: now_ms,
        last_update_ms: now_ms,
    }
}

impl TrackedPosition {
    /// The position that a signal starts.
    pub fn from_signal(
        signal: &TradeSignal,
        client_ord_id: String,
        entry_ord_id: Option<String>,
        now_ms: u64,
    ) -> (r: Self)
        ensures
            r@ == pending_of(*signal, client_ord_id@, text_of(entry_ord_id), now_ms),
    {
        TrackedPosition {
            client_ord_id,
            entry_ord_id,
            direction: signal.direction,
            timeframe: signal.timeframe,
            entry_zone: signal.entry_zone,
            state: PositionState::Pending,
            contracts: signal.contracts,
            entry_price: signal.entry_price,
            stop_price: signal.stop_price,
            target_price: signal.target_price,
            fill_price: None,
            filled_size: 0,
            submitted_at_ms: now_ms,
            last_update_ms: now_ms,
        }
    }

    /// Whether the entry can still fill, or has filled and not been closed.
    pub fn is_active(&self) -> (r: bool)
        ensures
            r == self@.is_active(),
    {
        self.state == PositionState::Pending || self.state == PositionState::Open
    }

    /// Whether the position is open.
    pub fn is_open(&self) -> (r: bool)
        ensures
            r == (self@.state == PositionState::Open),
    {
        self.state == PositionState::Open
    }

    /// The position on one line.
    pub fn to_text(&self) -> (s: String)
        ensures
            s@ == self@.state.text() + " "@ + self@.direction.text() + " "@ + self@.entry_zone.text() + " "@
                + self@.timeframe.label_text() + " ["@ + self@.client_ord_id + "] "@ + decimal(
                self@.contracts as nat,
            ) + "ct @ $"@ + fixed_text(self@.entry_price, 2),
    {
        let mut s = self.state.to_text();
        s.append(" ");
        s.append(self.direction.to_text().as_str());
        s.append(" ");
        s.append(self.entry_zone.to_text().as_str());
        s.append(" ");
        s.append(self.timeframe.label());
        s.append(" [");
        s.append(self.client_ord_id.as_str());
        s.append("] ");
        s.append(decimal_text(self.contracts).as_str());
        s.append("ct @ $");
        s.append(self.entry_price.fixed(2).as_str());
        s
    }
}

/// The contents of an order event.
pub struct OrderUpdateView {
    pub client_ord_id: Seq<char>,
    pub ord_id: Seq<char>,
    pub state: Seq<char>,
    pub fill_price: Option<Real>,
    pub acc_fill_size: Option<u64>,
    pub timestamp_ms: u64,
}

/// An order event of the exchange.
#[derive(Debug)]
pub struct OrderUpdate {
    pub client_ord_id: String,
    pub ord_id: String,
    /// "live", "partially_filled", "filled" or "canceled".
    pub state: String,
    pub fill_price: Option<Real>,
    /// The size filled so far.
    pub acc_fill_size: Option<u64>,
    pub timestamp_ms: u64,
}

impl View for OrderUpdate {
    type V = OrderUpdateView;

    open spec fn view(&self) -> OrderUpdateView {
        OrderUpdateView {
            client_ord_id: self.client_ord_id@,
            ord_id: self.ord_id@,
            state: self.state@,
            fill_price: self.fill_price,
            acc_fill_size: self.acc_fill_size,
            timestamp_ms: self.timestamp_ms,
        }
    }
}

/// The state after an order event: only a pending entry can be opened or canceled by one. A
/// partial fill leaves it pending.
pub open spec fn next_state(state: PositionState, event: Seq<char>) -> PositionState {
    if state != PositionState::Pending {
        state
    } else if event == "filled"@ {
        PositionState::Open
    } else if event == "canceled"@ {
        PositionState::Canceled
    } else {
        PositionState::Pending
    }
}

/// A position after an order event.
pub open spec fn updated(p: PositionView, u: OrderUpdateView) -> PositionView {
    PositionView {
        last_update_ms: u.timestamp_ms,
        fill_price: if u.fill_price is Some { u.fill_price } else { p.fill_price },
        filled_size: match u.acc_fill_size {
            Some(n) => n,
            None => p.filled_size,
        },
        state: next_state(p.state, u.state),
        ..p
    }
}

/// A position after its exit was filled: closed, when it was open.
pub open spec fn exited(p: PositionView, now_ms: u64) -> PositionView {
    if p.state == PositionState::Open {
        PositionView { state: PositionState::Closed, last_update_ms: now_ms, ..p }
    } else {
        p
    }
}

/// The contents of the registry. No client order id occurs twice, and no exchange order id.
pub struct PositionsView {
    pub entries: Seq<PositionView>,
    /// Client order ids by exchange order ids.
    pub by_ord_id: Seq<(Seq<char>, Seq<char>)>,
}

/// The first place of a client order id; the length when it is not there.
pub open spec fn place_of(entries: Seq<PositionView>, id: Seq<char>) -> nat
    decreases entries.len(),
{
    if entries.len() == 0 {
        0
    } else if entries[0].client_ord_id == id {
        0
    } else {
        1 + place_of(entries.skip(1), id)
    }
}

/// The first place of an exchange order id; the length when it is not there.
pub open spec fn index_place(pairs: Seq<(Seq<char>, Seq<char>)>, ord_id: Seq<char>) -> nat
    decreases pairs.len(),
{
    if pairs.len() == 0 {
        0
    } else if pairs[0].0 == ord_id {
        0
    } else {
        1 + index_place(pairs.skip(1), ord_id)
    }
}

impl PositionsView {
    pub open spec fn wf(self) -> bool {
        &&& forall|i: int, j: int|
            0 <= i < j < self.entries.len() ==> (#[trigger] self.entries[i]).client_ord_id != (
            #[trigger] self.entries[j]).client_ord_id
        &&& forall|i: int, j: int|
            0 <= i < j < self.by_ord_id.len() ==> (#[trigger] self.by_ord_id[i]).0 != (
            #[trigger] self.by_ord_id[j]).0
    }

    /// Whether a client order id is known.
    pub open spec fn knows(self, id: Seq<char>) -> bool {
        place_of(self.entries, id) < self.entries.len()
    }

    /// The position with a client order id.
    pub open spec fn get(self, id: Seq<char>) -> Option<PositionView> {
        if self.knows(id) {
            Some(self.entries[place_of(self.entries, id) as int])
        } else {
            None
        }
    }

    /// The registry with one position put in, in place of the one with the same id.
    pub open spec fn put(self, p: PositionView) -> PositionsView {
        let i = place_of(self.entries, p.client_ord_id);
        PositionsView {
            entries: if i < self.entries.len() {
                self.entries.update(i as int, p)
            } else {
                self.entries.push(p)
            },
            ..self
        }
    }

    /// The registry with an exchange order id put into the index.
    pub open spec fn indexed(self, ord_id: Seq<char>, id: Seq<char>) -> PositionsView {
        let i = index_place(self.by_ord_id, ord_id);
        PositionsView {
            by_ord_id: if i < self.by_ord_id.len() {
                self.by_ord_id.update(i as int, (ord_id, id))
            } else {
                self.by_ord_id.push((ord_id, id))
            },
            ..self
        }
    }

    /// The client order id that an event is about: its own, or the one that the index has for
    /// its exchange order id.
    pub open spec fn subject(self, u: OrderUpdateView) -> Option<Seq<char>> {
        if u.client_ord_id.len() > 0 {
            Some(u.client_ord_id)
        } else {
            let i = index_place(self.by_ord_id, u.ord_id);
            if i < self.by_ord_id.len() {
                Some(self.by_ord_id[i as int].1)
            } else {
                None
            }
        }
    }

    /// The registry after an order event. Events about unknown orders are ignored.
    pub open spec fn after(self, u: OrderUpdateView) -> PositionsView {
        match self.subject(u) {
            Some(id) => match self.get(id) {
                Some(p) => self.put(updated(p, u)),
                None => self,
            },
            None => self,
        }
    }

    /// The registry after the exit of a position was filled.
    pub open spec fn closed(self, id: Seq<char>, now_ms: u64) -> PositionsView {
        match self.get(id) {
            Some(p) => self.put(exited(p, now_ms)),
            None => self,
        }
    }

    /// Whether a golden entry of a timeframe and a direction is open.
    pub open spec fn open_golden(self, timeframe: Timeframe, direction: PatternDirection) -> bool {
        exists|i: int|
            {
                &&& 0 <= i < self.entries.len()
                &&& (#[trigger] self.entries[i]).state == PositionState::Open
                &&& self.entries[i].is_entry(timeframe, direction, EntryZone::Golden)
            }
    }

    /// Whether an entry of a timeframe, a direction and a zone is pending or open.
    pub open spec fn active_entry(
        self,
        timeframe: Timeframe,
        direction: PatternDirection,
        zone: EntryZone,
    ) -> bool {
        exists|i: int|
            {
                &&& 0 <= i < self.entries.len()
                &&& (#[trigger] self.entries[i]).is_active()
                &&& self.entries[i].is_entry(timeframe, direction, zone)
            }
    }
}

/// How many positions are in a state.
pub open spec fn count_in(entries: Seq<PositionView>, state: PositionState) -> nat
    decreases entries.len(),
{
    if entries.len() == 0 {
        0
    } else {
        count_in(entries.drop_last(), state) + (if entries.last().state == state { 1nat } else { 0nat })
    }
}

/// The active ones of some positions.
pub open spec fn active_of(entries: Seq<PositionView>) -> Seq<PositionView>
    decreases entries.len(),
{
    if entries.len() == 0 {
        Seq::empty()
    } else if entries.last().is_active() {
        active_of(entries.drop_last()).push(entries.last())
    } else {
        active_of(entries.drop_last())
    }
}

/// The registry of all positions.
pub struct Positions {
    entries: Vec<TrackedPosition>,
    by_ord_id: Vec<(String, String)>,
}

impl View for Positions {
    type V = PositionsView;

    closed spec fn view(&self) -> PositionsView {
        PositionsView {
            entries: Seq::new(self.entries@.len(), |i: int| self.entries@[i]@),
            by_ord_id: Seq::new(
                self.by_ord_id@.len(),
                |i: int| (self.by_ord_id@[i].0@, self.by_ord_id@[i].1@),
            ),
        }
    }
}

impl Default for Positions {
    fn default() -> (r: Self)
        ensures
            r@.wf(),
            r@.entries.len() == 0,
            r@.by_ord_id.len() == 0,
    {
        Positions::new()
    }
}

impl Positions {
    /// An empty registry.
    pub fn new() -> (r: Self)
        ensures
            r@.wf(),
            r@ == (PositionsView { entries: Seq::empty(), by_ord_id: Seq::empty() }),
    {
        let r = Positions { entries: Vec::new(), by_ord_id: Vec::new() };
        proof {
            assert(r@.entries =~= Seq::empty());
            assert(r@.by_ord_id =~= Seq::empty());
        }
        r
    }

    fn find(&self, id: &str) -> (r: usize)
        ensures
            r == place_of(self@.entries, id@),
            r <= self.entries@.len(),
            self.entries@.len() == self@.entries.len(),
    {
        let n: usize = self.entries.len();
        let mut i: usize = 0;
        proof {
            assert(self@.entries.skip(0) =~= self@.entries);
        }
        while i < n && !same_text(self.entries[i].client_ord_id.as_str(), id)
            invariant
                i <= n,
                n == self.entries@.len(),
                place_of(self@.entries, id@) == i + place_of(self@.entries.skip(i as int), id@),
            decreases n - i,
        {
            proof {
                let t = self@.entries.skip(i as int);
                assert(t.skip(1) =~= self@.entries.skip(i + 1));
                assert(t[0] == self.entries@[i as int]@);
            }
            i = i + 1;
        }
        proof {
            let t = self@.entries.skip(i as int);
            if i < n {
                assert(t[0] == self.entries@[i as int]@);
            } else {
                assert(t.len() == 0);
            }
        }
        i
    }

    fn find_ord(&self, ord_id: &str) -> (r: usize)
        ensures
            r == index_place(self@.by_ord_id, ord_id@),
            r <= self.by_ord_id@.len(),
            self.by_ord_id@.len() == self@.by_ord_id.len(),
    {
        let n: usize = self.by_ord_id.len();
        let mut i: usize = 0;
        proof {
            assert(self@.by_ord_id.skip(0) =~= self@.by_ord_id);
        }
        while i < n && !same_text(self.by_ord_id[i].0.as_str(), ord_id)
            invariant
                i <= n,
                n == self.by_ord_id@.len(),
                index_place(self@.by_ord_id, ord_id@) == i + index_place(
                    self@.by_ord_id.skip(i as int),
                    ord_id@,
                ),
            decreases n - i,
        {
            proof {
                let t = self@.by_ord_id.skip(i as int);
                assert(t.skip(1) =~= self@.by_ord_id.skip(i + 1));
                assert(t[0].0 == self.by_ord_id@[i as int].0@);
            }
            i = i + 1;
        }
        proof {
            let t = self@.by_ord_id.skip(i as int);
            if i < n {
                assert(t[0].0 == self.by_ord_id@[i as int].0@);
            } else {
                assert(t.len() == 0);
            }
        }
        i
    }

    fn put(&mut self, p: TrackedPosition)
        requires
            old(self)@.wf(),
        ensures
            final(self)@ == old(self)@.put(p@),
            final(self)@.wf(),
    {
        let ghost before = self@;
        let ghost pv = p@;
        let i: usize = self.find(p.client_ord_id.as_str());
        proof {
            lemma_place(before.entries, pv.client_ord_id);
        }
        if i < self.entries.len() {
            self.entries[i] = p;
        } else {
            self.entries.push(p);
        }
        proof {
            assert(self@.entries =~= before.put(pv).entries);
            assert(self@.by_ord_id =~= before.by_ord_id);
            lemma_put_wf(before, pv);
        }
    }

    fn index(&mut self, ord_id: String, id: String)
        requires
            old(self)@.wf(),
        ensures
            final(self)@ == old(self)@.indexed(ord_id@, id@),
            final(self)@.wf(),
    {
        let ghost before = self@;
        let ghost (o, c) = (ord_id@, id@);
        let i: usize = self.find_ord(ord_id.as_str());
        proof {
            lemma_index_place(before.by_ord_id, o);
        }
        if i < self.by_ord_id.len() {
            self.by_ord_id[i] = (ord_id, id);
        } else {
            self.by_ord_id.push((ord_id, id));
        }
        proof {
            assert(self@.by_ord_id =~= before.indexed(o, c).by_ord_id);
            assert(self@.entries =~= before.entries);
        }
    }

    /// Takes in a signal that was submitted to the exchange.
    pub fn record_submission(
        &mut self,
        signal: &TradeSignal,
        client_ord_id: String,
        entry_ord_id: String,
        now_ms: u64,
    )
        requires
            old(self)@.wf(),
        ensures
            final(self)@ == old(self)@.indexed(entry_ord_id@, client_ord_id@).put(
                pending_of(*signal, client_ord_id@, Some(entry_ord_id@), now_ms),
            ),
            final(self)@.wf(),
    {
        let held = TrackedPosition::from_signal(
            signal,
            client_ord_id.clone(),
            Some(entry_ord_id.clone()),
            now_ms,
        );
        self.index(entry_ord_id, client_ord_id);
        self.put(held);
    }

    /// Takes in a signal that was built and not submitted.
    pub fn record_unsubmitted(&mut self, signal: &TradeSignal, client_ord_id: String, now_ms: u64)
        requires
            old(self)@.wf(),
        ensures
            final(self)@ == old(self)@.put(pending_of(*signal, client_ord_id@, None, now_ms)),
            final(self)@.wf(),
    {
        let held = TrackedPosition::from_signal(signal, client_ord_id, None, now_ms);
        self.put(held);
    }

    /// Takes in an order event.
    pub fn apply_order_update(&mut self, update: &OrderUpdate)
        requires
            old(self)@.wf(),
        ensures
            final(self)@ == old(self)@.after(update@),
            final(self)@.wf(),
    {
        let ghost before = self@;
        let id: String = if !update.client_ord_id.as_str().is_empty() {
            update.client_ord_id.clone()
        } else {
            let k: usize = self.find_ord(update.ord_id.as_str());
            if k < self.by_ord_id.len() {
                self.by_ord_id[k].1.clone()
            } else {
                return ;
            }
        };
        proof {
            assert(before.subject(update@) == Some(id@));
        }
        let i: usize = self.find(id.as_str());
        if i >= self.entries.len() {
            return ;
        }
        proof {
            lemma_place(before.entries, id@);
        }
        let ghost p = self.entries@[i as int]@;
        let held: &mut TrackedPosition = &mut self.entries[i];
        held.last_update_ms = update.timestamp_ms;
        if update.fill_price.is_some() {
            held.fill_price = update.fill_price;
        }
        if let Some(sz) = update.acc_fill_size {
            held.filled_size = sz;
        }
        if held.state == PositionState::Pending {
            if same_text(update.state.as_str(), "filled") {
                held.state = PositionState::Open;
            } else if same_text(update.state.as_str(), "canceled") {
                held.state = PositionState::Canceled;
            }
        }
        proof {
            let q = updated(p, update@);
            assert(p == before.entries[i as int]);
            assert(self.entries@[i as int]@ == q);
            assert(self@.entries =~= before.put(q).entries);
            assert(self@.by_ord_id =~= before.by_ord_id);
            lemma_put_wf(before, q);
        }
    }

    /// Takes in that the exit of a position was filled.
    pub fn mark_closed_by_parent(&mut self, parent_client_ord_id: &str, now_ms: u64)
        requires
            old(self)@.wf(),
        ensures
            final(self)@ == old(self)@.closed(parent_client_ord_id@, now_ms),
            final(self)@.wf(),
    {
        let ghost before = self@;
        let i: usize = self.find(parent_client_ord_id);
        if i >= self.entries.len() {
            return ;
        }
        proof {
            lemma_place(before.entries, parent_client_ord_id@);
        }
        let ghost p = self.entries@[i as int]@;
        if self.entries[i].state == PositionState::Open {
            let held: &mut TrackedPosition = &mut self.entries[i];
            held.state = PositionState::Closed;
            held.last_update_ms = now_ms;
        }
        proof {
            let q = exited(p, now_ms);
            assert(p == before.entries[i as int]);
            assert(self.entries@[i as int]@ == q);
            assert(self@.entries =~= before.put(q).entries);
            assert(self@.by_ord_id =~= before.by_ord_id);
            lemma_put_wf(before, q);
        }
    }

    /// Whether a client order id is known.
    pub fn has_client_id(&self, client_ord_id: &str) -> (r: bool)
        ensures
            r == self@.knows(client_ord_id@),
    {
        self.find(client_ord_id) < self.entries.len()
    }

    /// The state of the position with a client order id.
    pub fn state_for_client_id(&self, client_ord_id: &str) -> (r: Option<PositionState>)
        ensures
            r == (match self@.get(client_ord_id@) {
                Some(p) => Some(p.state),
                None => None,
            }),
    {
        let i: usize = self.find(client_ord_id);
        if i < self.entries.len() {
            Some(self.entries[i].state)
        } else {
            None
        }
    }

    /// Whether a golden entry of a timeframe and a direction is open: the condition for adding
    /// a sniper entry.
    pub fn has_open_golden(&self, timeframe: Timeframe, direction: PatternDirection) -> (r: bool)
        ensures
            r == self@.open_golden(timeframe, direction),
    {
        let mut i: usize = 0;
        while i < self.entries.len()
            invariant
                i <= self.entries@.len(),
                forall|j: int|
                    0 <= j < i ==> !((#[trigger] self@.entries[j]).state == PositionState::Open
                        && self@.entries[j].is_entry(timeframe, direction, EntryZone::Golden)),
            decreases self.entries@.len() - i,
        {
            let p: &TrackedPosition = &self.entries[i];
            if p.is_open() && p.entry_zone == EntryZone::Golden && p.timeframe == timeframe && p.direction
                == direction {
                proof {
                    assert(self@.entries[i as int] == p@);
                }
                return true;
            }
            i = i + 1;
        }
        false
    }

    /// Whether an entry of a timeframe, a direction and a zone is pending or open.
    pub fn has_active_entry(
        &self,
        timeframe: Timeframe,
        direction: PatternDirection,
        zone: EntryZone,
    ) -> (r: bool)
        ensures
            r == self@.active_entry(timeframe, direction, zone),
    {
        let mut i: usize = 0;
        while i < self.entries.len()
            invariant
                i <= self.entries@.len(),
                forall|j: int|
                    0 <= j < i ==> !((#[trigger] self@.entries[j]).is_active() && self@.entries[j].is_entry(
                        timeframe,
                        direction,
                        zone,
                    )),
            decreases self.entries@.len() - i,
        {
            let p: &TrackedPosition = &self.entries[i];
            if p.is_active() && p.timeframe == timeframe && p.direction == direction && p.entry_zone == zone {
                proof {
                    assert(self@.entries[i as int] == p@);
                }
                return true;
            }
            i = i + 1;
        }
        false
    }

    /// All positions.
    pub fn all(&self) -> (r: Vec<&TrackedPosition>)
        ensures
            r@.len() == self@.entries.len(),
            forall|i: int| 0 <= i < r@.len() ==> (#[trigger] r@[i])@ == self@.entries[i],
    {
        let mut out: Vec<&TrackedPosition> = Vec::new();
        let mut i: usize = 0;
        while i < self.entries.len()
            invariant
                i <= self.entries@.len(),
                out@.len() == i,
                forall|j: int| 0 <= j < i ==> (#[trigger] out@[j])@ == self@.entries[j],
            decreases self.entries@.len() - i,
        {
            out.push(&self.entries[i]);
            i = i + 1;
        }
        out
    }

    /// The positions that are pending or open.
    pub fn active(&self) -> (r: Vec<&TrackedPosition>)
        ensures
            r@.len() == active_of(self@.entries).len(),
            forall|i: int| 0 <= i < r@.len() ==> (#[trigger] r@[i])@ == active_of(self@.entries)[i],
    {
        let mut out: Vec<&TrackedPosition> = Vec::new();
        let mut i: usize = 0;
        while i < self.entries.len()
            invariant
                i <= self.entries@.len(),
                out@.len() == active_of(self@.entries.take(i as int)).len(),
                forall|j: int|
                    0 <= j < out@.len() ==> (#[trigger] out@[j])@ == active_of(self@.entries.take(i as int))[j],
            decreases self.entries@.len() - i,
        {
            proof {
                let t = self@.entries.take(i + 1);
                assert(t.drop_last() =~= self@.entries.take(i as int));
                assert(t.last() == self.entries@[i as int]@);
            }
            if self.entries[i].is_active() {
                out.push(&self.entries[i]);
            }
            i = i + 1;
        }
        proof {
            assert(self@.entries.take(i as int) =~= self@.entries);
        }
        out
    }

    fn count(&self, state: PositionState) -> (r: u64)
        ensures
            r == count_in(self@.entries, state),
    {
        let mut n: u64 = 0;
        let mut i: usize = 0;
        while i < self.entries.len()
            invariant
                i <= self.entries@.len(),
                n <= i,
                n == count_in(self@.entries.take(i as int), state),
            decreases self.entries@.len() - i,
        {
            proof {
                let t = self@.entries.take(i + 1);
                assert(t.drop_last() =~= self@.entries.take(i as int));
                assert(t.last() == self.entries@[i as int]@);
            }
            if self.entries[i].state == state {
                n = n + 1;
            }
            i = i + 1;
        }
        proof {
            assert(self@.entries.take(i as int) =~= self@.entries);
        }
        n
    }

    /// How many positions are in each state.
    pub fn summary(&self) -> (s: String)
        ensures
            s@ == "pending:"@ + decimal(count_in(self@.entries, PositionState::Pending)) + " open:"@ + decimal(
                count_in(self@.entries, PositionState::Open),
            ) + " closed:"@ + decimal(count_in(self@.entries, PositionState::Closed)) + " canceled:"@
                + decimal(count_in(self@.entries, PositionState::Canceled)),
    {
        let mut s = "pending:".to_owned();
        s.append(decimal_text(self.count(PositionState::Pending)).as_str());
        s.append(" open:");
        s.append(decimal_text(self.count(PositionState::Open)).as_str());
        s.append(" closed:");
        s.append(decimal_text(self.count(PositionState::Closed)).as_str());
        s.append(" canceled:");
        s.append(decimal_text(self.count(PositionState::Canceled)).as_str());
        s
    }
}

/// The place of an id holds that id, and no earlier place does.
pub proof fn lemma_place(entries: Seq<PositionView>, id: Seq<char>)
    ensures
        place_of(entries, id) <= entries.len(),
        place_of(entries, id) < entries.len() ==> entries[place_of(entries, id) as int].client_ord_id == id,
        forall|j: int| 0 <= j < place_of(entries, id) ==> (#[trigger] entries[j]).client_ord_id != id,
    decreases entries.len(),
{
    if entries.len() > 0 && entries[0].client_ord_id != id {
        lemma_place(entries.skip(1), id);
        assert forall|j: int| 0 <= j < place_of(entries, id) implies (#[trigger] entries[j]).client_ord_id
            != id by {
            if j > 0 {
                assert(entries[j] == entries.skip(1)[j - 1]);
            }
        }
    }
}

/// An id that stands at a place, and at no earlier one, has that place.
pub proof fn lemma_place_is(entries: Seq<PositionView>, id: Seq<char>, i: int)
    requires
        0 <= i <= entries.len(),
        i < entries.len() ==> entries[i].client_ord_id == id,
        forall|j: int| 0 <= j < i ==> (#[trigger] entries[j]).client_ord_id != id,
    ensures
        place_of(entries, id) == i,
{
    lemma_place(entries, id);
    let k = place_of(entries, id) as int;
    if k < i {
        assert(entries[k].client_ord_id != id);
    }
}

proof fn lemma_index_place(pairs: Seq<(Seq<char>, Seq<char>)>, ord_id: Seq<char>)
    ensures
        index_place(pairs, ord_id) <= pairs.len(),
        index_place(pairs, ord_id) < pairs.len() ==> pairs[index_place(pairs, ord_id) as int].0 == ord_id,
        forall|j: int| 0 <= j < index_place(pairs, ord_id) ==> (#[trigger] pairs[j]).0 != ord_id,
    decreases pairs.len(),
{
    if pairs.len() > 0 && pairs[0].0 != ord_id {
        lemma_index_place(pairs.skip(1), ord_id);
        assert forall|j: int| 0 <= j < index_place(pairs, ord_id) implies (#[trigger] pairs[j]).0 != ord_id by {
            if j > 0 {
                assert(pairs[j] == pairs.skip(1)[j - 1]);
            }
        }
    }
}

pub(crate) proof fn lemma_put_wf(v: PositionsView, p: PositionView)
    requires
        v.wf(),
    ensures
        v.put(p).wf(),
        v.put(p).get(p.client_ord_id) == Some(p),
{
    lemma_place(v.entries, p.client_ord_id);
    let w = v.put(p);
    let i = place_of(v.entries, p.client_ord_id) as int;
    assert forall|j: int| 0 <= j < i implies (#[trigger] w.entries[j]).client_ord_id != p.client_ord_id by {
        assert(w.entries[j] == v.entries[j]);
    }
    lemma_place_is(w.entries, p.client_ord_id, i);
    assert forall|a: int, b: int| 0 <= a < b < w.entries.len() implies (#[trigger] w.entries[a]).client_ord_id
        != (#[trigger] w.entries[b]).client_ord_id by {
        if i < v.entries.len() {
            assert(w.entries[a].client_ord_id == v.entries[a].client_ord_id);
            assert(w.entries[b].client_ord_id == v.entries[b].client_ord_id);
        } else if b < v.entries.len() {
            assert(w.entries[a] == v.entries[a] && w.entries[b] == v.entries[b]);
        } else {
            assert(w.entries[a] == v.entries[a]);
        }
    }
}

/// Every position keeps its place when one is updated, and its id.
pub(crate) proof fn lemma_put_places(v: PositionsView, p: PositionView, id: Seq<char>)
    requires
        v.wf(),
        v.knows(p.client_ord_id),
    ensures
        place_of(v.put(p).entries, id) == place_of(v.entries, id),
        v.put(p).get(id) == (if id == p.client_ord_id { Some(p) } else { v.get(id) }),
{
    lemma_place(v.entries, p.client_ord_id);
    lemma_place(v.entries, id);
    let w = v.put(p);
    let i = place_of(v.entries, id) as int;
    assert forall|j: int| 0 <= j < w.entries.len() implies (#[trigger] w.entries[j]).client_ord_id
        == v.entries[j].client_ord_id by {}
    lemma_place_is(w.entries, id, i);
}

/// An order event that arrives a second time changes nothing.
pub proof fn law_events_are_idempotent(v: PositionsView, u: OrderUpdateView)
    requires
        v.wf(),
    ensures
        v.after(u).after(u) == v.after(u),
{
    match v.subject(u) {
        Some(id) => {
            if v.knows(id) {
                let p = v.get(id).unwrap();
                let q = updated(p, u);
                lemma_place(v.entries, id);
                lemma_put_places(v, q, id);
                lemma_put_wf(v, q);
                let w = v.after(u);
                assert(w.subject(u) == Some(id));
                assert(updated(q, u) == q);
                let i = place_of(v.entries, id) as int;
                assert(w.put(q).entries =~= w.entries);
            }
        },
        None => {},
    }
}

/// The only changes of state that an order event brings about are those of a pending entry,
/// and the only one that an exit brings about closes an open position.
pub proof fn law_transitions(v: PositionsView, u: OrderUpdateView, exit: Seq<char>, now_ms: u64, id: Seq<char>)
    requires
        v.wf(),
        v.knows(id),
    ensures
        v.after(u).knows(id),
        v.closed(exit, now_ms).knows(id),
        ({
            let before = v.get(id).unwrap().state;
            let after = v.after(u).get(id).unwrap().state;
            after == before || (before == PositionState::Pending && (after == PositionState::Open || after
                == PositionState::Canceled))
        }),
        ({
            let before = v.get(id).unwrap().state;
            let after = v.closed(exit, now_ms).get(id).unwrap().state;
            after == before || (before == PositionState::Open && after == PositionState::Closed)
        }),
{
    lemma_place(v.entries, id);
    match v.subject(u) {
        Some(s) => {
            if v.knows(s) {
                lemma_place(v.entries, s);
                let q = updated(v.get(s).unwrap(), u);
                lemma_put_places(v, q, id);
            }
        },
        None => {},
    }
    if v.knows(exit) {
        lemma_place(v.entries, exit);
        let q = exited(v.get(exit).unwrap(), now_ms);
        lemma_put_places(v, q, id);
    }
}

/// A closed position stays closed, and a canceled one canceled, whatever arrives.
pub proof fn law_ended_positions_stay_ended(
    v: PositionsView,
    u: OrderUpdateView,
    exit: Seq<char>,
    now_ms: u64,
    id: Seq<char>,
)
    requires
        v.wf(),
        v.knows(id),
        !v.get(id).unwrap().is_active(),
    ensures
        v.after(u).get(id).unwrap().state == v.get(id).unwrap().state,
        v.closed(exit, now_ms).get(id).unwrap().state == v.get(id).unwrap().state,
{
    law_transitions(v, u, exit, now_ms, id);
}

/// An event that reports anything but a complete fill does not let sniper entries in.
pub proof fn law_partial_fill_keeps_gate_closed(
    v: PositionsView,
    u: OrderUpdateView,
    timeframe: Timeframe,
    direction: PatternDirection,
)
    requires
        v.wf(),
        u.state != "filled"@,
        !v.open_golden(timeframe, direction),
    ensures
        !v.after(u).open_golden(timeframe, direction),
{
    let w = v.after(u);
    match v.subject(u) {
        Some(s) => {
            if v.knows(s) {
                lemma_place(v.entries, s);
                let k = place_of(v.entries, s) as int;
                assert forall|i: int| 0 <= i < w.entries.len() implies !((#[trigger] w.entries[i]).state
                    == PositionState::Open && w.entries[i].is_entry(
                    timeframe,
                    direction,
                    EntryZone::Golden,
                )) by {
                    assert(!(v.entries[i].state == PositionState::Open && v.entries[i].is_entry(
                        timeframe,
                        direction,
                        EntryZone::Golden,
                    )));
                }
            }
        },
        None => {},
    }
}

/// A golden entry that is filled lets in sniper entries of its timeframe and
/// direction; when its exit is filled, it counts no longer.
pub proof fn law_gate_follows_fills(v: PositionsView, signal: TradeSignal, u: OrderUpdateView, id: Seq<char>, ord_id: Seq<char>, t0: u64, t1: u64)
    requires
        v.wf(),
        signal.entry_zone == EntryZone::Golden,
        id.len() > 0,
        u.client_ord_id == id,
        u.state == "filled"@,
    ensures
        ({
            let filled = v.indexed(ord_id, id).put(pending_of(signal, id, Some(ord_id), t0)).after(u);
            &&& filled.open_golden(signal.timeframe, signal.direction)
            &&& filled.closed(id, t1).get(id) matches Some(p) && p.state == PositionState::Closed
        }),
{
    let x = v.indexed(ord_id, id);
    assert(x.wf()) by {
        lemma_index_place(v.by_ord_id, ord_id);
    }
    let p = pending_of(signal, id, Some(ord_id), t0);
    lemma_put_wf(x, p);
    let y = x.put(p);
    let q = updated(p, u);
    lemma_put_wf(y, q);
    let z = y.after(u);
    assert(z == y.put(q));
    let k = place_of(z.entries, id) as int;
    lemma_place(z.entries, id);
    assert(z.entries[k].state == PositionState::Open);
    lemma_put_wf(z, exited(q, t1));
}

} // verus!
