//! Detection of pivots: candles that stick out of their neighbours on both sides.

use crate::candle::kept;
use crate::candle::lemma_kept_is_newest;
use crate::candle::newest;
use crate::candle::Candle;
use crate::fixed::fixed_text;
use crate::number::Real;
use crate::text::decimal;
use crate::text::decimal_text;
use std::collections::VecDeque;
use vstd::prelude::*;
use vstd::string::*;

verus! {

/// Which way a pivot points.
#[derive(Debug, Clone, Copy, PartialEq, Eq, Structural)]
pub enum SwingType {
    High,
    Low,
}

impl SwingType {
    pub open spec fn text(self) -> Seq<char> {
        match self {
            SwingType::High => "HIGH"@,
            SwingType::Low => "LOW"@,
        }
    }

    /// The name of the type.
    pub fn to_text(&self) -> (s: String)
        ensures
            s@ == self.text(),
    {
        match self {
            SwingType::High => "HIGH".to_owned(),
            SwingType::Low => "LOW".to_owned(),
        }
    }
}

/// A confirmed pivot.
#[derive(Debug, Clone, Copy, PartialEq, Eq, Structural)]
pub struct SwingPoint {
    /// Open time of the candle that formed it.
    pub timestamp: u64,
    /// The high of that candle for a high, its low for a low.
    pub price: Real,
    pub swing_type: SwingType,
}

impl SwingPoint {
    pub open spec fn spec_is_high(&self) -> bool {
        self.swing_type == SwingType::High
    }

    /// Whether this is a high.
    #[verifier::when_used_as_spec(spec_is_high)]
    pub fn is_high(&self) -> (r: bool)
        ensures
            r == self.spec_is_high(),
    {
        self.swing_type == SwingType::High
    }

    pub open spec fn spec_is_low(&self) -> bool {
        self.swing_type == SwingType::Low
    }

    /// Whether this is a low.
    #[verifier::when_used_as_spec(spec_is_low)]
    pub fn is_low(&self) -> (r: bool)
        ensures
            r == self.spec_is_low(),
    {
        self.swing_type == SwingType::Low
    }

    /// The pivot on one line.
    pub fn to_text(&self) -> (s: String)
        ensures
            s@ == self.swing_type.text() + " @ $"@ + fixed_text(self.price, 2) + " [ts="@ + decimal(
                self.timestamp as nat,
            ) + "]"@,
    {
        let mut s = self.swing_type.to_text();
        s.append(" @ $");
        s.append(self.price.fixed(2).as_str());
        s.append(" [ts=");
        s.append(decimal_text(self.timestamp).as_str());
        s.append("]");
        s
    }
}

/// Whether a candle's high is strictly above the highs of its `n` neighbours on each side.
pub open spec fn tops(h: Seq<Candle>, i: int, n: int) -> bool {
    forall|j: int| i - n <= j <= i + n && j != i ==> (#[trigger] h[j]).high.lt(h[i].high)
}

/// Whether a candle's low is strictly below the lows of its `n` neighbours on each side.
pub open spec fn bottoms(h: Seq<Candle>, i: int, n: int) -> bool {
    forall|j: int| i - n <= j <= i + n && j != i ==> h[i].low.lt((#[trigger] h[j]).low)
}

/// The pivot at a candle, if there is one.
pub open spec fn pivot(h: Seq<Candle>, i: int, n: int) -> Option<SwingPoint> {
    if tops(h, i, n) {
        Some(
            SwingPoint { timestamp: h[i].open_time, price: h[i].high, swing_type: SwingType::High },
        )
    } else if bottoms(h, i, n) {
        Some(SwingPoint { timestamp: h[i].open_time, price: h[i].low, swing_type: SwingType::Low })
    } else {
        None
    }
}

/// Whether a candle has not been looked at before.
pub open spec fn is_new(c: Candle, cursor: Option<u64>) -> bool {
    match cursor {
        Some(t) => c.open_time > t,
        None => true,
    }
}

/// The pivots among the candles from place `n` up to but not `end` that are new.
pub open spec fn pivots(h: Seq<Candle>, n: int, cursor: Option<u64>, end: int) -> Seq<SwingPoint>
    decreases end - n,
{
    if end <= n {
        Seq::empty()
    } else {
        let head = pivots(h, n, cursor, end - 1);
        if is_new(h[end - 1], cursor) {
            match pivot(h, end - 1, n) {
                Some(p) => head.push(p),
                None => head,
            }
        } else {
            head
        }
    }
}

/// The open time of the last new candle before `end`, or the old cursor.
pub open spec fn advanced(h: Seq<Candle>, n: int, cursor: Option<u64>, end: int) -> Option<u64>
    decreases end - n,
{
    if end <= n {
        cursor
    } else if is_new(h[end - 1], cursor) {
        Some(h[end - 1].open_time)
    } else {
        advanced(h, n, cursor, end - 1)
    }
}

/// A bounded history after several more items.
pub open spec fn kept_all<T>(s: Seq<T>, xs: Seq<T>, cap: nat) -> Seq<T>
    decreases xs.len(),
{
    if xs.len() == 0 {
        s
    } else {
        kept(kept_all(s, xs.drop_last(), cap), xs.last(), cap)
    }
}

/// The state of a detector.
pub struct SwingView {
    /// How many neighbours confirm a pivot on each side.
    pub lookback: nat,
    /// Confirmed pivots, oldest first.
    pub confirmed: Seq<SwingPoint>,
    pub max_swings: nat,
    /// Open time of the last candle that was looked at.
    pub cursor: Option<u64>,
}

impl SwingView {
    pub open spec fn wf(self) -> bool {
        &&& self.lookback > 0
        &&& self.confirmed.len() <= self.max_swings
    }

    /// The pivots that a history newly confirms. A candle that has fewer than `lookback`
    /// neighbours on one side is never one.
    pub open spec fn found(self, h: Seq<Candle>) -> Seq<SwingPoint> {
        pivots(h, self.lookback as int, self.cursor, h.len() - self.lookback)
    }

    /// The state after a history was scanned.
    pub open spec fn after(self, h: Seq<Candle>) -> SwingView {
        SwingView {
            confirmed: kept_all(self.confirmed, self.found(h), self.max_swings),
            cursor: advanced(h, self.lookback as int, self.cursor, h.len() - self.lookback),
            ..self
        }
    }
}

/// Finds pivots in a growing candle history and keeps the newest of them.
pub struct SwingDetector {
    lookback: usize,
    confirmed: VecDeque<SwingPoint>,
    max_swings: usize,
    last_analyzed_time: Option<u64>,
}

impl View for SwingDetector {
    type V = SwingView;

    closed spec fn view(&self) -> SwingView {
        SwingView {
            lookback: self.lookback as nat,
            confirmed: self.confirmed@,
            max_swings: self.max_swings as nat,
            cursor: self.last_analyzed_time,
        }
    }
}

/// Whether a candle's high is strictly above the highs of its neighbours.
fn is_top(history: &VecDeque<Candle>, i: usize, n: usize) -> (r: bool)
    requires
        n <= i,
        i + n < history@.len(),
    ensures
        r == tops(history@, i as int, n as int),
{
    let len: usize = history.len();
    let mut j: usize = i - n;
    while j <= i + n
        invariant
            n <= i,
            i + n < len,
            len == history@.len(),
            i - n <= j <= i + n + 1,
            forall|k: int| i - n <= k < j && k != i ==> (#[trigger] history@[k]).high.lt(history@[i as int].high),
        decreases i + n + 1 - j,
    {
        if j != i && !history[j].high.lt(history[i].high) {
            return false;
        }
        j = j + 1;
    }
    true
}

/// Whether a candle's low is strictly below the lows of its neighbours.
fn is_bottom(history: &VecDeque<Candle>, i: usize, n: usize) -> (r: bool)
    requires
        n <= i,
        i + n < history@.len(),
    ensures
        r == bottoms(history@, i as int, n as int),
{
    let len: usize = history.len();
    let mut j: usize = i - n;
    while j <= i + n
        invariant
            n <= i,
            i + n < len,
            len == history@.len(),
            i - n <= j <= i + n + 1,
            forall|k: int| i - n <= k < j && k != i ==> history@[i as int].low.lt((#[trigger] history@[k]).low),
        decreases i + n + 1 - j,
    {
        if j != i && !history[i].low.lt(history[j].low) {
            return false;
        }
        j = j + 1;
    }
    true
}

impl SwingDetector {
    /// A detector that asks for `lookback` neighbours on each side and keeps the newest
    /// `max_swings` pivots.
    pub fn new(lookback: usize, max_swings: usize) -> (r: Self)
        requires
            lookback > 0,
        ensures
            r@ == (SwingView {
                lookback: lookback as nat,
                confirmed: Seq::empty(),
                max_swings: max_swings as nat,
                cursor: None,
            }),
            r@.wf(),
    {
        SwingDetector {
            lookback,
            confirmed: VecDeque::new(),
            max_swings,
            last_analyzed_time: None,
        }
    }

    /// Scans a candle history. Returns the pivots that it newly confirms.
    pub fn update(&mut self, history: &VecDeque<Candle>) -> (r: Vec<SwingPoint>)
        requires
            old(self)@.wf(),
        ensures
            r@ == old(self)@.found(history@),
            final(self)@ == old(self)@.after(history@),
            final(self)@.wf(),
    {
        let mut new_swings: Vec<SwingPoint> = Vec::new();
        let len: usize = history.len();
        let n: usize = self.lookback;
        if len <= n || len - n <= n {
            return new_swings;
        }
        let last_candidate: usize = len - n;
        let cursor: Option<u64> = self.last_analyzed_time;
        let mut newest_examined: Option<u64> = None;
        let ghost start = self@;
        let mut i: usize = n;
        while i < last_candidate
            invariant
                n <= i <= last_candidate,
                last_candidate == len - n,
                len == history@.len() <= usize::MAX,
                start == old(self)@,
                start.lookback == n,
                start.cursor == cursor,
                self@.wf(),
                new_swings@ == pivots(history@, n as int, cursor, i as int),
                self@ == (SwingView {
                    confirmed: kept_all(start.confirmed, new_swings@, start.max_swings),
                    ..start
                }),
                newest_examined is None ==> advanced(history@, n as int, cursor, i as int) == cursor,
                newest_examined is Some ==> advanced(history@, n as int, cursor, i as int)
                    == newest_examined,
            decreases last_candidate - i,
        {
            let candidate: Candle = history[i];
            let fresh: bool = match cursor {
                Some(cutoff) => candidate.open_time > cutoff,
                None => true,
            };
            if fresh {
                newest_examined = Some(candidate.open_time);
                if is_top(history, i, n) {
                    let swing = SwingPoint {
                        timestamp: candidate.open_time,
                        price: candidate.high,
                        swing_type: SwingType::High,
                    };
                    proof {
                        assert(new_swings@.push(swing).drop_last() =~= new_swings@);
                    }
                    self.push(swing);
                    new_swings.push(swing);
                } else if is_bottom(history, i, n) {
                    let swing = SwingPoint {
                        timestamp: candidate.open_time,
                        price: candidate.low,
                        swing_type: SwingType::Low,
                    };
                    proof {
                        assert(new_swings@.push(swing).drop_last() =~= new_swings@);
                    }
                    self.push(swing);
                    new_swings.push(swing);
                }
            }
            i = i + 1;
        }
        if newest_examined.is_some() {
            self.last_analyzed_time = newest_examined;
        }
        new_swings
    }

    fn push(&mut self, swing: SwingPoint)
        requires
            old(self)@.wf(),
        ensures
            final(self)@ == (SwingView {
                confirmed: kept(old(self)@.confirmed, swing, old(self)@.max_swings),
                ..old(self)@
            }),
            final(self)@.wf(),
    {
        if self.max_swings > 0 {
            if self.confirmed.len() >= self.max_swings {
                let _ = self.confirmed.pop_front();
            }
            self.confirmed.push_back(swing);
        }
        proof {
            assert(self.confirmed@ =~= kept(old(self)@.confirmed, swing, old(self)@.max_swings));
        }
    }

    /// The kept pivots, oldest first.
    pub fn confirmed(&self) -> (r: &VecDeque<SwingPoint>)
        ensures
            r@ == self@.confirmed,
    {
        &self.confirmed
    }

    /// The newest pivot.
    pub fn last(&self) -> (r: Option<&SwingPoint>)
        ensures
            match r {
                Some(p) => self@.confirmed.len() > 0 && *p == self@.confirmed.last(),
                None => self@.confirmed.len() == 0,
            },
    {
        let n: usize = self.confirmed.len();
        if n == 0 {
            None
        } else {
            Some(&self.confirmed[n - 1])
        }
    }

    /// The newest pivot of a type.
    fn last_of(&self, swing_type: SwingType) -> (r: Option<&SwingPoint>)
        ensures
            match r {
                Some(p) => exists|i: int|
                    {
                        &&& 0 <= i < self@.confirmed.len()
                        &&& *p == #[trigger] self@.confirmed[i]
                        &&& p.swing_type == swing_type
                        &&& forall|j: int|
                            i < j < self@.confirmed.len() ==> (#[trigger] self@.confirmed[j]).swing_type
                                != swing_type
                    },
                None => forall|j: int|
                    0 <= j < self@.confirmed.len() ==> (#[trigger] self@.confirmed[j]).swing_type
                        != swing_type,
            },
    {
        let mut i: usize = self.confirmed.len();
        while i > 0
            invariant
                i <= self.confirmed@.len(),
                forall|j: int|
                    i <= j < self.confirmed@.len() ==> (#[trigger] self.confirmed@[j]).swing_type
                        != swing_type,
            decreases i,
        {
            i = i - 1;
            if self.confirmed[i].swing_type == swing_type {
                proof {
                    assert(self@.confirmed[i as int] == self.confirmed@[i as int]);
                }
                return Some(&self.confirmed[i]);
            }
        }
        None
    }

    /// The newest high.
    pub fn last_high(&self) -> (r: Option<&SwingPoint>)
        ensures
            match r {
                Some(p) => exists|i: int|
                    {
                        &&& 0 <= i < self@.confirmed.len()
                        &&& *p == #[trigger] self@.confirmed[i]
                        &&& p.is_high()
                        &&& forall|j: int|
                            i < j < self@.confirmed.len() ==> !(#[trigger] self@.confirmed[j]).is_high()
                    },
                None => forall|j: int|
                    0 <= j < self@.confirmed.len() ==> !(#[trigger] self@.confirmed[j]).is_high(),
            },
    {
        self.last_of(SwingType::High)
    }

    /// The newest low.
    pub fn last_low(&self) -> (r: Option<&SwingPoint>)
        ensures
            match r {
                Some(p) => exists|i: int|
                    {
                        &&& 0 <= i < self@.confirmed.len()
                        &&& *p == #[trigger] self@.confirmed[i]
                        &&& p.is_low()
                        &&& forall|j: int|
                            i < j < self@.confirmed.len() ==> !(#[trigger] self@.confirmed[j]).is_low()
                    },
                None => forall|j: int|
                    0 <= j < self@.confirmed.len() ==> !(#[trigger] self@.confirmed[j]).is_low(),
            },
    {
        self.last_of(SwingType::Low)
    }

    /// The newest `n` pivots, oldest first; all of them when there are fewer.
    pub fn recent(&self, n: usize) -> (r: Vec<&SwingPoint>)
        ensures
            r@.len() == newest(self@.confirmed, n as nat).len(),
            forall|i: int| 0 <= i < r@.len() ==> *(#[trigger] r@[i]) == newest(self@.confirmed, n as nat)[i],
    {
        let len: usize = self.confirmed.len();
        let start: usize = if n >= len { 0 } else { len - n };
        let mut out: Vec<&SwingPoint> = Vec::new();
        let mut i: usize = start;
        while i < len
            invariant
                start <= i <= len,
                len == self.confirmed@.len(),
                out@.len() == i - start,
                forall|k: int| 0 <= k < out@.len() ==> *(#[trigger] out@[k]) == self.confirmed@[start + k],
            decreases len - i,
        {
            out.push(&self.confirmed[i]);
            i = i + 1;
        }
        out
    }

    /// How many pivots are kept.
    pub fn len(&self) -> (r: usize)
        ensures
            r == self@.confirmed.len(),
    {
        self.confirmed.len()
    }

    /// Whether no pivot is kept.
    pub fn is_empty(&self) -> (r: bool)
        ensures
            r == (self@.confirmed.len() == 0),
    {
        self.confirmed.len() == 0
    }

    /// How many neighbours confirm a pivot on each side.
    pub fn lookback(&self) -> (r: usize)
        ensures
            r == self@.lookback,
    {
        self.lookback
    }

    /// The fill of the detector on one line.
    pub fn to_text(&self) -> (s: String)
        ensures
            s@ == "SwingDetector[lookback="@ + decimal(self@.lookback) + "] confirmed: "@ + decimal(
                self@.confirmed.len(),
            ) + "/"@ + decimal(self@.max_swings),
    {
        let mut s = "SwingDetector[lookback=".to_owned();
        s.append(decimal_text(self.lookback as u64).as_str());
        s.append("] confirmed: ");
        s.append(decimal_text(self.confirmed.len() as u64).as_str());
        s.append("/");
        s.append(decimal_text(self.max_swings as u64).as_str());
        s
    }
}

/// A candle that ties with a neighbour in its window is no pivot of that kind.
pub proof fn law_ties_are_no_pivots(h: Seq<Candle>, i: int, j: int, n: int)
    requires
        i - n <= j <= i + n,
        j != i,
    ensures
        h[j].high.same(h[i].high) ==> !tops(h, i, n),
        h[j].low.same(h[i].low) ==> !bottoms(h, i, n),
{
    if tops(h, i, n) {
        assert(h[j].high.lt(h[i].high));
    }
    if bottoms(h, i, n) {
        assert(h[i].low.lt(h[j].low));
    }
}

/// Whether candles stand in the order of their open times, each time once.
pub open spec fn in_time_order(h: Seq<Candle>) -> bool {
    forall|i: int, j: int| 0 <= i < j < h.len() ==> (#[trigger] h[i]).open_time < (#[trigger] h[j]).open_time
}

/// Every pivot that a scan reports is newer than what was looked at before, belongs to a candle
/// with `lookback` neighbours on each side, and sticks out of all of them.
pub proof fn law_reported_pivots(v: SwingView, h: Seq<Candle>, k: int)
    requires
        v.wf(),
        0 <= k < v.found(h).len(),
    ensures
        v.cursor matches Some(t) ==> v.found(h)[k].timestamp > t,
        exists|i: int|
            {
                &&& v.lookback <= i < h.len() - v.lookback
                &&& #[trigger] pivot(h, i, v.lookback as int) == Some(v.found(h)[k])
            },
{
    lemma_reported(h, v.lookback as int, v.cursor, h.len() - v.lookback, k);
}

proof fn lemma_reported(h: Seq<Candle>, n: int, cursor: Option<u64>, end: int, k: int)
    requires
        0 <= k < pivots(h, n, cursor, end).len(),
    ensures
        cursor matches Some(t) ==> pivots(h, n, cursor, end)[k].timestamp > t,
        exists|i: int|
            {
                &&& n <= i < end
                &&& #[trigger] pivot(h, i, n) == Some(pivots(h, n, cursor, end)[k])
            },
    decreases end - n,
{
    let head = pivots(h, n, cursor, end - 1);
    if k < head.len() {
        lemma_reported(h, n, cursor, end - 1, k);
    } else {
        assert(pivot(h, end - 1, n) == Some(pivots(h, n, cursor, end)[k]));
    }
}

/// No pivot is reported twice: what a scan reports is not newer than its cursor, and the next
/// scan reports only what is newer.
pub proof fn law_no_redetection(v: SwingView, h: Seq<Candle>, later: Seq<Candle>, k: int, m: int)
    requires
        v.wf(),
        in_time_order(h),
        0 <= k < v.found(h).len(),
        0 <= m < v.after(h).found(later).len(),
    ensures
        v.found(h)[k].timestamp < v.after(h).found(later)[m].timestamp,
{
    let n = v.lookback as int;
    let end = h.len() - v.lookback;
    lemma_reported_by_cursor(h, n, v.cursor, end, k);
    lemma_reported(later, n, v.after(h).cursor, later.len() - v.lookback, m);
}

proof fn lemma_reported_by_cursor(h: Seq<Candle>, n: int, cursor: Option<u64>, end: int, k: int)
    requires
        n >= 0,
        end <= h.len(),
        in_time_order(h),
        0 <= k < pivots(h, n, cursor, end).len(),
    ensures
        advanced(h, n, cursor, end) matches Some(t) && pivots(h, n, cursor, end)[k].timestamp <= t,
    decreases end - n,
{
    let head = pivots(h, n, cursor, end - 1);
    if k < head.len() {
        lemma_reported_by_cursor(h, n, cursor, end - 1, k);
        lemma_advanced_below(h, n, cursor, end - 1);
        lemma_reported(h, n, cursor, end - 1, k);
        if is_new(h[end - 1], cursor) {
            let t = advanced(h, n, cursor, end - 1).unwrap();
            lemma_cursor_is_a_candle(h, n, cursor, end - 1, k);
        }
    } else {
        assert(pivot(h, end - 1, n) == Some(pivots(h, n, cursor, end)[k]));
    }
}

proof fn lemma_advanced_below(h: Seq<Candle>, n: int, cursor: Option<u64>, end: int)
    ensures
        advanced(h, n, cursor, end) == cursor || exists|i: int|
            n <= i < end && advanced(h, n, cursor, end) == Some((#[trigger] h[i]).open_time),
    decreases end - n,
{
    if end > n && !is_new(h[end - 1], cursor) {
        lemma_advanced_below(h, n, cursor, end - 1);
    } else if end > n {
        assert(advanced(h, n, cursor, end) == Some(h[end - 1].open_time));
    }
}

proof fn lemma_cursor_is_a_candle(h: Seq<Candle>, n: int, cursor: Option<u64>, end: int, k: int)
    requires
        n >= 0,
        end < h.len(),
        in_time_order(h),
        0 <= k < pivots(h, n, cursor, end).len(),
        advanced(h, n, cursor, end) matches Some(t) && pivots(h, n, cursor, end)[k].timestamp <= t,
    ensures
        advanced(h, n, cursor, end).unwrap() < h[end].open_time,
{
    lemma_advanced_below(h, n, cursor, end);
    lemma_reported(h, n, cursor, end, k);
    if advanced(h, n, cursor, end) == cursor {
        assert(pivots(h, n, cursor, end)[k].timestamp > cursor.unwrap());
    } else {
        let i = choose|i: int| n <= i < end && advanced(h, n, cursor, end) == Some((#[trigger] h[i]).open_time);
        assert(h[i].open_time < h[end].open_time);
    }
}

/// Scanning the same history again reports nothing and changes nothing.
pub proof fn law_rescan_finds_nothing(v: SwingView, h: Seq<Candle>)
    requires
        v.wf(),
        in_time_order(h),
    ensures
        v.after(h).found(h) == Seq::<SwingPoint>::empty(),
        v.after(h).after(h) == v.after(h),
{
    let n = v.lookback as int;
    let end = h.len() - v.lookback;
    let c = v.after(h).cursor;
    lemma_nothing_new(h, n, v.cursor, end);
    lemma_stale_scan(h, n, c, end);
    assert(v.after(h).found(h) =~= Seq::<SwingPoint>::empty());
}

/// After a scan, none of the scanned candles is new.
proof fn lemma_nothing_new(h: Seq<Candle>, n: int, cursor: Option<u64>, end: int)
    requires
        n >= 0,
        end <= h.len(),
        in_time_order(h),
    ensures
        forall|i: int| n <= i < end ==> !is_new(#[trigger] h[i], advanced(h, n, cursor, end)),
        advanced(h, n, cursor, end) != cursor ==> end > n,
    decreases end - n,
{
    if end > n {
        lemma_nothing_new(h, n, cursor, end - 1);
        let a = advanced(h, n, cursor, end);
        assert forall|i: int| n <= i < end implies !is_new(#[trigger] h[i], a) by {
            if is_new(h[end - 1], cursor) {
                if i < end - 1 {
                    assert(h[i].open_time < h[end - 1].open_time);
                }
            } else if i == end - 1 {
                lemma_advanced_not_before(h, n, cursor, end - 1);
            }
        }
    }
}

/// A cursor never moves back.
proof fn lemma_advanced_not_before(h: Seq<Candle>, n: int, cursor: Option<u64>, end: int)
    ensures
        cursor matches Some(t) ==> (advanced(h, n, cursor, end) matches Some(a) && a >= t),
    decreases end - n,
{
    if end > n && !is_new(h[end - 1], cursor) {
        lemma_advanced_not_before(h, n, cursor, end - 1);
    }
}

/// A scan of candles of which none is new reports nothing.
proof fn lemma_stale_scan(h: Seq<Candle>, n: int, cursor: Option<u64>, end: int)
    requires
        forall|i: int| n <= i < end ==> !is_new(#[trigger] h[i], cursor),
    ensures
        pivots(h, n, cursor, end) == Seq::<SwingPoint>::empty(),
        advanced(h, n, cursor, end) == cursor,
    decreases end - n,
{
    if end > n {
        lemma_stale_scan(h, n, cursor, end - 1);
    }
}

/// After a scan the newest of the old and the new pivots are kept, in order, and never more than
/// the bound.
pub proof fn law_newest_pivots_are_kept(v: SwingView, h: Seq<Candle>)
    requires
        v.wf(),
    ensures
        v.after(h).confirmed == newest(v.confirmed + v.found(h), v.max_swings),
        v.after(h).confirmed.len() <= v.max_swings,
{
    lemma_kept_all_is_newest(v.confirmed, v.found(h), v.max_swings);
}

proof fn lemma_kept_all_is_newest<T>(s: Seq<T>, xs: Seq<T>, cap: nat)
    requires
        s.len() <= cap,
    ensures
        kept_all(s, xs, cap) == newest(s + xs, cap),
    decreases xs.len(),
{
    if xs.len() == 0 {
        assert(s + xs =~= s);
    } else {
        lemma_kept_all_is_newest(s, xs.drop_last(), cap);
        lemma_kept_is_newest(s + xs.drop_last(), xs.last(), cap);
        assert((s + xs.drop_last()).push(xs.last()) =~= s + xs);
    }
}

} // verus!
