//! Catching up with the exchange: what its record of recent orders says about the positions.
//!
//! While the private stream is down, fills go by unseen, of entries and of exits. The record of
//! recent orders has them. It is taken in again and again, so an order that was already accounted
//! for changes nothing.

use crate::json::integer_below;
use crate::json::integer_in;
use crate::json::item_at;
use crate::json::item_pointer;
use crate::json::json_lists;
use crate::json::json_texts;
use crate::json::list_at;
use crate::json::list_in;
use crate::json::number_below;
use crate::json::number_in;
use crate::json::text_at;
use crate::json::text_below;
use crate::json::text_in;
use crate::position::exited;
use crate::position::lemma_place;
use crate::position::lemma_place_is;
use crate::position::lemma_put_places;
use crate::position::lemma_put_wf;
use crate::position::next_state;
use crate::position::place_of;
use crate::position::updated;
use crate::position::OrderUpdate;
use crate::position::OrderUpdateView;
use crate::position::PositionState;
use crate::position::PositionView;
use crate::position::Positions;
use crate::position::PositionsView;
use crate::private_ws::entry_of_exit;
use crate::private_ws::is_exit;
use crate::private_ws::parent_id;
use crate::text::same_text;
use serde_json::Value;
use vstd::prelude::*;
use vstd::string::*;

verus! {

/// Seconds between two passes.
pub const DEFAULT_PERIODIC_INTERVAL_SECS: u64 = 300;

/// What passes have seen and done.
#[derive(Debug, Clone, Copy, PartialEq, Eq, Structural)]
pub struct ReconciliationStats {
    /// Records that were received.
    pub api_calls: u32,
    /// Orders in these records.
    pub orders_seen: u32,
    /// Those of them that are ours.
    pub orders_recognized: u32,
    /// Those of them that changed the state of a position.
    pub state_changes: u32,
    /// Records that were refused or not received.
    pub errors: u32,
}

impl Default for ReconciliationStats {
    fn default() -> (r: Self)
        ensures
            r == (ReconciliationStats {
                api_calls: 0,
                orders_seen: 0,
                orders_recognized: 0,
                state_changes: 0,
                errors: 0,
            }),
    {
        ReconciliationStats {
            api_calls: 0,
            orders_seen: 0,
            orders_recognized: 0,
            state_changes: 0,
            errors: 0,
        }
    }
}

/// The order at a place in a record. An order without a name of ours, without one of the
/// exchange or without a state is none.
pub open spec fn order_entry(texts: Map<Seq<char>, Seq<char>>, at: Seq<char>) -> Option<
    OrderUpdateView,
> {
    match (
        text_in(texts, at + "/clOrdId"@),
        text_in(texts, at + "/ordId"@),
        text_in(texts, at + "/state"@),
    ) {
        (Some(client_ord_id), Some(ord_id), Some(state)) => if client_ord_id.len() == 0 {
            None
        } else {
            Some(
                OrderUpdateView {
                    client_ord_id,
                    ord_id,
                    state,
                    fill_price: number_in(texts, at + "/fillPx"@),
                    acc_fill_size: integer_in(texts, at + "/accFillSz"@),
                    timestamp_ms: match integer_in(texts, at + "/uTime"@) {
                        Some(t) => t,
                        None => 0,
                    },
                },
            )
        },
        _ => None,
    }
}

/// The orders of a record.
pub open spec fn history(texts: Map<Seq<char>, Seq<char>>, n: nat) -> Seq<Option<OrderUpdateView>> {
    Seq::new(n, |i: int| order_entry(texts, item_pointer(i as nat)))
}

/// What a record has done.
pub struct Pass {
    pub positions: PositionsView,
    pub recognized: nat,
    pub changes: nat,
}

/// The state of a position, if there is one of that name.
pub open spec fn state_of(v: PositionsView, id: Seq<char>) -> Option<PositionState> {
    match v.get(id) {
        Some(p) => Some(p.state),
        None => None,
    }
}

/// Whether an order is the filled exit of a position.
pub open spec fn is_exit_of(v: PositionsView, u: OrderUpdateView) -> bool {
    u.state == "filled"@ && is_exit(u.client_ord_id) && v.knows(parent_id(u.client_ord_id))
}

/// The orders of a record that are no exits of ours.
pub open spec fn without_exits(
    v: PositionsView,
    orders: Seq<Option<OrderUpdateView>>,
) -> Seq<Option<OrderUpdateView>> {
    Seq::new(
        orders.len(),
        |i: int|
            match orders[i] {
                Some(u) => if is_exit_of(v, u) { None } else { Some(u) },
                None => None,
            },
    )
}

/// The orders of a record that are exits of ours.
pub open spec fn exits_in(
    v: PositionsView,
    orders: Seq<Option<OrderUpdateView>>,
) -> Seq<Option<OrderUpdateView>> {
    Seq::new(
        orders.len(),
        |i: int|
            match orders[i] {
                Some(u) => if is_exit_of(v, u) { Some(u) } else { None },
                None => None,
            },
    )
}

/// One if the state of a position differs, else none.
pub open spec fn change(v: PositionsView, w: PositionsView, id: Seq<char>) -> nat {
    if state_of(v, id) != state_of(w, id) { 1 } else { 0 }
}

/// What the entries of a record do. Orders that are none, or not ours, are passed over; the others
/// are taken in like events of the stream.
pub open spec fn entered(v: PositionsView, orders: Seq<Option<OrderUpdateView>>) -> Pass
    decreases orders.len(),
{
    if orders.len() == 0 {
        Pass { positions: v, recognized: 0, changes: 0 }
    } else {
        let before = entered(v, orders.drop_last());
        match orders.last() {
            Some(u) => if before.positions.knows(u.client_ord_id) {
                let positions = before.positions.after(u);
                Pass {
                    positions,
                    recognized: before.recognized + 1,
                    changes: before.changes + change(before.positions, positions, u.client_ord_id),
                }
            } else {
                before
            },
            None => before,
        }
    }
}

/// What the exits of a record do: each closes the position of its entry, where that is open.
pub open spec fn left(v: PositionsView, exits: Seq<Option<OrderUpdateView>>) -> Pass
    decreases exits.len(),
{
    if exits.len() == 0 {
        Pass { positions: v, recognized: 0, changes: 0 }
    } else {
        let before = left(v, exits.drop_last());
        match exits.last() {
            Some(u) => {
                let id = parent_id(u.client_ord_id);
                let positions = before.positions.closed(id, u.timestamp_ms);
                Pass {
                    positions,
                    recognized: before.recognized + 1,
                    changes: before.changes + change(before.positions, positions, id),
                }
            },
            None => before,
        }
    }
}

/// What a record does. Its entries are taken in first and its exits after them, so that an entry
/// and its exit that were both missed are made up for at once, whichever the record names first.
pub open spec fn reconciled(v: PositionsView, orders: Seq<Option<OrderUpdateView>>) -> Pass {
    let first = entered(v, without_exits(v, orders));
    let second = left(first.positions, exits_in(v, orders));
    Pass {
        positions: second.positions,
        recognized: first.recognized + second.recognized,
        changes: first.changes + second.changes,
    }
}

/// The number of orders in a record; none in one that was refused or has no list of orders.
pub open spec fn orders_in(texts: Map<Seq<char>, Seq<char>>, lists: Map<Seq<char>, nat>) -> nat {
    if text_in(texts, "/code"@) == Some("0"@) {
        match list_in(lists, "/data"@) {
            Some(n) => n,
            None => 0,
        }
    } else {
        0
    }
}

/// Whether the counts of a record can be added.
pub open spec fn has_room(
    stats: ReconciliationStats,
    texts: Map<Seq<char>, Seq<char>>,
    lists: Map<Seq<char>, nat>,
) -> bool {
    let n = orders_in(texts, lists);
    &&& stats.orders_seen + n <= u32::MAX
    &&& stats.orders_recognized + n <= u32::MAX
    &&& stats.state_changes + n <= u32::MAX
    &&& stats.errors < u32::MAX
}

/// The counts after a record.
pub open spec fn counted(
    stats: ReconciliationStats,
    texts: Map<Seq<char>, Seq<char>>,
    lists: Map<Seq<char>, nat>,
    v: PositionsView,
) -> ReconciliationStats {
    let n = orders_in(texts, lists);
    let pass = reconciled(v, history(texts, n));
    ReconciliationStats {
        orders_seen: (stats.orders_seen + n) as u32,
        orders_recognized: (stats.orders_recognized + pass.recognized) as u32,
        state_changes: (stats.state_changes + pass.changes) as u32,
        errors: if text_in(texts, "/code"@) == Some("0"@) {
            stats.errors
        } else {
            (stats.errors + 1) as u32
        },
        ..stats
    }
}

/// The order at a place in a record.
fn order_at(record: &Value, at: &str) -> (r: Option<OrderUpdate>)
    ensures
        match r {
            Some(u) => order_entry(json_texts(*record), at@) == Some(u@),
            None => order_entry(json_texts(*record), at@) is None,
        },
{
    let client_ord_id = match text_below(record, at, "/clOrdId") {
        Some(s) => s,
        None => {
            return None;
        },
    };
    if client_ord_id.as_str().is_empty() {
        return None;
    }
    let ord_id = match text_below(record, at, "/ordId") {
        Some(s) => s,
        None => {
            return None;
        },
    };
    let state = match text_below(record, at, "/state") {
        Some(s) => s,
        None => {
            return None;
        },
    };
    let fill_price = number_below(record, at, "/fillPx");
    let acc_fill_size = integer_below(record, at, "/accFillSz");
    let timestamp_ms: u64 = match integer_below(record, at, "/uTime") {
        Some(t) => t,
        None => 0,
    };
    Some(OrderUpdate { client_ord_id, ord_id, state, fill_price, acc_fill_size, timestamp_ms })
}

/// An order of the exchange's record.
pub fn parse_order_entry(entry: &Value) -> (r: Option<OrderUpdate>)
    ensures
        match r {
            Some(u) => order_entry(json_texts(*entry), Seq::empty()) == Some(u@),
            None => order_entry(json_texts(*entry), Seq::empty()) is None,
        },
{
    proof {
        reveal_strlit("");
        assert(""@ =~= Seq::<char>::empty());
    }
    order_at(entry, "")
}

/// Whether two states are the same.
fn same_state(a: Option<PositionState>, b: Option<PositionState>) -> (r: bool)
    ensures
        r == (a == b),
{
    match (a, b) {
        (Some(x), Some(y)) => x == y,
        (None, None) => true,
        _ => false,
    }
}

/// Takes in a record. Returns how many of its orders changed the state of a position.
pub fn apply_history_to_positions(
    json: &Value,
    positions: &mut Positions,
    stats: &mut ReconciliationStats,
) -> (r: u32)
    requires
        old(positions)@.wf(),
        has_room(*old(stats), json_texts(*json), json_lists(*json)),
    ensures
        ({
            let n = orders_in(json_texts(*json), json_lists(*json));
            let pass = reconciled(old(positions)@, history(json_texts(*json), n));
            &&& final(positions)@ == pass.positions
            &&& r == pass.changes
        }),
        final(positions)@.wf(),
        *final(stats) == counted(
            *old(stats),
            json_texts(*json),
            json_lists(*json),
            old(positions)@,
        ),
{
    let ghost texts = json_texts(*json);
    let ghost before = positions@;
    let ghost counts = *stats;
    let accepted = match text_at(json, "/code") {
        Some(code) => same_text(code.as_str(), "0"),
        None => false,
    };
    if !accepted {
        stats.errors = stats.errors + 1;
        proof {
            lemma_empty_record(before, texts);
        }
        return 0;
    }
    let n: usize = match list_at(json, "/data") {
        Some(n) => n,
        None => {
            proof {
                lemma_empty_record(before, texts);
            }
            return 0;
        },
    };
    let ghost all = history(texts, n as nat);
    let ghost entries = without_exits(before, all);
    let ghost exits = exits_in(before, all);
    proof {
        lemma_counts(before, all);
        lemma_names(texts, n as nat);
        lemma_still_named(before, all);
        assert(entries.take(0) =~= Seq::empty());
    }
    let mut changes: u32 = 0;
    let mut i: usize = 0;
    while i < n
        invariant
            i <= n,
            texts == json_texts(*json),
            before.wf(),
            all == history(texts, n as nat),
            entries == without_exits(before, all),
            named(entries),
            positions@.wf(),
            counts.orders_seen + n <= u32::MAX,
            counts.orders_recognized + n <= u32::MAX,
            counts.state_changes + n <= u32::MAX,
            stats.orders_seen == counts.orders_seen + i,
            stats.api_calls == counts.api_calls,
            stats.errors == counts.errors,
            ({
                let pass = entered(before, entries.take(i as int));
                &&& positions@ == pass.positions
                &&& changes == pass.changes
                &&& stats.orders_recognized == counts.orders_recognized + pass.recognized
                &&& stats.state_changes == counts.state_changes + pass.changes
                &&& pass.changes <= i
                &&& pass.recognized <= i
            }),
        decreases n - i,
    {
        stats.orders_seen = stats.orders_seen + 1;
        let at = item_at(i);
        let order = order_at(json, at.as_str());
        proof {
            let next = entries.take(i + 1);
            assert(next.drop_last() =~= entries.take(i as int));
            assert(all[i as int] == order_entry(texts, item_pointer(i as nat)));
            assert(next.last() == entries[i as int]);
            lemma_named_part(entries, i as int);
            lemma_pass(before, entries.take(i as int));
        }
        match order {
            Some(update) => {
                proof {
                    lemma_same_names(before, positions@, parent_id(update@.client_ord_id));
                }
                if exit_of_ours(positions, &update).is_none() && positions.has_client_id(
                    update.client_ord_id.as_str(),
                ) {
                    stats.orders_recognized = stats.orders_recognized + 1;
                    let state = positions.state_for_client_id(update.client_ord_id.as_str());
                    positions.apply_order_update(&update);
                    let next = positions.state_for_client_id(update.client_ord_id.as_str());
                    if !same_state(state, next) {
                        changes = changes + 1;
                        stats.state_changes = stats.state_changes + 1;
                    }
                }
            },
            None => {},
        }
        i = i + 1;
    }
    proof {
        assert(entries.take(n as int) =~= entries);
        assert(exits.take(0) =~= Seq::empty());
        lemma_pass(before, entries);
    }
    let ghost middle = positions@;
    let ghost first = entered(before, entries);
    let mut j: usize = 0;
    while j < n
        invariant
            j <= n,
            texts == json_texts(*json),
            before.wf(),
            middle.wf(),
            middle == first.positions,
            all == history(texts, n as nat),
            exits == exits_in(before, all),
            same_ids(before, middle),
            positions@.wf(),
            counts.orders_recognized + n <= u32::MAX,
            counts.state_changes + n <= u32::MAX,
            first.recognized + left(middle, exits).recognized <= n,
            first.changes + left(middle, exits).changes <= n,
            stats.orders_seen == counts.orders_seen + n,
            stats.api_calls == counts.api_calls,
            stats.errors == counts.errors,
            ({
                let pass = left(middle, exits.take(j as int));
                &&& positions@ == pass.positions
                &&& changes == first.changes + pass.changes
                &&& stats.orders_recognized == counts.orders_recognized + first.recognized
                    + pass.recognized
                &&& stats.state_changes == counts.state_changes + first.changes + pass.changes
            }),
        decreases n - j,
    {
        let at = item_at(j);
        let order = order_at(json, at.as_str());
        proof {
            let next = exits.take(j + 1);
            assert(next.drop_last() =~= exits.take(j as int));
            assert(all[j as int] == order_entry(texts, item_pointer(j as nat)));
            assert(next.last() == exits[j as int]);
            lemma_left(middle, exits.take(j as int));
            lemma_left_grows(middle, exits, j + 1);
        }
        match order {
            Some(update) => {
                proof {
                    lemma_same_names(before, positions@, parent_id(update@.client_ord_id));
                }
                if let Some(parent) = exit_of_ours(positions, &update) {
                    stats.orders_recognized = stats.orders_recognized + 1;
                    let state = positions.state_for_client_id(parent.as_str());
                    positions.mark_closed_by_parent(parent.as_str(), update.timestamp_ms);
                    let next = positions.state_for_client_id(parent.as_str());
                    if !same_state(state, next) {
                        changes = changes + 1;
                        stats.state_changes = stats.state_changes + 1;
                    }
                }
            },
            None => {},
        }
        j = j + 1;
    }
    assert(exits.take(n as int) =~= exits);
    changes
}

/// The entry that an order is the filled exit of, if it is one of ours.
fn exit_of_ours(positions: &Positions, update: &OrderUpdate) -> (r: Option<String>)
    ensures
        match r {
            Some(id) => is_exit_of(positions@, update@) && id@ == parent_id(update@.client_ord_id),
            None => !is_exit_of(positions@, update@),
        },
{
    if !same_text(update.state.as_str(), "filled") {
        return None;
    }
    match entry_of_exit(update.client_ord_id.as_str()) {
        Some(id) => if positions.has_client_id(id.as_str()) {
            Some(id)
        } else {
            None
        },
        None => None,
    }
}

/// Takes in what came back for one instrument: a record, or the error instead of one. Returns how
/// many orders changed the state of a position; `None` where the counts have no room for the
/// record, which is then left alone.
pub fn reconcile(
    reply: Result<Value, String>,
    positions: &mut Positions,
    stats: &mut ReconciliationStats,
) -> (r: Option<u32>)
    requires
        old(positions)@.wf(),
    ensures
        final(positions)@.wf(),
        match reply {
            Ok(json) => {
                let (texts, lists) = (json_texts(json), json_lists(json));
                if has_room(*old(stats), texts, lists) && old(stats).api_calls < u32::MAX {
                    let pass = reconciled(
                        old(positions)@,
                        history(texts, orders_in(texts, lists)),
                    );
                    &&& final(positions)@ == pass.positions
                    &&& r == Some(pass.changes as u32)
                    &&& pass.changes <= u32::MAX
                    &&& *final(stats) == (ReconciliationStats {
                        api_calls: (old(stats).api_calls + 1) as u32,
                        ..counted(*old(stats), texts, lists, old(positions)@)
                    })
                } else {
                    r is None && *final(stats) == *old(stats) && final(positions)@ == old(
                        positions,
                    )@
                }
            },
            Err(_) => {
                &&& final(positions)@ == old(positions)@
                &&& if old(stats).errors < u32::MAX {
                    r == Some(0u32) && *final(stats) == (ReconciliationStats {
                        errors: (old(stats).errors + 1) as u32,
                        ..*old(stats)
                    })
                } else {
                    r is None && *final(stats) == *old(stats)
                }
            },
        },
{
    match reply {
        Ok(json) => {
            if !room(&json, stats) || stats.api_calls == u32::MAX {
                return None;
            }
            stats.api_calls = stats.api_calls + 1;
            Some(apply_history_to_positions(&json, positions, stats))
        },
        Err(_) => {
            if stats.errors == u32::MAX {
                return None;
            }
            stats.errors = stats.errors + 1;
            Some(0)
        },
    }
}

/// Whether the counts of a record can be added.
fn room(json: &Value, stats: &ReconciliationStats) -> (r: bool)
    ensures
        r == has_room(*stats, json_texts(*json), json_lists(*json)),
{
    let accepted = match text_at(json, "/code") {
        Some(code) => same_text(code.as_str(), "0"),
        None => false,
    };
    let n: usize = if accepted {
        match list_at(json, "/data") {
            Some(n) => n,
            None => 0,
        }
    } else {
        0
    };
    let max: usize = 0xffff_ffff;
    n <= max - stats.orders_seen as usize && n <= max - stats.orders_recognized as usize && n <= max
        - stats.state_changes as usize && stats.errors < u32::MAX
}

/// A position after those orders of a record that have its name.
spec fn folded(p: PositionView, orders: Seq<Option<OrderUpdateView>>) -> PositionView
    decreases orders.len(),
{
    if orders.len() == 0 {
        p
    } else {
        let q = folded(p, orders.drop_last());
        match orders.last() {
            Some(u) => if u.client_ord_id == p.client_ord_id { updated(q, u) } else { q },
            None => q,
        }
    }
}

/// Whether every order has a name.
spec fn named(orders: Seq<Option<OrderUpdateView>>) -> bool {
    forall|i: int|
        0 <= i < orders.len() ==> ((#[trigger] orders[i]) matches Some(u) ==> u.client_ord_id.len()
            > 0)
}

/// Whether no order of a record that has a position's name would change the position's state.
spec fn settled(p: PositionView, orders: Seq<Option<OrderUpdateView>>) -> bool {
    forall|i: int|
        0 <= i < orders.len() ==> ((#[trigger] orders[i]) matches Some(u) ==> u.client_ord_id
            == p.client_ord_id ==> next_state(p.state, u.state) == p.state)
}

/// A record goes over every position on its own.
proof fn lemma_pass(v: PositionsView, orders: Seq<Option<OrderUpdateView>>)
    requires
        v.wf(),
        named(orders),
    ensures
        ({
            let w = entered(v, orders).positions;
            &&& w.wf()
            &&& w.by_ord_id == v.by_ord_id
            &&& w.entries.len() == v.entries.len()
            &&& same_ids(v, w)
            &&& forall|i: int|
                0 <= i < v.entries.len() ==> #[trigger] w.entries[i] == folded(v.entries[i], orders)
        }),
    decreases orders.len(),
{
    if orders.len() > 0 {
        let rest = orders.drop_last();
        assert forall|i: int| 0 <= i < rest.len() implies ((#[trigger] rest[i]) matches Some(u)
            ==> u.client_ord_id.len() > 0) by {
            assert(rest[i] == orders[i]);
        }
        lemma_pass(v, rest);
        let b = entered(v, rest).positions;
        let w = entered(v, orders).positions;
        assert(orders.last() == orders[orders.len() - 1]);
        assert forall|i: int| 0 <= i < v.entries.len() implies (#[trigger] b.entries[i]).client_ord_id
            == v.entries[i].client_ord_id by {
            lemma_fold_keeps(v.entries[i], rest);
        }
        match orders.last() {
            Some(u) => {
                let id = u.client_ord_id;
                lemma_place(b.entries, id);
                let k = place_of(b.entries, id) as int;
                if b.knows(id) {
                    let q = updated(b.entries[k], u);
                    assert(b.after(u) == b.put(q));
                    lemma_put_wf(b, q);
                    assert forall|i: int| 0 <= i < v.entries.len() implies #[trigger] w.entries[i]
                        == folded(v.entries[i], orders) by {
                        if i == k {
                            assert(b.entries[i].client_ord_id == id);
                        } else if i < k {
                            assert(b.entries[i].client_ord_id != b.entries[k].client_ord_id);
                        } else {
                            assert(b.entries[k].client_ord_id != b.entries[i].client_ord_id);
                        }
                    }
                } else {
                    assert forall|i: int| 0 <= i < v.entries.len() implies #[trigger] w.entries[i]
                        == folded(v.entries[i], orders) by {
                        assert(b.entries[i].client_ord_id != id);
                    }
                }
            },
            None => {},
        }
    }
}

/// Orders change neither the name nor the terms of a position.
proof fn lemma_fold_keeps(p: PositionView, orders: Seq<Option<OrderUpdateView>>)
    ensures
        folded(p, orders) == (PositionView {
            state: folded(p, orders).state,
            last_update_ms: folded(p, orders).last_update_ms,
            fill_price: folded(p, orders).fill_price,
            filled_size: folded(p, orders).filled_size,
            ..p
        }),
    decreases orders.len(),
{
    if orders.len() > 0 {
        lemma_fold_keeps(p, orders.drop_last());
    }
}

/// What a record says of a fill does not depend on what was known before.
proof fn lemma_fold_overwrites(
    p: PositionView,
    q: PositionView,
    orders: Seq<Option<OrderUpdateView>>,
)
    requires
        p.client_ord_id == q.client_ord_id,
    ensures
        ({
            let (a, b) = (folded(p, orders), folded(q, orders));
            &&& a.last_update_ms == b.last_update_ms || (a.last_update_ms == p.last_update_ms
                && b.last_update_ms == q.last_update_ms)
            &&& a.fill_price == b.fill_price || (a.fill_price == p.fill_price && b.fill_price
                == q.fill_price)
            &&& a.filled_size == b.filled_size || (a.filled_size == p.filled_size && b.filled_size
                == q.filled_size)
        }),
    decreases orders.len(),
{
    if orders.len() > 0 {
        lemma_fold_overwrites(p, q, orders.drop_last());
    }
}

/// After a record none of its orders is news.
proof fn lemma_fold_settles(p: PositionView, orders: Seq<Option<OrderUpdateView>>)
    ensures
        settled(folded(p, orders), orders),
    decreases orders.len(),
{
    if orders.len() > 0 {
        let rest = orders.drop_last();
        lemma_fold_settles(p, rest);
        lemma_fold_keeps(p, rest);
        lemma_fold_keeps(p, orders);
        let q = folded(p, rest);
        let r = folded(p, orders);
        assert forall|i: int| 0 <= i < orders.len() implies ((#[trigger] orders[i]) matches Some(u)
            ==> u.client_ord_id == r.client_ord_id ==> next_state(r.state, u.state)
            == r.state) by {
            if i < rest.len() {
                assert(rest[i] == orders[i]);
            }
        }
    }
}

/// Orders that are no news leave the state.
proof fn lemma_settled_stays(
    p: PositionView,
    orders: Seq<Option<OrderUpdateView>>,
    part: Seq<Option<OrderUpdateView>>,
)
    requires
        settled(p, orders),
        part.len() <= orders.len(),
        forall|i: int| 0 <= i < part.len() ==> #[trigger] part[i] == orders[i],
    ensures
        folded(p, part).state == p.state,
    decreases part.len(),
{
    if part.len() > 0 {
        let rest = part.drop_last();
        assert forall|i: int| 0 <= i < rest.len() implies #[trigger] rest[i] == orders[i] by {
            assert(rest[i] == part[i]);
        }
        lemma_settled_stays(p, orders, rest);
        assert(part.last() == orders[part.len() - 1]);
    }
}

/// A record that holds no news counts no change.
proof fn lemma_no_changes(
    w: PositionsView,
    orders: Seq<Option<OrderUpdateView>>,
    part: Seq<Option<OrderUpdateView>>,
)
    requires
        w.wf(),
        named(orders),
        forall|i: int| 0 <= i < w.entries.len() ==> settled(#[trigger] w.entries[i], orders),
        part.len() <= orders.len(),
        forall|i: int| 0 <= i < part.len() ==> #[trigger] part[i] == orders[i],
    ensures
        entered(w, part).changes == 0,
    decreases part.len(),
{
    if part.len() > 0 {
        let rest = part.drop_last();
        assert forall|i: int| 0 <= i < rest.len() implies #[trigger] rest[i] == orders[i] by {
            assert(rest[i] == part[i]);
        }
        lemma_no_changes(w, orders, rest);
        assert(named(rest)) by {
            assert forall|i: int| 0 <= i < rest.len() implies ((#[trigger] rest[i]) matches Some(u)
                ==> u.client_ord_id.len() > 0) by {
                assert(rest[i] == orders[i]);
            }
        }
        lemma_pass(w, rest);
        let b = entered(w, rest).positions;
        assert(part.last() == orders[part.len() - 1]);
        match part.last() {
            Some(u) => {
                let id = u.client_ord_id;
                if b.knows(id) {
                    lemma_place(b.entries, id);
                    let k = place_of(b.entries, id) as int;
                    let q = updated(b.entries[k], u);
                    assert(b.after(u) == b.put(q));
                    lemma_put_places(b, q, id);
                    lemma_fold_keeps(w.entries[k], rest);
                    lemma_settled_stays(w.entries[k], orders, rest);
                }
            },
            None => {},
        }
    }
}

/// Whether two registers hold positions of the same names, in the same places.
spec fn same_ids(v: PositionsView, w: PositionsView) -> bool {
    &&& v.entries.len() == w.entries.len()
    &&& forall|i: int|
        0 <= i < v.entries.len() ==> (#[trigger] w.entries[i]).client_ord_id
            == v.entries[i].client_ord_id
}

/// Registers of the same names know the same names.
proof fn lemma_same_names(v: PositionsView, w: PositionsView, id: Seq<char>)
    requires
        same_ids(v, w),
    ensures
        place_of(w.entries, id) == place_of(v.entries, id),
        w.knows(id) == v.knows(id),
{
    lemma_place(v.entries, id);
    let i = place_of(v.entries, id) as int;
    assert forall|j: int| 0 <= j < i implies (#[trigger] w.entries[j]).client_ord_id != id by {
        assert(v.entries[j].client_ord_id != id);
    }
    if i < v.entries.len() {
        assert(w.entries[i].client_ord_id == id);
    }
    lemma_place_is(w.entries, id, i);
}

/// A position after those exits of a record that are its own.
spec fn shut(p: PositionView, exits: Seq<Option<OrderUpdateView>>) -> PositionView
    decreases exits.len(),
{
    if exits.len() == 0 {
        p
    } else {
        let q = shut(p, exits.drop_last());
        match exits.last() {
            Some(u) => if parent_id(u.client_ord_id) == p.client_ord_id {
                exited(q, u.timestamp_ms)
            } else {
                q
            },
            None => q,
        }
    }
}

/// Whether a record holds an exit of a position.
pub open spec fn has_exit(p: PositionView, exits: Seq<Option<OrderUpdateView>>) -> bool {
    exists|i: int|
        0 <= i < exits.len() && ((#[trigger] exits[i]) matches Some(u) && parent_id(u.client_ord_id)
            == p.client_ord_id)
}

/// Exits close an open position and leave every other as it is.
proof fn lemma_shut(p: PositionView, exits: Seq<Option<OrderUpdateView>>)
    ensures
        shut(p, exits) == (PositionView {
            state: shut(p, exits).state,
            last_update_ms: shut(p, exits).last_update_ms,
            ..p
        }),
        p.state != PositionState::Open ==> shut(p, exits) == p,
        !has_exit(p, exits) ==> shut(p, exits) == p,
        p.state == PositionState::Open && has_exit(p, exits) ==> shut(p, exits).state
            == PositionState::Closed,
    decreases exits.len(),
{
    if exits.len() > 0 {
        let rest = exits.drop_last();
        lemma_shut(p, rest);
        assert(exits.last() == exits[exits.len() - 1]);
        if has_exit(p, rest) {
            let i = choose|i: int|
                0 <= i < rest.len() && ((#[trigger] rest[i]) matches Some(u) && parent_id(
                    u.client_ord_id,
                ) == p.client_ord_id);
            assert(rest[i] == exits[i]);
        }
        if has_exit(p, exits) {
            let i = choose|i: int|
                0 <= i < exits.len() && ((#[trigger] exits[i]) matches Some(u) && parent_id(
                    u.client_ord_id,
                ) == p.client_ord_id);
            if i < rest.len() {
                assert(rest[i] == exits[i]);
            }
        }
    }
}

/// The exits of a record go over every position on its own.
proof fn lemma_left(v: PositionsView, exits: Seq<Option<OrderUpdateView>>)
    requires
        v.wf(),
    ensures
        ({
            let w = left(v, exits).positions;
            &&& w.wf()
            &&& w.by_ord_id == v.by_ord_id
            &&& same_ids(v, w)
            &&& forall|i: int|
                0 <= i < v.entries.len() ==> #[trigger] w.entries[i] == shut(v.entries[i], exits)
        }),
    decreases exits.len(),
{
    if exits.len() > 0 {
        let rest = exits.drop_last();
        lemma_left(v, rest);
        let b = left(v, rest).positions;
        let w = left(v, exits).positions;
        match exits.last() {
            Some(u) => {
                let id = parent_id(u.client_ord_id);
                lemma_place(b.entries, id);
                let k = place_of(b.entries, id) as int;
                if b.knows(id) {
                    let q = exited(b.entries[k], u.timestamp_ms);
                    assert(w == b.put(q));
                    lemma_put_wf(b, q);
                    assert forall|i: int| 0 <= i < v.entries.len() implies #[trigger] w.entries[i]
                        == shut(v.entries[i], exits) && w.entries[i].client_ord_id
                        == v.entries[i].client_ord_id by {
                        assert(b.entries[i].client_ord_id == v.entries[i].client_ord_id);
                        if i == k {
                            assert(b.entries[i].client_ord_id == id);
                        } else if i < k {
                            assert(b.entries[i].client_ord_id != b.entries[k].client_ord_id);
                        } else {
                            assert(b.entries[k].client_ord_id != b.entries[i].client_ord_id);
                        }
                    }
                } else {
                    assert forall|i: int| 0 <= i < v.entries.len() implies #[trigger] w.entries[i]
                        == shut(v.entries[i], exits) by {
                        assert(b.entries[i].client_ord_id == v.entries[i].client_ord_id);
                        assert(b.entries[i].client_ord_id != id);
                    }
                }
            },
            None => {},
        }
    }
}

/// The counts of exits only grow.
proof fn lemma_left_grows(v: PositionsView, exits: Seq<Option<OrderUpdateView>>, k: int)
    requires
        0 <= k <= exits.len(),
    ensures
        left(v, exits.take(k)).recognized <= left(v, exits).recognized,
        left(v, exits.take(k)).changes <= left(v, exits).changes,
    decreases exits.len() - k,
{
    if k < exits.len() {
        lemma_left_grows(v, exits, k + 1);
        assert(exits.take(k + 1).drop_last() =~= exits.take(k));
    } else {
        assert(exits.take(k) =~= exits);
    }
}

/// How many orders are there.
spec fn present(orders: Seq<Option<OrderUpdateView>>) -> nat
    decreases orders.len(),
{
    if orders.len() == 0 {
        0
    } else {
        present(orders.drop_last()) + (if orders.last() is Some { 1nat } else { 0nat })
    }
}

proof fn lemma_entered_counts(v: PositionsView, orders: Seq<Option<OrderUpdateView>>)
    ensures
        entered(v, orders).recognized <= present(orders),
        entered(v, orders).changes <= present(orders),
        present(orders) <= orders.len(),
    decreases orders.len(),
{
    if orders.len() > 0 {
        lemma_entered_counts(v, orders.drop_last());
    }
}

proof fn lemma_left_counts(v: PositionsView, exits: Seq<Option<OrderUpdateView>>)
    ensures
        left(v, exits).recognized <= present(exits),
        left(v, exits).changes <= present(exits),
    decreases exits.len(),
{
    if exits.len() > 0 {
        lemma_left_counts(v, exits.drop_last());
    }
}

/// Every order is an entry or an exit, not both.
proof fn lemma_either(v: PositionsView, orders: Seq<Option<OrderUpdateView>>)
    ensures
        present(without_exits(v, orders)) + present(exits_in(v, orders)) <= orders.len(),
    decreases orders.len(),
{
    if orders.len() > 0 {
        let rest = orders.drop_last();
        lemma_either(v, rest);
        assert(without_exits(v, orders).drop_last() =~= without_exits(v, rest));
        assert(exits_in(v, orders).drop_last() =~= exits_in(v, rest));
    }
}

/// No more orders are recognized, and no more changes are counted, than there are orders.
proof fn lemma_counts(v: PositionsView, orders: Seq<Option<OrderUpdateView>>)
    ensures
        reconciled(v, orders).recognized <= orders.len(),
        reconciled(v, orders).changes <= orders.len(),
{
    let first = entered(v, without_exits(v, orders));
    lemma_entered_counts(v, without_exits(v, orders));
    lemma_left_counts(first.positions, exits_in(v, orders));
    lemma_either(v, orders);
}

/// The orders of a record have names.
proof fn lemma_names(texts: Map<Seq<char>, Seq<char>>, n: nat)
    ensures
        named(history(texts, n)),
{
}

proof fn lemma_still_named(v: PositionsView, orders: Seq<Option<OrderUpdateView>>)
    requires
        named(orders),
    ensures
        named(without_exits(v, orders)),
{
    let o = without_exits(v, orders);
    assert forall|i: int| 0 <= i < o.len() implies ((#[trigger] o[i]) matches Some(u)
        ==> u.client_ord_id.len() > 0) by {
        assert(orders[i] is Some || orders[i] is None);
    }
}

proof fn lemma_named_part(orders: Seq<Option<OrderUpdateView>>, k: int)
    requires
        named(orders),
        0 <= k <= orders.len(),
    ensures
        named(orders.take(k)),
{
    let o = orders.take(k);
    assert forall|i: int| 0 <= i < o.len() implies ((#[trigger] o[i]) matches Some(u)
        ==> u.client_ord_id.len() > 0) by {
        assert(o[i] == orders[i]);
    }
}

/// A record without orders does nothing.
proof fn lemma_empty_record(v: PositionsView, texts: Map<Seq<char>, Seq<char>>)
    ensures
        reconciled(v, history(texts, 0)) == (Pass { positions: v, recognized: 0, changes: 0 }),
{
    assert(without_exits(v, history(texts, 0)) =~= Seq::empty());
    assert(exits_in(v, history(texts, 0)) =~= Seq::empty());
}

/// Registers of the same names see the same exits in a record.
proof fn lemma_same_exits(
    v: PositionsView,
    w: PositionsView,
    orders: Seq<Option<OrderUpdateView>>,
)
    requires
        same_ids(v, w),
    ensures
        without_exits(w, orders) == without_exits(v, orders),
        exits_in(w, orders) == exits_in(v, orders),
{
    assert forall|i: int| 0 <= i < orders.len() implies without_exits(w, orders)[i]
        == without_exits(v, orders)[i] && exits_in(w, orders)[i] == exits_in(v, orders)[i] by {
        match orders[i] {
            Some(u) => lemma_same_names(v, w, parent_id(u.client_ord_id)),
            None => {},
        }
    }
    assert(without_exits(w, orders) =~= without_exits(v, orders));
    assert(exits_in(w, orders) =~= exits_in(v, orders));
}

/// Exits of positions that are not open count no change.
proof fn lemma_no_exits(v: PositionsView, exits: Seq<Option<OrderUpdateView>>)
    requires
        v.wf(),
        forall|i: int|
            0 <= i < v.entries.len() && (#[trigger] v.entries[i]).state == PositionState::Open
                ==> !has_exit(v.entries[i], exits),
    ensures
        left(v, exits).positions == v,
        left(v, exits).changes == 0,
    decreases exits.len(),
{
    if exits.len() > 0 {
        let rest = exits.drop_last();
        assert(exits.last() == exits[exits.len() - 1]);
        assert forall|i: int|
            0 <= i < v.entries.len() && (#[trigger] v.entries[i]).state
                == PositionState::Open implies !has_exit(v.entries[i], rest) by {
            let p = v.entries[i];
            if has_exit(p, rest) {
                let j = choose|j: int|
                    0 <= j < rest.len() && ((#[trigger] rest[j]) matches Some(u) && parent_id(
                        u.client_ord_id,
                    ) == p.client_ord_id);
                assert(rest[j] == exits[j]);
            }
        }
        lemma_no_exits(v, rest);
        match exits.last() {
            Some(u) => {
                let id = parent_id(u.client_ord_id);
                lemma_place(v.entries, id);
                if v.knows(id) {
                    let k = place_of(v.entries, id) as int;
                    assert(exited(v.entries[k], u.timestamp_ms) == v.entries[k]);
                    assert(v.entries.update(k, v.entries[k]) =~= v.entries);
                }
            },
            None => {},
        }
    }
}

/// Taking in the same record twice changes nothing more than taking it in once: no state
/// changes, no change is counted, and what is known of the fills stays. A position whose exit is
/// not in the record stays as it is altogether; of one that the record closed, the time of the
/// last order about it may become that of its entry.
pub proof fn law_reconciliation_is_idempotent(
    v: PositionsView,
    texts: Map<Seq<char>, Seq<char>>,
    n: nat,
)
    requires
        v.wf(),
    ensures
        ({
            let once = reconciled(v, history(texts, n)).positions;
            let twice = reconciled(once, history(texts, n));
            let exits = exits_in(v, history(texts, n));
            &&& twice.changes == 0
            &&& twice.positions.by_ord_id == once.by_ord_id
            &&& twice.positions.entries.len() == once.entries.len()
            &&& forall|i: int|
                0 <= i < once.entries.len() ==> (#[trigger] twice.positions.entries[i]) == (
                PositionView {
                    last_update_ms: twice.positions.entries[i].last_update_ms,
                    ..once.entries[i]
                })
            &&& forall|i: int|
                0 <= i < once.entries.len() && !has_exit(#[trigger] once.entries[i], exits)
                    ==> twice.positions.entries[i] == once.entries[i]
        }),
{
    let orders = history(texts, n);
    let o1 = without_exits(v, orders);
    let o2 = exits_in(v, orders);
    lemma_names(texts, n);
    lemma_still_named(v, orders);
    let x = entered(v, o1).positions;
    lemma_pass(v, o1);
    let w = left(x, o2).positions;
    lemma_left(x, o2);
    assert forall|i: int| 0 <= i < v.entries.len() implies (#[trigger] w.entries[i]).client_ord_id
        == v.entries[i].client_ord_id by {
        assert(x.entries[i].client_ord_id == v.entries[i].client_ord_id);
    }
    lemma_same_exits(v, w, orders);
    let y = entered(w, o1).positions;
    lemma_pass(w, o1);
    assert forall|i: int| 0 <= i < w.entries.len() implies settled(#[trigger] w.entries[i], o1)
        && y.entries[i] == (PositionView {
        last_update_ms: y.entries[i].last_update_ms,
        ..w.entries[i]
    }) && (!has_exit(w.entries[i], o2) ==> y.entries[i] == w.entries[i]) && (w.entries[i].state
        == PositionState::Open ==> !has_exit(w.entries[i], o2)) by {
        let p = v.entries[i];
        let a = x.entries[i];
        let q = w.entries[i];
        assert(a == folded(p, o1));
        assert(q == shut(a, o2));
        assert(y.entries[i] == folded(q, o1));
        lemma_shut(a, o2);
        lemma_fold_settles(p, o1);
        lemma_fold_keeps(p, o1);
        lemma_fold_keeps(q, o1);
        lemma_fold_overwrites(p, q, o1);
        assert(settled(q, o1)) by {
            assert forall|j: int| 0 <= j < o1.len() implies ((#[trigger] o1[j]) matches Some(u)
                ==> u.client_ord_id == q.client_ord_id ==> next_state(q.state, u.state)
                == q.state) by {}
        }
        lemma_settled_stays(q, o1, o1);
        assert(has_exit(q, o2) == has_exit(a, o2));
    }
    lemma_no_changes(w, o1, o1);
    assert forall|i: int|
        0 <= i < y.entries.len() && (#[trigger] y.entries[i]).state
            == PositionState::Open implies !has_exit(y.entries[i], o2) by {
        assert(w.entries[i].state == PositionState::Open);
        assert(has_exit(y.entries[i], o2) == has_exit(w.entries[i], o2));
    }
    lemma_no_exits(y, o2);
}

/// Orders that are not ours, nor exits of ours, change nothing and are not counted as ours.
pub proof fn law_foreign_orders_are_skipped(
    v: PositionsView,
    orders: Seq<Option<OrderUpdateView>>,
)
    requires
        forall|i: int|
            0 <= i < orders.len() ==> ((#[trigger] orders[i]) matches Some(u) ==> !v.knows(
                u.client_ord_id,
            ) && !is_exit_of(v, u)),
    ensures
        reconciled(v, orders) == (Pass { positions: v, recognized: 0, changes: 0 }),
{
    let o1 = without_exits(v, orders);
    let o2 = exits_in(v, orders);
    assert forall|i: int| 0 <= i < o1.len() implies ((#[trigger] o1[i]) matches Some(u)
        ==> !v.knows(u.client_ord_id)) by {
        assert(orders[i] is Some || orders[i] is None);
    }
    assert forall|i: int| 0 <= i < o2.len() implies (#[trigger] o2[i]) is None by {
        assert(orders[i] is Some || orders[i] is None);
    }
    lemma_unknown_entries(v, o1);
    lemma_nothing_left(v, o2);
}

proof fn lemma_unknown_entries(v: PositionsView, orders: Seq<Option<OrderUpdateView>>)
    requires
        forall|i: int|
            0 <= i < orders.len() ==> ((#[trigger] orders[i]) matches Some(u) ==> !v.knows(
                u.client_ord_id,
            )),
    ensures
        entered(v, orders) == (Pass { positions: v, recognized: 0, changes: 0 }),
    decreases orders.len(),
{
    if orders.len() > 0 {
        let rest = orders.drop_last();
        assert forall|i: int| 0 <= i < rest.len() implies ((#[trigger] rest[i]) matches Some(u)
            ==> !v.knows(u.client_ord_id)) by {
            assert(rest[i] == orders[i]);
        }
        lemma_unknown_entries(v, rest);
        assert(orders.last() == orders[orders.len() - 1]);
    }
}

proof fn lemma_nothing_left(v: PositionsView, exits: Seq<Option<OrderUpdateView>>)
    requires
        forall|i: int| 0 <= i < exits.len() ==> (#[trigger] exits[i]) is None,
    ensures
        left(v, exits) == (Pass { positions: v, recognized: 0, changes: 0 }),
    decreases exits.len(),
{
    if exits.len() > 0 {
        let rest = exits.drop_last();
        assert forall|i: int| 0 <= i < rest.len() implies (#[trigger] rest[i]) is None by {
            assert(rest[i] == exits[i]);
        }
        lemma_nothing_left(v, rest);
        assert(exits.last() == exits[exits.len() - 1]);
    }
}

/// The name of the position that an order is about.
pub open spec fn subject_of(v: PositionsView, u: OrderUpdateView) -> Seq<char> {
    if is_exit_of(v, u) { parent_id(u.client_ord_id) } else { u.client_ord_id }
}

/// Whether no two orders of a record are about the same position.
pub open spec fn one_each(v: PositionsView, orders: Seq<Option<OrderUpdateView>>) -> bool {
    forall|i: int, j: int|
        #![trigger orders[i], orders[j]]
        0 <= i < orders.len() && 0 <= j < orders.len() && i != j ==> match (orders[i], orders[j]) {
            (Some(a), Some(b)) => subject_of(v, a) != subject_of(v, b),
            _ => true,
        }
}

/// In how many places the states of positions differ.
pub open spec fn differing(a: Seq<PositionView>, b: Seq<PositionView>) -> nat
    decreases a.len(),
{
    if a.len() == 0 {
        0
    } else {
        differing(a.drop_last(), b.drop_last()) + (if a.last().state != b.last().state {
            1nat
        } else {
            0nat
        })
    }
}

/// Where no two orders of a record are about the same position, the count of changes is the
/// number of positions whose state is another one than before.
pub proof fn law_changes_are_counted(
    v: PositionsView,
    texts: Map<Seq<char>, Seq<char>>,
    n: nat,
)
    requires
        v.wf(),
        one_each(v, history(texts, n)),
    ensures
        ({
            let pass = reconciled(v, history(texts, n));
            &&& pass.positions.entries.len() == v.entries.len()
            &&& pass.changes == differing(v.entries, pass.positions.entries)
        }),
{
    let orders = history(texts, n);
    let o1 = without_exits(v, orders);
    let o2 = exits_in(v, orders);
    lemma_names(texts, n);
    lemma_still_named(v, orders);
    assert forall|i: int| 0 <= i < o1.len() implies ((#[trigger] o1[i]) matches Some(a) ==> orders[i]
        == Some(a) && subject_of(v, a) == a.client_ord_id) by {}
    assert forall|i: int| 0 <= i < o2.len() implies ((#[trigger] o2[i]) matches Some(a) ==> orders[i]
        == Some(a) && subject_of(v, a) == parent_id(a.client_ord_id)) by {}
    assert forall|i: int, j: int|
        #![trigger o1[i], o1[j]]
        0 <= i < o1.len() && 0 <= j < o1.len() && i != j implies match (o1[i], o1[j]) {
        (Some(a), Some(b)) => a.client_ord_id != b.client_ord_id,
        _ => true,
    } by {
        assert(orders[i] == orders[i] && orders[j] == orders[j]);
    }
    lemma_entered_differs(v, o1);
    lemma_pass(v, o1);
    let x = entered(v, o1).positions;
    assert forall|i: int, j: int|
        #![trigger o2[i], o2[j]]
        0 <= i < o2.len() && 0 <= j < o2.len() && i != j implies match (o2[i], o2[j]) {
        (Some(a), Some(b)) => parent_id(a.client_ord_id) != parent_id(b.client_ord_id),
        _ => true,
    } by {
        assert(orders[i] == orders[i] && orders[j] == orders[j]);
    }
    assert forall|k: int, j: int|
        #![trigger v.entries[k], o2[j]]
        0 <= k < v.entries.len() && 0 <= j < o2.len() implies (o2[j] matches Some(b) ==> parent_id(
        b.client_ord_id,
    ) == v.entries[k].client_ord_id ==> x.entries[k].state == v.entries[k].state) by {
        if let Some(b) = o2[j] {
            if parent_id(b.client_ord_id) == v.entries[k].client_ord_id {
                assert forall|i: int| 0 <= i < o1.len() implies ((#[trigger] o1[i]) matches Some(a)
                    ==> a.client_ord_id != v.entries[k].client_ord_id) by {
                    assert(orders[i] == orders[i] && orders[j] == orders[j]);
                }
                lemma_fold_untouched(v.entries[k], o1);
                assert(x.entries[k] == folded(v.entries[k], o1));
            }
        }
    }
    lemma_left_differs(v, x, o2);
    lemma_left(x, o2);
}

/// Orders about others leave a position.
proof fn lemma_fold_untouched(p: PositionView, orders: Seq<Option<OrderUpdateView>>)
    requires
        forall|i: int|
            0 <= i < orders.len() ==> ((#[trigger] orders[i]) matches Some(u) ==> u.client_ord_id
                != p.client_ord_id),
    ensures
        folded(p, orders) == p,
    decreases orders.len(),
{
    if orders.len() > 0 {
        let rest = orders.drop_last();
        assert forall|i: int| 0 <= i < rest.len() implies ((#[trigger] rest[i]) matches Some(u)
            ==> u.client_ord_id != p.client_ord_id) by {
            assert(rest[i] == orders[i]);
        }
        lemma_fold_untouched(p, rest);
        assert(orders.last() == orders[orders.len() - 1]);
    }
}

proof fn lemma_same_states(a: Seq<PositionView>)
    ensures
        differing(a, a) == 0,
    decreases a.len(),
{
    if a.len() > 0 {
        lemma_same_states(a.drop_last());
    }
}

/// A position that is exchanged counts once, if its state was the same before.
proof fn lemma_differing_update(
    a: Seq<PositionView>,
    b: Seq<PositionView>,
    k: int,
    q: PositionView,
)
    requires
        a.len() == b.len(),
        0 <= k < a.len(),
        b[k].state == a[k].state,
    ensures
        differing(a, b.update(k, q)) == differing(a, b) + (if q.state != a[k].state {
            1nat
        } else {
            0nat
        }),
    decreases a.len(),
{
    let c = b.update(k, q);
    if k == a.len() - 1 {
        assert(c.drop_last() =~= b.drop_last());
    } else {
        lemma_differing_update(a.drop_last(), b.drop_last(), k, q);
        assert(c.drop_last() =~= b.drop_last().update(k, q));
    }
}

proof fn lemma_entered_differs(v: PositionsView, orders: Seq<Option<OrderUpdateView>>)
    requires
        v.wf(),
        named(orders),
        forall|i: int, j: int|
            #![trigger orders[i], orders[j]]
            0 <= i < orders.len() && 0 <= j < orders.len() && i != j ==> match (
                orders[i],
                orders[j],
            ) {
                (Some(a), Some(b)) => a.client_ord_id != b.client_ord_id,
                _ => true,
            },
    ensures
        entered(v, orders).changes == differing(v.entries, entered(v, orders).positions.entries),
    decreases orders.len(),
{
    if orders.len() == 0 {
        lemma_same_states(v.entries);
    } else {
        let rest = orders.drop_last();
        let last = orders.len() - 1;
        lemma_named_part(orders, last);
        assert(orders.take(last) =~= rest);
        assert forall|i: int, j: int|
            #![trigger rest[i], rest[j]]
            0 <= i < rest.len() && 0 <= j < rest.len() && i != j implies match (rest[i], rest[j]) {
            (Some(a), Some(b)) => a.client_ord_id != b.client_ord_id,
            _ => true,
        } by {
            assert(rest[i] == orders[i] && rest[j] == orders[j]);
        }
        lemma_entered_differs(v, rest);
        lemma_pass(v, rest);
        let b = entered(v, rest).positions;
        match orders.last() {
            Some(u) => {
                let id = u.client_ord_id;
                assert(orders[last] == Some(u));
                if b.knows(id) {
                    lemma_place(b.entries, id);
                    let k = place_of(b.entries, id) as int;
                    assert(b.entries[k].client_ord_id == v.entries[k].client_ord_id);
                    assert forall|i: int| 0 <= i < rest.len() implies ((
                    #[trigger] rest[i]) matches Some(a) ==> a.client_ord_id
                        != v.entries[k].client_ord_id) by {
                        assert(rest[i] == orders[i]);
                        assert(orders[last] == orders[last]);
                    }
                    lemma_fold_untouched(v.entries[k], rest);
                    let q = updated(b.entries[k], u);
                    assert(b.after(u) == b.put(q));
                    lemma_put_places(b, q, id);
                    lemma_differing_update(v.entries, b.entries, k, q);
                }
            },
            None => {},
        }
    }
}

proof fn lemma_left_differs(
    v: PositionsView,
    x: PositionsView,
    exits: Seq<Option<OrderUpdateView>>,
)
    requires
        x.wf(),
        same_ids(v, x),
        forall|i: int, j: int|
            #![trigger exits[i], exits[j]]
            0 <= i < exits.len() && 0 <= j < exits.len() && i != j ==> match (exits[i], exits[j]) {
                (Some(a), Some(b)) => parent_id(a.client_ord_id) != parent_id(b.client_ord_id),
                _ => true,
            },
        forall|k: int, j: int|
            #![trigger v.entries[k], exits[j]]
            0 <= k < v.entries.len() && 0 <= j < exits.len() ==> (exits[j] matches Some(b)
                ==> parent_id(b.client_ord_id) == v.entries[k].client_ord_id ==> x.entries[k].state
                == v.entries[k].state),
    ensures
        differing(v.entries, left(x, exits).positions.entries) == differing(v.entries, x.entries)
            + left(x, exits).changes,
    decreases exits.len(),
{
    if exits.len() > 0 {
        let rest = exits.drop_last();
        let last = exits.len() - 1;
        assert forall|i: int, j: int|
            #![trigger rest[i], rest[j]]
            0 <= i < rest.len() && 0 <= j < rest.len() && i != j implies match (rest[i], rest[j]) {
            (Some(a), Some(b)) => parent_id(a.client_ord_id) != parent_id(b.client_ord_id),
            _ => true,
        } by {
            assert(rest[i] == exits[i] && rest[j] == exits[j]);
        }
        assert forall|k: int, j: int|
            #![trigger v.entries[k], rest[j]]
            0 <= k < v.entries.len() && 0 <= j < rest.len() implies (rest[j] matches Some(b)
            ==> parent_id(b.client_ord_id) == v.entries[k].client_ord_id ==> x.entries[k].state
            == v.entries[k].state) by {
            assert(rest[j] == exits[j]);
        }
        lemma_left_differs(v, x, rest);
        lemma_left(x, rest);
        let b = left(x, rest).positions;
        match exits.last() {
            Some(u) => {
                let id = parent_id(u.client_ord_id);
                assert(exits[last] == Some(u));
                if b.knows(id) {
                    lemma_place(b.entries, id);
                    let k = place_of(b.entries, id) as int;
                    let p = x.entries[k];
                    assert(b.entries[k].client_ord_id == p.client_ord_id);
                    assert(p.client_ord_id == v.entries[k].client_ord_id);
                    assert(!has_exit(p, rest)) by {
                        if has_exit(p, rest) {
                            let j = choose|j: int|
                                0 <= j < rest.len() && ((#[trigger] rest[j]) matches Some(a)
                                    && parent_id(a.client_ord_id) == p.client_ord_id);
                            assert(rest[j] == exits[j]);
                            assert(exits[last] == exits[last]);
                        }
                    }
                    lemma_shut(p, rest);
                    let q = exited(b.entries[k], u.timestamp_ms);
                    lemma_put_places(b, q, id);
                    lemma_differing_update(v.entries, b.entries, k, q);
                }
            },
            None => {},
        }
    }
}

/// An open position whose exit is in a record is closed by that record.
pub proof fn law_missed_exits_close(
    v: PositionsView,
    texts: Map<Seq<char>, Seq<char>>,
    n: nat,
    i: int,
    u: OrderUpdateView,
)
    requires
        v.wf(),
        0 <= i < n,
        history(texts, n)[i] == Some(u),
        is_exit_of(v, u),
        state_of(v, parent_id(u.client_ord_id)) == Some(PositionState::Open),
    ensures
        state_of(reconciled(v, history(texts, n)).positions, parent_id(u.client_ord_id)) == Some(
            PositionState::Closed,
        ),
{
    let orders = history(texts, n);
    let o1 = without_exits(v, orders);
    let o2 = exits_in(v, orders);
    let id = parent_id(u.client_ord_id);
    lemma_names(texts, n);
    lemma_still_named(v, orders);
    lemma_pass(v, o1);
    let x = entered(v, o1).positions;
    lemma_left(x, o2);
    let w = left(x, o2).positions;
    lemma_place(v.entries, id);
    lemma_same_names(v, x, id);
    lemma_same_names(x, w, id);
    let k = place_of(v.entries, id) as int;
    let p = v.entries[k];
    lemma_fold_keeps(p, o1);
    lemma_fold_stays_open(p, o1);
    assert(o2[i] == Some(u));
    assert(has_exit(x.entries[k], o2));
    lemma_shut(x.entries[k], o2);
    assert(w.entries[k] == shut(x.entries[k], o2));
}

proof fn lemma_fold_stays_open(p: PositionView, orders: Seq<Option<OrderUpdateView>>)
    requires
        p.state == PositionState::Open,
    ensures
        folded(p, orders).state == PositionState::Open,
    decreases orders.len(),
{
    if orders.len() > 0 {
        lemma_fold_stays_open(p, orders.drop_last());
    }
}

} // verus!
