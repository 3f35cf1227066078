//! What the events of the exchange do to the registry of positions.

use crate::abc_brc::PatternDirection;
use crate::candle::Timeframe;
use crate::position::active_of;
use crate::position::count_in;
use crate::position::index_place;
use crate::position::lemma_place;
use crate::position::pending_of;
use crate::position::place_of;
use crate::position::OrderUpdateView;
use crate::position::PositionState;
use crate::position::PositionView;
use crate::position::PositionsView;
use crate::risk::EntryZone;
use crate::risk::TradeSignal;
use vstd::prelude::*;

verus! {

/// Whether one registry is another with the position of one id changed, and nothing else.
pub open spec fn only_differs_at(v: PositionsView, w: PositionsView, id: Seq<char>) -> bool {
    &&& w.by_ord_id == v.by_ord_id
    &&& w.entries.len() == v.entries.len()
    &&& forall|i: int|
        0 <= i < v.entries.len() && (#[trigger] v.entries[i]).client_ord_id != id ==> w.entries[i]
            == v.entries[i]
    &&& forall|i: int|
        0 <= i < v.entries.len() ==> (#[trigger] w.entries[i]).client_ord_id
            == v.entries[i].client_ord_id
}

/// A position after an order event: a pending entry opens when its order is filled and ends when it
/// is canceled; every other event, a partial fill among them, and every event about a position that
/// is not pending leaves the state. What the event says of fills is taken over, and the rest stays.
pub open spec fn heard(p: PositionView, q: PositionView, u: OrderUpdateView) -> bool {
    &&& q == (PositionView {
        state: q.state,
        fill_price: q.fill_price,
        filled_size: q.filled_size,
        last_update_ms: q.last_update_ms,
        ..p
    })
    &&& p.state is Pending && u.state == "filled"@ ==> q.state is Open
    &&& p.state is Pending && u.state == "canceled"@ ==> q.state is Canceled
    &&& p.state is Pending && u.state != "filled"@ && u.state != "canceled"@ ==> q.state is Pending
    &&& p.state !is Pending ==> q.state == p.state
    &&& u.fill_price is Some ==> q.fill_price == u.fill_price
    &&& u.fill_price is None ==> q.fill_price == p.fill_price
    &&& u.acc_fill_size matches Some(n) ==> q.filled_size == n
    &&& u.acc_fill_size is None ==> q.filled_size == p.filled_size
    &&& q.last_update_ms == u.timestamp_ms
}

proof fn lemma_names_differ()
    ensures
        "filled"@ != "canceled"@,
{
    reveal_strlit("filled");
    reveal_strlit("canceled");
    assert("filled"@.len() != "canceled"@.len());
}

/// An order event with a name of ours changes the position of that name and no other. One without a
/// name goes by the exchange's number of the order. One about an order that is not ours changes
/// nothing.
pub proof fn law_order_events(v: PositionsView, u: OrderUpdateView, k: int)
    requires
        v.wf(),
        0 <= k < v.entries.len(),
    ensures
        u.client_ord_id == v.entries[k].client_ord_id && u.client_ord_id.len() > 0 ==> {
            &&& only_differs_at(v, v.after(u), u.client_ord_id)
            &&& heard(v.entries[k], v.after(u).entries[k], u)
        },
        u.client_ord_id.len() == 0 && (exists|i: int|
            0 <= i < v.by_ord_id.len() && #[trigger] v.by_ord_id[i] == (
                u.ord_id,
                v.entries[k].client_ord_id,
            )) ==> {
            &&& only_differs_at(v, v.after(u), v.entries[k].client_ord_id)
            &&& heard(v.entries[k], v.after(u).entries[k], u)
        },
{
    lemma_names_differ();
    let id = v.entries[k].client_ord_id;
    lemma_place(v.entries, id);
    let i = place_of(v.entries, id) as int;
    assert(i < v.entries.len() ==> i == k) by {
        if i < v.entries.len() && i != k {
            assert(v.entries[i].client_ord_id == v.entries[k].client_ord_id);
        }
    }
    if i >= v.entries.len() {
        assert(v.entries[k].client_ord_id != id);
    }
    if u.client_ord_id.len() == 0 && exists|i: int|
        0 <= i < v.by_ord_id.len() && #[trigger] v.by_ord_id[i] == (u.ord_id, id) {
        let n = choose|n: int|
            0 <= n < v.by_ord_id.len() && #[trigger] v.by_ord_id[n] == (u.ord_id, id);
        lemma_index(v.by_ord_id, u.ord_id);
        let m = index_place(v.by_ord_id, u.ord_id) as int;
        assert(v.by_ord_id[n].0 == u.ord_id);
        assert(m < v.by_ord_id.len());
        if m != n {
            assert(v.by_ord_id[m].0 == v.by_ord_id[n].0);
        }
    }
}

/// The place of a number holds that number, and no earlier place does.
proof fn lemma_index(pairs: Seq<(Seq<char>, Seq<char>)>, ord_id: Seq<char>)
    ensures
        index_place(pairs, ord_id) <= pairs.len(),
        index_place(pairs, ord_id) < pairs.len() ==> pairs[index_place(pairs, ord_id) as int].0
            == ord_id,
        forall|j: int| 0 <= j < index_place(pairs, ord_id) ==> (#[trigger] pairs[j]).0 != ord_id,
    decreases pairs.len(),
{
    if pairs.len() > 0 && pairs[0].0 != ord_id {
        lemma_index(pairs.skip(1), ord_id);
        assert forall|j: int| 0 <= j < index_place(pairs, ord_id) implies (#[trigger] pairs[j]).0
            != ord_id by {
            if j > 0 {
                assert(pairs.skip(1)[j - 1] == pairs[j]);
            }
        }
    }
}

/// Events about orders that are not ours change nothing.
pub proof fn law_unknown_orders(v: PositionsView, u: OrderUpdateView)
    requires
        u.client_ord_id.len() > 0,
        forall|i: int|
            0 <= i < v.entries.len() ==> (#[trigger] v.entries[i]).client_ord_id != u.client_ord_id,
    ensures
        v.after(u) == v,
        !v.knows(u.client_ord_id),
        v.get(u.client_ord_id) is None,
{
    lemma_place(v.entries, u.client_ord_id);
}

/// Events without a name, about a number that is not in the index, change nothing.
pub proof fn law_unknown_numbers(v: PositionsView, u: OrderUpdateView)
    requires
        u.client_ord_id.len() == 0,
        forall|i: int| 0 <= i < v.by_ord_id.len() ==> (#[trigger] v.by_ord_id[i]).0 != u.ord_id,
    ensures
        v.after(u) == v,
{
    lemma_index(v.by_ord_id, u.ord_id);
}

/// What the fill of an exit does: it closes the position of its name where that is open, at the time
/// of the fill, and changes nothing else.
pub proof fn law_exits_close(v: PositionsView, now_ms: u64, k: int)
    requires
        v.wf(),
        0 <= k < v.entries.len(),
    ensures
        ({
            let p = v.entries[k];
            let w = v.closed(p.client_ord_id, now_ms);
            &&& only_differs_at(v, w, p.client_ord_id)
            &&& p.state is Open ==> w.entries[k] == (PositionView {
                state: PositionState::Closed,
                last_update_ms: now_ms,
                ..p
            })
            &&& p.state !is Open ==> w.entries[k] == p
        }),
{
    let id = v.entries[k].client_ord_id;
    lemma_place(v.entries, id);
    let i = place_of(v.entries, id) as int;
    if i < v.entries.len() && i != k {
        assert(v.entries[i].client_ord_id == v.entries[k].client_ord_id);
    }
    if i >= v.entries.len() {
        assert(v.entries[k].client_ord_id != id);
    }
}

/// A position is found by its name, and by no other.
pub proof fn law_positions_are_found(v: PositionsView, k: int)
    requires
        v.wf(),
        0 <= k < v.entries.len(),
    ensures
        v.knows(v.entries[k].client_ord_id),
        v.get(v.entries[k].client_ord_id) == Some(v.entries[k]),
{
    let id = v.entries[k].client_ord_id;
    lemma_place(v.entries, id);
    let i = place_of(v.entries, id) as int;
    if i < v.entries.len() && i != k {
        assert(v.entries[i].client_ord_id == v.entries[k].client_ord_id);
    }
    if i >= v.entries.len() {
        assert(v.entries[k].client_ord_id != id);
    }
}

/// A new entry is pending, with the prices and the size of its signal and nothing filled. It takes
/// the place of the one with its name, or a new one behind all others.
pub proof fn law_submissions(
    v: PositionsView,
    signal: TradeSignal,
    id: Seq<char>,
    ord_id: Option<Seq<char>>,
    now_ms: u64,
)
    requires
        v.wf(),
    ensures
        ({
            let p = pending_of(signal, id, ord_id, now_ms);
            let w = v.put(p);
            &&& p.state is Pending
            &&& p.client_ord_id == id
            &&& p.entry_ord_id == ord_id
            &&& p.direction == signal.direction
            &&& p.timeframe == signal.timeframe
            &&& p.entry_zone == signal.entry_zone
            &&& p.contracts == signal.contracts
            &&& p.entry_price == signal.entry_price
            &&& p.stop_price == signal.stop_price
            &&& p.target_price == signal.target_price
            &&& p.fill_price is None
            &&& p.filled_size == 0
            &&& p.submitted_at_ms == now_ms
            &&& p.last_update_ms == now_ms
            &&& w.get(id) == Some(p)
            &&& w.by_ord_id == v.by_ord_id
            &&& v.get(id) is None ==> w.entries == v.entries.push(p)
            &&& v.get(id) is Some ==> only_differs_at(v, w, id)
        }),
{
    let p = pending_of(signal, id, ord_id, now_ms);
    let w = v.put(p);
    lemma_place(v.entries, id);
    lemma_place(w.entries, id);
    let i = place_of(v.entries, id) as int;
    let j = place_of(w.entries, id) as int;
    if i < v.entries.len() {
        assert(w.entries[i] == p);
    } else {
        assert(w.entries.last() == p);
        assert(w.entries[v.entries.len() as int] == p);
    }
    assert(w.entries[i].client_ord_id == id);
    assert(j <= i);
    if j < i {
        assert(w.entries[j] == v.entries[j]);
    }
}

/// The exchange's number of an order leads to the name that was given last for it, and to the names
/// of other orders as before.
pub proof fn law_numbers_lead_to_names(
    v: PositionsView,
    ord_id: Seq<char>,
    id: Seq<char>,
    u: OrderUpdateView,
)
    requires
        v.wf(),
        u.client_ord_id.len() == 0,
    ensures
        v.indexed(ord_id, id).entries == v.entries,
        u.ord_id == ord_id ==> v.indexed(ord_id, id).subject(u) == Some(id),
        u.ord_id != ord_id ==> v.indexed(ord_id, id).subject(u) == v.subject(u),
{
    let w = v.indexed(ord_id, id);
    lemma_index(v.by_ord_id, ord_id);
    lemma_index(v.by_ord_id, u.ord_id);
    lemma_index(w.by_ord_id, u.ord_id);
    let i = index_place(v.by_ord_id, ord_id) as int;
    let a = index_place(v.by_ord_id, u.ord_id) as int;
    let b = index_place(w.by_ord_id, u.ord_id) as int;
    assert(w.by_ord_id[i] == (ord_id, id));
    if u.ord_id == ord_id {
        assert(w.by_ord_id[i].0 == u.ord_id);
        assert(b <= i);
        if b < i {
            assert(w.by_ord_id[b] == v.by_ord_id[b]);
        }
    } else {
        if a < v.by_ord_id.len() {
            assert(w.by_ord_id[a] == v.by_ord_id[a]);
            assert(w.by_ord_id[a].0 == u.ord_id);
        }
        if b < w.by_ord_id.len() {
            assert(b != i);
            assert(w.by_ord_id[b] == v.by_ord_id[b]);
            assert(v.by_ord_id[b].0 == u.ord_id);
        }
    }
}

/// An event goes by its own name where it has one.
pub proof fn law_names_come_first(v: PositionsView, u: OrderUpdateView)
    requires
        u.client_ord_id.len() > 0,
    ensures
        v.subject(u) == Some(u.client_ord_id),
{
}

/// Sniper entries are let in exactly while a golden entry of the timeframe and direction is
/// open; an entry stands in the way of another while it is pending or open.
pub proof fn law_sniper_entries_of_the_registry(
    v: PositionsView,
    timeframe: Timeframe,
    direction: PatternDirection,
    zone: EntryZone,
)
    ensures
        v.open_golden(timeframe, direction) <==> exists|i: int|
            0 <= i < v.entries.len() && ({
                let p = #[trigger] v.entries[i];
                &&& p.state is Open
                &&& p.timeframe == timeframe
                &&& p.direction == direction
                &&& p.entry_zone is Golden
            }),
        v.active_entry(timeframe, direction, zone) <==> exists|i: int|
            0 <= i < v.entries.len() && ({
                let p = #[trigger] v.entries[i];
                &&& p.state is Pending || p.state is Open
                &&& p.timeframe == timeframe
                &&& p.direction == direction
                &&& p.entry_zone == zone
            }),
{
}

/// The active positions are those that are pending or open, and the counts are those of the states.
pub proof fn law_lists_of_positions(entries: Seq<PositionView>, state: PositionState)
    ensures
        active_of(entries) == entries.filter(
            |p: PositionView| p.state is Pending || p.state is Open,
        ),
        count_in(entries, state) == entries.filter(|p: PositionView| p.state == state).len(),
    decreases entries.len(),
{
    reveal(Seq::filter);
    if entries.len() > 0 {
        law_lists_of_positions(entries.drop_last(), state);
    }
}

} // verus!
