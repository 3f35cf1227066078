//! The recorded files: which there are, in which order they are read, and what their columns
//! say.

use crate::fixed::pow10;
use crate::ladder::BookSnapshot;
use crate::number::Real;
use crate::persistence::book_table;
use crate::persistence::file_name_of;
use crate::persistence::lemma_padded_differs;
use crate::persistence::level_values;
use crate::persistence::tick_table;
use crate::persistence::BookRow;
use crate::persistence::Column;
use crate::persistence::ColumnView;
use crate::persistence::Ladder;
use crate::persistence::TickRow;
use crate::text::chars_of;
use crate::text::digit_char;
use crate::text::padded;
use crate::text::texts_of;
use crate::ws_types::TradeUpdate;
use vstd::prelude::*;
use vstd::seq_lib::to_multiset_build;
use vstd::seq_lib::to_multiset_insert;
use vstd::string::*;

verus! {

/// Whether a text comes before another one or is the same, character by character.
pub open spec fn text_le(a: Seq<char>, b: Seq<char>) -> bool
    decreases a.len(),
{
    if a.len() == 0 {
        true
    } else if b.len() == 0 {
        false
    } else if a[0] != b[0] {
        a[0] < b[0]
    } else {
        text_le(a.skip(1), b.skip(1))
    }
}

/// Whether texts are in order.
pub open spec fn in_order(s: Seq<Seq<char>>) -> bool {
    forall|i: int, j: int|
        0 <= i < j < s.len() ==> text_le(#[trigger] s[i], #[trigger] s[j])
}

/// Whether a text occurs in another one.
pub open spec fn occurs(part: Seq<char>, s: Seq<char>) -> bool {
    exists|i: int|
        0 <= i <= s.len() - part.len() && #[trigger] s.subrange(i, i + part.len()) == part
}

/// Whether a text ends in another one.
pub open spec fn ends_in(s: Seq<char>, end: Seq<char>) -> bool {
    s.len() >= end.len() && s.skip(s.len() - end.len()) == end
}

/// Whether a name is that of a recorded file with a mark.
pub open spec fn is_recorded(name: Seq<char>, mark: Seq<char>) -> bool {
    ends_in(name, ".parquet"@) && occurs(mark, name)
}

/// The names with a mark among some names.
pub open spec fn recorded(names: Seq<String>, mark: Seq<char>) -> Seq<Seq<char>>
    decreases names.len(),
{
    if names.len() == 0 {
        Seq::empty()
    } else {
        let rest = recorded(names.drop_last(), mark);
        if is_recorded(names.last()@, mark) { rest.push(names.last()@) } else { rest }
    }
}

proof fn lemma_le_reflexive(a: Seq<char>)
    ensures
        text_le(a, a),
    decreases a.len(),
{
    if a.len() > 0 {
        lemma_le_reflexive(a.skip(1));
    }
}

proof fn lemma_le_total(a: Seq<char>, b: Seq<char>)
    ensures
        text_le(a, b) || text_le(b, a),
    decreases a.len(),
{
    if a.len() > 0 && b.len() > 0 {
        lemma_le_total(a.skip(1), b.skip(1));
    }
}

proof fn lemma_le_transitive(a: Seq<char>, b: Seq<char>, c: Seq<char>)
    requires
        text_le(a, b),
        text_le(b, c),
    ensures
        text_le(a, c),
    decreases a.len(),
{
    if a.len() > 0 && b.len() > 0 && c.len() > 0 {
        if a[0] == b[0] && b[0] == c[0] {
            lemma_le_transitive(a.skip(1), b.skip(1), c.skip(1));
        }
    }
}

/// Whether a text comes before another one or is the same.
fn le_from(a: &Vec<char>, b: &Vec<char>, i: usize) -> (r: bool)
    requires
        i <= a@.len(),
        i <= b@.len(),
    ensures
        r == text_le(a@.skip(i as int), b@.skip(i as int)),
    decreases a@.len() - i,
{
    if i == a.len() {
        true
    } else if i == b.len() {
        false
    } else if a[i] != b[i] {
        a[i] < b[i]
    } else {
        assert(a@.skip(i as int).skip(1) =~= a@.skip(i + 1));
        assert(b@.skip(i as int).skip(1) =~= b@.skip(i + 1));
        le_from(a, b, i + 1)
    }
}

/// Whether a text comes before another one or is the same.
fn comes_first(a: &str, b: &str) -> (r: bool)
    ensures
        r == text_le(a@, b@),
{
    assert(a@.skip(0) =~= a@);
    assert(b@.skip(0) =~= b@);
    le_from(&chars_of(a), &chars_of(b), 0)
}

/// Whether a text stands at a place in another one.
fn stands_at(part: &Vec<char>, s: &Vec<char>, at: usize) -> (r: bool)
    requires
        at + part@.len() <= s@.len(),
    ensures
        r == (s@.subrange(at as int, at + part@.len()) == part@),
{
    let n: usize = s.len();
    let mut i: usize = 0;
    while i < part.len()
        invariant
            i <= part@.len(),
            n == s@.len(),
            at + part@.len() <= n,
            forall|k: int| 0 <= k < i ==> s@[at + k] == part@[k],
        decreases part@.len() - i,
    {
        if s[at + i] != part[i] {
            proof {
                let cut = s@.subrange(at as int, at + part@.len());
                assert(cut[i as int] == s@[at + i]);
            }
            return false;
        }
        i = i + 1;
    }
    assert(s@.subrange(at as int, at + part@.len()) =~= part@);
    true
}

/// Whether a name is that of a recorded file with a mark.
fn test_name(name: &str, mark: &str) -> (r: bool)
    ensures
        r == is_recorded(name@, mark@),
{
    let s = chars_of(name);
    let part = chars_of(mark);
    let end = chars_of(".parquet");
    if s.len() < end.len() {
        return false;
    }
    let tail: usize = s.len() - end.len();
    assert(s@.subrange(tail as int, tail + end@.len()) =~= s@.skip(tail as int));
    if !stands_at(&end, &s, tail) {
        return false;
    }
    if part.len() > s.len() {
        return false;
    }
    let last: usize = s.len() - part.len();
    let mut i: usize = 0;
    while i < last
        invariant
            i <= last,
            last == s@.len() - part@.len(),
            s@ == name@,
            part@ == mark@,
            ends_in(name@, ".parquet"@),
            forall|k: int|
                0 <= k < i ==> #[trigger] s@.subrange(k, k + part@.len()) != part@,
        decreases last - i,
    {
        if stands_at(&part, &s, i) {
            return true;
        }
        i = i + 1;
    }
    stands_at(&part, &s, last)
}

/// Puts a name among others in their order.
fn put_in_order(names: &mut Vec<String>, name: String)
    requires
        in_order(texts_of(old(names)@)),
    ensures
        in_order(texts_of(final(names)@)),
        texts_of(final(names)@).to_multiset() == texts_of(old(names)@).to_multiset().insert(name@),
{
    let ghost before = texts_of(names@);
    let ghost x = name@;
    let n: usize = names.len();
    let mut i: usize = 0;
    while i < n && comes_first(names[i].as_str(), name.as_str())
        invariant
            i <= n,
            n == names@.len(),
            before == texts_of(names@),
            x == name@,
            forall|k: int| 0 <= k < i ==> text_le(#[trigger] before[k], x),
        decreases n - i,
    {
        i = i + 1;
    }
    names.insert(i, name);
    proof {
        let after = texts_of(names@);
        assert(after =~= before.insert(i as int, x));
        to_multiset_insert(before, i as int, x);
        if i < n {
            lemma_le_total(before[i as int], x);
        }
        assert forall|j: int, k: int| 0 <= j < k < after.len() implies text_le(
            #[trigger] after[j],
            #[trigger] after[k],
        ) by {
            if k < i {
                assert(after[j] == before[j] && after[k] == before[k]);
            } else if k == i {
                assert(after[j] == before[j]);
            } else if j < i {
                assert(after[j] == before[j] && after[k] == before[k - 1]);
            } else if j == i {
                assert(after[k] == before[k - 1]);
                if k - 1 > i {
                    assert(text_le(before[i as int], before[k - 1]));
                    lemma_le_transitive(x, before[i as int], before[k - 1]);
                }
            } else {
                assert(after[j] == before[j - 1] && after[k] == before[k - 1]);
            }
        }
    }
}

/// The names with a mark among some names, in order.
fn discover(names: &Vec<String>, mark: &str) -> (r: Vec<String>)
    ensures
        in_order(texts_of(r@)),
        texts_of(r@).to_multiset() == recorded(names@, mark@).to_multiset(),
{
    let mut r: Vec<String> = Vec::new();
    let mut i: usize = 0;
    assert(texts_of(r@) =~= Seq::<Seq<char>>::empty());
    assert(recorded(names@.take(0), mark@) =~= Seq::<Seq<char>>::empty());
    while i < names.len()
        invariant
            i <= names@.len(),
            in_order(texts_of(r@)),
            texts_of(r@).to_multiset() == recorded(names@.take(i as int), mark@).to_multiset(),
        decreases names@.len() - i,
    {
        proof {
            let next = names@.take(i + 1);
            assert(next.drop_last() =~= names@.take(i as int));
            assert(next.last() == names@[i as int]);
            to_multiset_build(recorded(names@.take(i as int), mark@), names@[i as int]@);
        }
        if test_name(names[i].as_str(), mark) {
            put_in_order(&mut r, names[i].clone());
        }
        i = i + 1;
    }
    assert(names@.take(i as int) =~= names@);
    r
}

/// The trade files among the files of a directory, in the order in which they are read.
pub fn discover_trade_files(names: &Vec<String>) -> (r: Vec<String>)
    ensures
        in_order(texts_of(r@)),
        texts_of(r@).to_multiset() == recorded(names@, "_trades_"@).to_multiset(),
{
    discover(names, "_trades_")
}

/// The book files among the files of a directory, in the order in which they are read.
pub fn discover_book_files(names: &Vec<String>) -> (r: Vec<String>)
    ensures
        in_order(texts_of(r@)),
        texts_of(r@).to_multiset() == recorded(names@, "_books_"@).to_multiset(),
{
    discover(names, "_books_")
}

/// The contents of the columns of a batch. A column of another kind than these has none.
pub open spec fn batch_of(columns: Seq<Option<Column>>) -> Seq<Option<ColumnView>> {
    Seq::new(
        columns.len(),
        |i: int|
            match columns[i] {
                Some(c) => Some(c@),
                None => None,
            },
    )
}

/// The number of rows of a column.
pub open spec fn height(c: ColumnView) -> nat {
    match c {
        ColumnView::Integers(v) => v.len(),
        ColumnView::Numbers(v) => v.len(),
        ColumnView::Texts(v) => v.len(),
    }
}

/// Whether a batch has at least `n` columns, all of one height.
pub open spec fn even(columns: Seq<Option<ColumnView>>, n: nat) -> bool {
    &&& columns.len() >= n
    &&& forall|i: int, j: int|
        0 <= i < columns.len() && 0 <= j < columns.len() ==> ((#[trigger] columns[i]) matches Some(a)
            ==> (#[trigger] columns[j]) matches Some(b) ==> height(a) == height(b))
}

/// The trades of a batch, or what is wrong with its columns.
pub open spec fn trade_rows(columns: Seq<Option<ColumnView>>) -> Result<Seq<TickRow>, Seq<char>> {
    match columns[0] {
        Some(ColumnView::Integers(ts)) => match columns[1] {
            Some(ColumnView::Numbers(px)) => match columns[2] {
                Some(ColumnView::Numbers(sz)) => match columns[3] {
                    Some(ColumnView::Texts(side)) => match columns[4] {
                        Some(ColumnView::Texts(inst)) => Ok(
                            Seq::new(
                                ts.len(),
                                |i: int|
                                    TickRow {
                                        timestamp_ms: ts[i],
                                        price: px[i],
                                        size: sz[i],
                                        side: side[i],
                                        inst_id: inst[i],
                                    },
                            ),
                        ),
                        _ => Err("inst_id column not Utf8"@),
                    },
                    _ => Err("side column not Utf8"@),
                },
                _ => Err("size column not Float64"@),
            },
            _ => Err("price column not Float64"@),
        },
        _ => Err("timestamp_ms column not UInt64"@),
    }
}

/// The trades of a file, batch after batch, or what is wrong with the first batch that cannot be
/// read.
pub open spec fn file_trades(batches: Seq<Vec<Option<Column>>>) -> Result<Seq<TickRow>, Seq<char>>
    decreases batches.len(),
{
    if batches.len() == 0 {
        Ok(Seq::empty())
    } else {
        match file_trades(batches.drop_last()) {
            Ok(rows) => match trade_rows(batch_of(batches.last()@)) {
                Ok(more) => Ok(rows + more),
                Err(e) => Err(e),
            },
            Err(e) => Err(e),
        }
    }
}

/// A trade as it was recorded.
pub open spec fn trade_row(t: TradeUpdate) -> TickRow {
    TickRow {
        timestamp_ms: t.timestamp_ms,
        price: t.price,
        size: t.size,
        side: t.side@,
        inst_id: t.inst_id@,
    }
}

/// Trades as they were recorded.
pub open spec fn rows_of_trades(trades: Seq<TradeUpdate>) -> Seq<TickRow> {
    Seq::new(trades.len(), |i: int| trade_row(trades[i]))
}

/// Appends the trades of a batch.
fn read_trades(columns: &Vec<Option<Column>>, out: &mut Vec<TradeUpdate>) -> (r: Result<(), String>)
    requires
        even(batch_of(columns@), 5),
    ensures
        match (r, trade_rows(batch_of(columns@))) {
            (Ok(_), Ok(rows)) => rows_of_trades(final(out)@) == rows_of_trades(old(out)@) + rows,
            (Err(e), Err(f)) => e@ == f,
            _ => false,
        },
{
    let ghost batch = batch_of(columns@);
    let ghost before = rows_of_trades(out@);
    let ts = match &columns[0] {
        Some(Column::Integers(v)) => v,
        _ => {
            return Err("timestamp_ms column not UInt64".to_owned());
        },
    };
    let px = match &columns[1] {
        Some(Column::Numbers(v)) => v,
        _ => {
            return Err("price column not Float64".to_owned());
        },
    };
    let sz = match &columns[2] {
        Some(Column::Numbers(v)) => v,
        _ => {
            return Err("size column not Float64".to_owned());
        },
    };
    let side = match &columns[3] {
        Some(Column::Texts(v)) => v,
        _ => {
            return Err("side column not Utf8".to_owned());
        },
    };
    let inst = match &columns[4] {
        Some(Column::Texts(v)) => v,
        _ => {
            return Err("inst_id column not Utf8".to_owned());
        },
    };
    proof {
        assert(batch[0] == Some(ColumnView::Integers(ts@)));
        assert(batch[1] == Some(ColumnView::Numbers(px@)));
        assert(batch[2] == Some(ColumnView::Numbers(sz@)));
        assert(batch[3] == Some(ColumnView::Texts(texts_of(side@))));
        assert(batch[4] == Some(ColumnView::Texts(texts_of(inst@))));
        assert(height(batch[0].unwrap()) == height(batch[1].unwrap()));
        assert(height(batch[0].unwrap()) == height(batch[2].unwrap()));
        assert(height(batch[0].unwrap()) == height(batch[3].unwrap()));
        assert(height(batch[0].unwrap()) == height(batch[4].unwrap()));
    }
    let ghost rows = trade_rows(batch)->Ok_0;
    let mut i: usize = 0;
    while i < ts.len()
        invariant
            i <= ts@.len(),
            px@.len() == ts@.len(),
            sz@.len() == ts@.len(),
            side@.len() == ts@.len(),
            inst@.len() == ts@.len(),
            rows.len() == ts@.len(),
            forall|k: int|
                0 <= k < rows.len() ==> #[trigger] rows[k] == (TickRow {
                    timestamp_ms: ts@[k],
                    price: px@[k],
                    size: sz@[k],
                    side: side@[k]@,
                    inst_id: inst@[k]@,
                }),
            rows_of_trades(out@) == before + rows.take(i as int),
        decreases ts@.len() - i,
    {
        let ghost so_far = out@;
        out.push(
            TradeUpdate {
                inst_id: inst[i].clone(),
                price: px[i],
                size: sz[i],
                side: side[i].clone(),
                timestamp_ms: ts[i],
            },
        );
        proof {
            assert(rows.take(i + 1) =~= rows.take(i as int).push(rows[i as int]));
            assert(rows_of_trades(out@) =~= rows_of_trades(so_far).push(rows[i as int]));
        }
        i = i + 1;
    }
    assert(rows.take(i as int) =~= rows);
    Ok(())
}

/// The trades of a file, from the columns of its batches.
pub fn read_trade_file(batches: &Vec<Vec<Option<Column>>>) -> (r: Result<Vec<TradeUpdate>, String>)
    requires
        forall|i: int|
            0 <= i < batches@.len() ==> even(batch_of((#[trigger] batches@[i])@), 5),
    ensures
        match (r, file_trades(batches@)) {
            (Ok(trades), Ok(rows)) => rows_of_trades(trades@) == rows,
            (Err(e), Err(f)) => e@ == f,
            _ => false,
        },
{
    let mut out: Vec<TradeUpdate> = Vec::new();
    let mut i: usize = 0;
    assert(rows_of_trades(out@) =~= Seq::<TickRow>::empty());
    while i < batches.len()
        invariant
            i <= batches@.len(),
            forall|k: int|
                0 <= k < batches@.len() ==> even(batch_of((#[trigger] batches@[k])@), 5),
            file_trades(batches@.take(i as int)) == Ok::<Seq<TickRow>, Seq<char>>(
                rows_of_trades(out@),
            ),
        decreases batches@.len() - i,
    {
        proof {
            let next = batches@.take(i + 1);
            assert(next.drop_last() =~= batches@.take(i as int));
            assert(next.last() == batches@[i as int]);
        }
        match read_trades(&batches[i], &mut out) {
            Ok(_) => {},
            Err(e) => {
                proof {
                    lemma_first_trade_error(batches@, i + 1);
                }
                return Err(e);
            },
        }
        i = i + 1;
    }
    assert(batches@.take(i as int) =~= batches@);
    Ok(out)
}

/// A batch that cannot be read ends the reading.
proof fn lemma_first_trade_error(batches: Seq<Vec<Option<Column>>>, n: int)
    requires
        0 <= n <= batches.len(),
        file_trades(batches.take(n)) is Err,
    ensures
        file_trades(batches) == file_trades(batches.take(n)),
    decreases batches.len(),
{
    if n < batches.len() {
        let rest = batches.drop_last();
        assert(rest.take(n) =~= batches.take(n));
        lemma_first_trade_error(rest, n);
    } else {
        assert(batches.take(n) =~= batches);
    }
}

/// A recorded order book without its instrument.
pub struct BookLevels {
    pub timestamp_ms: u64,
    pub bid_prices: Seq<Real>,
    pub bid_sizes: Seq<Real>,
    pub ask_prices: Seq<Real>,
    pub ask_sizes: Seq<Real>,
}

/// Whether five columns from a place on are columns of numbers.
pub open spec fn five_numbers(columns: Seq<Option<ColumnView>>, start: int) -> bool {
    forall|k: int| start <= k < start + 5 ==> ((#[trigger] columns[k]) matches Some(
        ColumnView::Numbers(_),
    ))
}

/// The numbers of a row in five columns.
pub open spec fn five_of(columns: Seq<Option<ColumnView>>, start: int, i: int) -> Seq<Real> {
    Seq::new(
        5,
        |k: int|
            match columns[start + k] {
                Some(ColumnView::Numbers(v)) => v[i],
                _ => Real::from_u64(0),
            },
    )
}

/// The order books of a batch, or what is wrong with its columns.
pub open spec fn book_rows(columns: Seq<Option<ColumnView>>) -> Result<Seq<BookLevels>, Seq<char>> {
    match columns[0] {
        Some(ColumnView::Integers(ts)) => if five_numbers(columns, 2) && five_numbers(columns, 7)
            && five_numbers(columns, 12) && five_numbers(columns, 17) {
            Ok(
                Seq::new(
                    ts.len(),
                    |i: int|
                        BookLevels {
                            timestamp_ms: ts[i],
                            bid_prices: five_of(columns, 2, i),
                            bid_sizes: five_of(columns, 7, i),
                            ask_prices: five_of(columns, 12, i),
                            ask_sizes: five_of(columns, 17, i),
                        },
                ),
            )
        } else {
            Err("col not Float64"@)
        },
        _ => Err("timestamp_ms column not UInt64"@),
    }
}

/// The order books of a file, batch after batch, or what is wrong with the first batch that
/// cannot be read.
pub open spec fn file_books(batches: Seq<Vec<Option<Column>>>) -> Result<Seq<BookLevels>, Seq<char>>
    decreases batches.len(),
{
    if batches.len() == 0 {
        Ok(Seq::empty())
    } else {
        match file_books(batches.drop_last()) {
            Ok(rows) => match book_rows(batch_of(batches.last()@)) {
                Ok(more) => Ok(rows + more),
                Err(e) => Err(e),
            },
            Err(e) => Err(e),
        }
    }
}

/// An order book as it was recorded.
pub open spec fn levels_of(s: BookSnapshot) -> BookLevels {
    BookLevels {
        timestamp_ms: s.timestamp_ms,
        bid_prices: s.bid_prices@,
        bid_sizes: s.bid_sizes@,
        ask_prices: s.ask_prices@,
        ask_sizes: s.ask_sizes@,
    }
}

/// Order books as they were recorded.
pub open spec fn levels_of_books(books: Seq<BookSnapshot>) -> Seq<BookLevels> {
    Seq::new(books.len(), |i: int| levels_of(books[i]))
}

/// Whether five columns from a place on are columns of numbers.
fn test_five(columns: &Vec<Option<Column>>, start: usize) -> (r: bool)
    requires
        start + 5 <= columns@.len(),
    ensures
        r == five_numbers(batch_of(columns@), start as int),
{
    let ghost batch = batch_of(columns@);
    let n: usize = columns.len();
    let mut k: usize = start;
    while k < start + 5
        invariant
            n == columns@.len(),
            start <= k <= start + 5 <= n,
            batch == batch_of(columns@),
            forall|j: int|
                start <= j < k ==> ((#[trigger] batch[j]) matches Some(ColumnView::Numbers(_))),
        decreases start + 5 - k,
    {
        match &columns[k] {
            Some(Column::Numbers(v)) => {
                assert(batch[k as int] == Some(ColumnView::Numbers(v@)));
            },
            Some(c) => {
                assert(batch[k as int] == Some(c@));
                assert(!(batch[k as int] matches Some(ColumnView::Numbers(_))));
                return false;
            },
            None => {
                assert(batch[k as int] is None);
                return false;
            },
        }
        k = k + 1;
    }
    true
}

/// The number of a row in a column of numbers.
fn number_of(column: &Option<Column>, i: usize) -> (r: Real)
    requires
        column matches Some(Column::Numbers(v)) && i < v@.len(),
    ensures
        column matches Some(Column::Numbers(v)) && r == v@[i as int],
{
    match column {
        Some(Column::Numbers(v)) => v[i],
        _ => Real::from_u64(0),
    }
}

/// The numbers of a row in five columns.
fn read_five(columns: &Vec<Option<Column>>, start: usize, i: usize) -> (r: [Real; 5])
    requires
        start <= 17,
        start + 5 <= columns@.len(),
        five_numbers(batch_of(columns@), start as int),
        forall|k: int|
            start <= k < start + 5 ==> height(
                (#[trigger] batch_of(columns@)[k]).unwrap(),
            ) > i,
    ensures
        r@ == five_of(batch_of(columns@), start as int, i as int),
{
    let ghost batch = batch_of(columns@);
    proof {
        assert(batch[start as int] is Some);
        assert(batch[start + 1] is Some);
        assert(batch[start + 2] is Some);
        assert(batch[start + 3] is Some);
        assert(batch[start + 4] is Some);
    }
    let r: [Real; 5] = [
        number_of(&columns[start], i),
        number_of(&columns[start + 1], i),
        number_of(&columns[start + 2], i),
        number_of(&columns[start + 3], i),
        number_of(&columns[start + 4], i),
    ];
    assert(r@ =~= five_of(batch, start as int, i as int));
    r
}

/// Appends the order books of a batch.
fn read_books(columns: &Vec<Option<Column>>, out: &mut Vec<BookSnapshot>) -> (r: Result<(), String>)
    requires
        even(batch_of(columns@), 22),
    ensures
        match (r, book_rows(batch_of(columns@))) {
            (Ok(_), Ok(rows)) => levels_of_books(final(out)@) == levels_of_books(old(out)@) + rows,
            (Err(e), Err(f)) => e@ == f,
            _ => false,
        },
{
    let ghost batch = batch_of(columns@);
    let ghost before = levels_of_books(out@);
    let ts = match &columns[0] {
        Some(Column::Integers(v)) => v,
        _ => {
            return Err("timestamp_ms column not UInt64".to_owned());
        },
    };
    assert(batch[0] == Some(ColumnView::Integers(ts@)));
    if !(test_five(columns, 2) && test_five(columns, 7) && test_five(columns, 12) && test_five(
        columns,
        17,
    )) {
        return Err("col not Float64".to_owned());
    }
    let ghost rows = book_rows(batch)->Ok_0;
    proof {
        assert forall|k: int| 2 <= k < 22 implies (#[trigger] batch[k]) is Some && height(
            batch[k].unwrap(),
        ) == ts@.len() by {
            assert(batch[0] is Some);
        }
    }
    let mut i: usize = 0;
    while i < ts.len()
        invariant
            i <= ts@.len(),
            batch == batch_of(columns@),
            columns@.len() >= 22,
            five_numbers(batch, 2),
            five_numbers(batch, 7),
            five_numbers(batch, 12),
            five_numbers(batch, 17),
            forall|k: int|
                2 <= k < 22 ==> (#[trigger] batch[k]) is Some && height(batch[k].unwrap())
                    == ts@.len(),
            rows.len() == ts@.len(),
            forall|k: int|
                0 <= k < rows.len() ==> #[trigger] rows[k] == (BookLevels {
                    timestamp_ms: ts@[k],
                    bid_prices: five_of(batch, 2, k),
                    bid_sizes: five_of(batch, 7, k),
                    ask_prices: five_of(batch, 12, k),
                    ask_sizes: five_of(batch, 17, k),
                }),
            levels_of_books(out@) == before + rows.take(i as int),
        decreases ts@.len() - i,
    {
        let ghost so_far = out@;
        out.push(
            BookSnapshot {
                timestamp_ms: ts[i],
                bid_prices: read_five(columns, 2, i),
                bid_sizes: read_five(columns, 7, i),
                ask_prices: read_five(columns, 12, i),
                ask_sizes: read_five(columns, 17, i),
            },
        );
        proof {
            assert(rows.take(i + 1) =~= rows.take(i as int).push(rows[i as int]));
            assert(levels_of(out@.last()) == rows[i as int]);
            assert(levels_of_books(out@) =~= levels_of_books(so_far).push(rows[i as int]));
        }
        i = i + 1;
    }
    assert(rows.take(i as int) =~= rows);
    Ok(())
}

/// The order books of a file, from the columns of its batches.
pub fn read_book_file(batches: &Vec<Vec<Option<Column>>>) -> (r: Result<Vec<BookSnapshot>, String>)
    requires
        forall|i: int|
            0 <= i < batches@.len() ==> even(batch_of((#[trigger] batches@[i])@), 22),
    ensures
        match (r, file_books(batches@)) {
            (Ok(books), Ok(rows)) => levels_of_books(books@) == rows,
            (Err(e), Err(f)) => e@ == f,
            _ => false,
        },
{
    let mut out: Vec<BookSnapshot> = Vec::new();
    let mut i: usize = 0;
    assert(levels_of_books(out@) =~= Seq::<BookLevels>::empty());
    while i < batches.len()
        invariant
            i <= batches@.len(),
            forall|k: int|
                0 <= k < batches@.len() ==> even(batch_of((#[trigger] batches@[k])@), 22),
            file_books(batches@.take(i as int)) == Ok::<Seq<BookLevels>, Seq<char>>(
                levels_of_books(out@),
            ),
        decreases batches@.len() - i,
    {
        proof {
            let next = batches@.take(i + 1);
            assert(next.drop_last() =~= batches@.take(i as int));
            assert(next.last() == batches@[i as int]);
        }
        match read_books(&batches[i], &mut out) {
            Ok(_) => {},
            Err(e) => {
                proof {
                    lemma_first_book_error(batches@, i + 1);
                }
                return Err(e);
            },
        }
        i = i + 1;
    }
    assert(batches@.take(i as int) =~= batches@);
    Ok(out)
}

/// A batch that cannot be read ends the reading.
proof fn lemma_first_book_error(batches: Seq<Vec<Option<Column>>>, n: int)
    requires
        0 <= n <= batches.len(),
        file_books(batches.take(n)) is Err,
    ensures
        file_books(batches) == file_books(batches.take(n)),
    decreases batches.len(),
{
    if n < batches.len() {
        let rest = batches.drop_last();
        assert(rest.take(n) =~= batches.take(n));
        lemma_first_book_error(rest, n);
    } else {
        assert(batches.take(n) =~= batches);
    }
}

/// Columns as they are read back.
pub open spec fn read_back(table: Seq<ColumnView>) -> Seq<Option<ColumnView>> {
    Seq::new(table.len(), |i: int| Some(table[i]))
}

/// Parts, one after the other.
pub open spec fn joined<T>(parts: Seq<Seq<T>>) -> Seq<T>
    decreases parts.len(),
{
    if parts.len() == 0 {
        Seq::empty()
    } else {
        joined(parts.drop_last()) + parts.last()
    }
}

/// Trades that were written are read back as these trades, in order, however the file splits them
/// into batches.
pub proof fn law_recorded_trades_are_read_back(
    rows: Seq<TickRow>,
    parts: Seq<Seq<TickRow>>,
    batches: Seq<Vec<Option<Column>>>,
)
    requires
        joined(parts) == rows,
        batches.len() == parts.len(),
        forall|i: int|
            0 <= i < parts.len() ==> batch_of((#[trigger] batches[i])@) == read_back(
                tick_table(parts[i]),
            ),
    ensures
        file_trades(batches) == Ok::<Seq<TickRow>, Seq<char>>(rows),
    decreases parts.len(),
{
    if parts.len() > 0 {
        let (head, rest) = (parts.drop_last(), batches.drop_last());
        assert forall|i: int| 0 <= i < head.len() implies batch_of((#[trigger] rest[i])@)
            == read_back(tick_table(head[i])) by {
            assert(rest[i] == batches[i] && head[i] == parts[i]);
        }
        law_recorded_trades_are_read_back(joined(head), head, rest);
        let last = parts.len() - 1;
        assert(batches[last] == batches.last() && parts[last] == parts.last());
        let columns = read_back(tick_table(parts.last()));
        assert(trade_rows(columns)->Ok_0 =~= parts.last());
    }
}

/// The five columns of a list are read back as that list.
proof fn lemma_levels_read_back(rows: Seq<BookRow>, g: int, i: int)
    requires
        0 <= g < 4,
        0 <= i < rows.len(),
        Ladder::nth(g).of(rows[i]).len() == 5,
    ensures
        five_of(read_back(book_table(rows)), 2 + 5 * g, i) == Ladder::nth(g).of(rows[i]),
{
    let columns = read_back(book_table(rows));
    let f = five_of(columns, 2 + 5 * g, i);
    let want = Ladder::nth(g).of(rows[i]);
    assert forall|k: int| 0 <= k < 5 implies f[k] == want[k] by {
        let j = 2 + 5 * g + k;
        assert((j - 2) / 5 == g && (j - 2) % 5 == k);
        assert(columns[j] == Some(ColumnView::Numbers(level_values(rows, Ladder::nth(g), k))));
    }
    assert(f =~= want);
}

/// Whether an order book has five levels on each side.
pub open spec fn five_levels(row: BookRow) -> bool {
    &&& row.bid_prices.len() == 5
    &&& row.bid_sizes.len() == 5
    &&& row.ask_prices.len() == 5
    &&& row.ask_sizes.len() == 5
}

/// Order books without the name of their instrument.
pub open spec fn levels_of_rows(rows: Seq<BookRow>) -> Seq<BookLevels> {
    Seq::new(
        rows.len(),
        |i: int|
            BookLevels {
                timestamp_ms: rows[i].timestamp_ms,
                bid_prices: rows[i].bid_prices,
                bid_sizes: rows[i].bid_sizes,
                ask_prices: rows[i].ask_prices,
                ask_sizes: rows[i].ask_sizes,
            },
    )
}

/// Order books that were written are read back as these order books, in order, however the file
/// splits them into batches.
pub proof fn law_recorded_books_are_read_back(
    rows: Seq<BookRow>,
    parts: Seq<Seq<BookRow>>,
    batches: Seq<Vec<Option<Column>>>,
)
    requires
        forall|i: int| 0 <= i < rows.len() ==> five_levels(#[trigger] rows[i]),
        joined(parts) == rows,
        batches.len() == parts.len(),
        forall|i: int|
            0 <= i < parts.len() ==> batch_of((#[trigger] batches[i])@) == read_back(
                book_table(parts[i]),
            ),
    ensures
        file_books(batches) == Ok::<Seq<BookLevels>, Seq<char>>(levels_of_rows(rows)),
    decreases parts.len(),
{
    if parts.len() == 0 {
        assert(levels_of_rows(rows) =~= Seq::empty());
    } else {
        let (head, rest) = (parts.drop_last(), batches.drop_last());
        let (first, part) = (joined(head), parts.last());
        assert forall|i: int| 0 <= i < head.len() implies batch_of((#[trigger] rest[i])@)
            == read_back(book_table(head[i])) by {
            assert(rest[i] == batches[i] && head[i] == parts[i]);
        }
        assert forall|i: int| 0 <= i < first.len() implies five_levels(#[trigger] first[i]) by {
            assert(first[i] == rows[i]);
        }
        assert forall|i: int| 0 <= i < part.len() implies five_levels(#[trigger] part[i]) by {
            assert(part[i] == rows[first.len() + i]);
        }
        law_recorded_books_are_read_back(first, head, rest);
        let last = parts.len() - 1;
        assert(batches[last] == batches.last() && parts[last] == part);
        lemma_books_of_a_batch(part);
        assert(levels_of_rows(rows) =~= levels_of_rows(first) + levels_of_rows(part));
    }
}

/// The columns that order books are written to hold these order books.
proof fn lemma_books_of_a_batch(rows: Seq<BookRow>)
    requires
        forall|i: int| 0 <= i < rows.len() ==> five_levels(#[trigger] rows[i]),
    ensures
        book_rows(read_back(book_table(rows))) == Ok::<Seq<BookLevels>, Seq<char>>(
            levels_of_rows(rows),
        ),
{
    let columns = read_back(book_table(rows));
    let expected = levels_of_rows(rows);
    assert forall|j: int| 2 <= j < 22 implies #[trigger] columns[j] == Some(
        ColumnView::Numbers(level_values(rows, Ladder::nth((j - 2) / 5), (j - 2) % 5)),
    ) by {}
    let got = book_rows(columns)->Ok_0;
    assert forall|i: int| 0 <= i < rows.len() implies got[i] == expected[i] by {
        assert(five_levels(rows[i]));
        lemma_levels_read_back(rows, 0, i);
        lemma_levels_read_back(rows, 1, i);
        lemma_levels_read_back(rows, 2, i);
        lemma_levels_read_back(rows, 3, i);
    }
    assert(got =~= expected);
}

/// What two texts begin with alike does not decide over their order.
proof fn lemma_le_prefix(p: Seq<char>, a: Seq<char>, b: Seq<char>)
    ensures
        text_le(p + a, p + b) == text_le(a, b),
    decreases p.len(),
{
    if p.len() == 0 {
        assert(p + a =~= a);
        assert(p + b =~= b);
    } else {
        lemma_le_prefix(p.skip(1), a, b);
        assert((p + a).skip(1) =~= p.skip(1) + a);
        assert((p + b).skip(1) =~= p.skip(1) + b);
    }
}

/// Texts of one length that differ decide over the order of longer ones.
proof fn lemma_le_decided(a: Seq<char>, b: Seq<char>, x: Seq<char>, y: Seq<char>)
    requires
        a.len() == b.len(),
        a != b,
        text_le(a, b),
    ensures
        text_le(a + x, b + y),
    decreases a.len(),
{
    if a.len() == 0 {
        assert(a =~= b);
    } else if a[0] == b[0] {
        assert((a + x).skip(1) =~= a.skip(1) + x);
        assert((b + y).skip(1) =~= b.skip(1) + y);
        if a.skip(1) == b.skip(1) {
            assert(a =~= seq![a[0]] + a.skip(1));
            assert(b =~= seq![b[0]] + b.skip(1));
        }
        lemma_le_decided(a.skip(1), b.skip(1), x, y);
    }
}

/// Padded numbers are ordered like the numbers, or are equal.
proof fn lemma_padded_order(a: nat, b: nat, width: nat)
    requires
        a <= b,
        b < pow10(width),
    ensures
        padded(a, width).len() == width,
        padded(b, width).len() == width,
        text_le(padded(a, width), padded(b, width)),
    decreases width,
{
    if width > 0 {
        let w = (width - 1) as nat;
        assert(pow10(width) == 10 * pow10(w));
        lemma_padded_order(a / 10, b / 10, w);
        let (x, y) = (padded(a / 10, w), padded(b / 10, w));
        let (c, d) = (seq![digit_char(a % 10)], seq![digit_char(b % 10)]);
        assert(padded(a, width) =~= x + c);
        assert(padded(b, width) =~= y + d);
        if x == y {
            lemma_le_prefix(x, c, d);
            lemma_padded_differs(a / 10, b / 10, w);
            assert(a % 10 <= b % 10);
            assert(digit_char(a % 10) <= digit_char(b % 10));
            assert(c.skip(1).len() == 0 && text_le(c.skip(1), d.skip(1)));
            assert(text_le(c, d));
        } else {
            lemma_le_decided(x, y, c, d);
        }
    }
}

/// Files of one kind are read in the order in which they were written, as far as their times are
/// texts of one length that are ordered like the times.
pub proof fn law_files_are_read_in_time_order(
    prefix: Seq<char>,
    t1: Seq<char>,
    n1: u32,
    t2: Seq<char>,
    n2: u32,
)
    requires
        t1.len() == t2.len(),
        text_le(t1, t2),
        t1 == t2 ==> n1 <= n2,
        n1 < 1_000_000_000,
        n2 < 1_000_000_000,
    ensures
        text_le(file_name_of(prefix, t1, n1), file_name_of(prefix, t2, n2)),
{
    let head = prefix + "_"@;
    let tail1 = "_"@ + padded(n1 as nat, 9) + ".parquet"@;
    let tail2 = "_"@ + padded(n2 as nat, 9) + ".parquet"@;
    assert(file_name_of(prefix, t1, n1) =~= head + (t1 + tail1));
    assert(file_name_of(prefix, t2, n2) =~= head + (t2 + tail2));
    lemma_le_prefix(head, t1 + tail1, t2 + tail2);
    if t1 != t2 {
        lemma_le_decided(t1, t2, tail1, tail2);
    } else {
        lemma_le_prefix(t1, tail1, tail2);
        let (a, b) = (padded(n1 as nat, 9), padded(n2 as nat, 9));
        assert(pow10(9) == 1_000_000_000) by {
            reveal_with_fuel(pow10, 10);
        }
        lemma_padded_order(n1 as nat, n2 as nat, 9);
        assert(tail1 =~= "_"@ + (a + ".parquet"@));
        assert(tail2 =~= "_"@ + (b + ".parquet"@));
        lemma_le_prefix("_"@, a + ".parquet"@, b + ".parquet"@);
        if a == b {
            lemma_le_reflexive(a + ".parquet"@);
        } else {
            lemma_le_decided(a, b, ".parquet"@, ".parquet"@);
        }
    }
}

} // verus!
