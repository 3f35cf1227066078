//! What is recorded, and how it is found and read again.

use crate::corpus::batch_of;
use crate::corpus::book_rows;
use crate::corpus::file_books;
use crate::corpus::file_trades;
use crate::corpus::is_recorded;
use crate::corpus::recorded;
use crate::corpus::text_le;
use crate::corpus::trade_rows;
use crate::number::Real;
use crate::persistence::book_columns;
use crate::persistence::book_table;
use crate::persistence::file_name_of;
use crate::persistence::level_or_zero;
use crate::persistence::secs_or;
use crate::persistence::size_or;
use crate::persistence::tick_columns;
use crate::persistence::tick_table;
use crate::persistence::written_of;
use crate::persistence::BookRow;
use crate::persistence::Column;
use crate::persistence::ColumnKind;
use crate::persistence::ColumnView;
use crate::persistence::TickRow;
use crate::persistence::WriterInput;
use crate::text::decimal;
use crate::text::padded;
use crate::text::parsed_u64;
use crate::ws_types::BookLevel;
use vstd::prelude::*;

verus! {

/// A variable counts where it is a number; else the usual value does.
pub proof fn law_settings_of_the_recorder(s: String, usual: usize, secs: u64)
    ensures
        size_or(None, usual) == usual,
        secs_or(None, secs) == secs,
        parsed_u64(s@) is None ==> size_or(Some(s), usual) == usual && secs_or(Some(s), secs) == secs,
        parsed_u64(s@) matches Some(n) ==> secs_or(Some(s), secs) == n && (n <= usize::MAX ==> size_or(
            Some(s),
            usual,
        ) == n) && (n > usize::MAX ==> size_or(Some(s), usual) == usual),
{
}

/// A file of trades has a column for the time, the price, the size, the side and the instrument of
/// the trades, and each holds the values of all trades in their order.
pub proof fn law_columns_of_trades(rows: Seq<TickRow>, i: int)
    requires
        0 <= i < rows.len(),
    ensures
        ({
            let (c, t) = (tick_columns(), tick_table(rows));
            &&& c.len() == 5
            &&& t.len() == 5
            &&& c[0] == ("timestamp_ms"@, ColumnKind::Integers)
            &&& c[1] == ("price"@, ColumnKind::Numbers)
            &&& c[2] == ("size"@, ColumnKind::Numbers)
            &&& c[3] == ("side"@, ColumnKind::Texts)
            &&& c[4] == ("inst_id"@, ColumnKind::Texts)
            &&& t[0] matches ColumnView::Integers(x) && x.len() == rows.len() && x[i]
                == rows[i].timestamp_ms
            &&& t[1] matches ColumnView::Numbers(x) && x.len() == rows.len() && x[i] == rows[i].price
            &&& t[2] matches ColumnView::Numbers(x) && x.len() == rows.len() && x[i] == rows[i].size
            &&& t[3] matches ColumnView::Texts(x) && x.len() == rows.len() && x[i] == rows[i].side
            &&& t[4] matches ColumnView::Texts(x) && x.len() == rows.len() && x[i] == rows[i].inst_id
        }),
{
}

/// A file of books has a column for the time and the instrument, and one for each level of the bid
/// prices, the bid sizes, the ask prices and the ask sizes, in this order.
pub proof fn law_columns_of_books(rows: Seq<BookRow>, i: int, level: int)
    requires
        0 <= i < rows.len(),
        0 <= level < 5,
    ensures
        ({
            let (c, t) = (book_columns(), book_table(rows));
            let n = decimal(level as nat);
            &&& c.len() == 22
            &&& t.len() == 22
            &&& c[0] == ("timestamp_ms"@, ColumnKind::Integers)
            &&& c[1] == ("inst_id"@, ColumnKind::Texts)
            &&& c[2 + level] == ("bid_price_"@ + n, ColumnKind::Numbers)
            &&& c[7 + level] == ("bid_size_"@ + n, ColumnKind::Numbers)
            &&& c[12 + level] == ("ask_price_"@ + n, ColumnKind::Numbers)
            &&& c[17 + level] == ("ask_size_"@ + n, ColumnKind::Numbers)
            &&& t[0] matches ColumnView::Integers(x) && x.len() == rows.len() && x[i]
                == rows[i].timestamp_ms
            &&& t[1] matches ColumnView::Texts(x) && x.len() == rows.len() && x[i] == rows[i].inst_id
            &&& t[2 + level] matches ColumnView::Numbers(x) && x.len() == rows.len() && x[i]
                == rows[i].bid_prices[level]
            &&& t[7 + level] matches ColumnView::Numbers(x) && x.len() == rows.len() && x[i]
                == rows[i].bid_sizes[level]
            &&& t[12 + level] matches ColumnView::Numbers(x) && x.len() == rows.len() && x[i]
                == rows[i].ask_prices[level]
            &&& t[17 + level] matches ColumnView::Numbers(x) && x.len() == rows.len() && x[i]
                == rows[i].ask_sizes[level]
        }),
{
    assert(level / 5 == 0 && level % 5 == level);
    assert((5 + level) / 5 == 1 && (5 + level) % 5 == level);
    assert((10 + level) / 5 == 2 && (10 + level) % 5 == level);
    assert((15 + level) / 5 == 3 && (15 + level) % 5 == level);
}

/// A level that is missing is recorded as zeros.
pub proof fn law_missing_levels(levels: Seq<BookLevel>, i: int)
    requires
        0 <= i,
    ensures
        i < levels.len() ==> level_or_zero(levels, i) == levels[i],
        i >= levels.len() ==> level_or_zero(levels, i).price == Real::from_u64(0) && level_or_zero(
            levels,
            i,
        ).size == Real::from_u64(0),
{
}

/// A file is named after what it holds, its time to the second, and the nanoseconds of that second.
pub proof fn law_file_names(prefix: Seq<char>, time: Seq<char>, nanos: u32)
    ensures
        file_name_of(prefix, time, nanos) == prefix + "_"@ + time + "_"@ + padded(nanos as nat, 9)
            + ".parquet"@,
        is_recorded(file_name_of("BTC-USDT-SWAP_trades"@, time, nanos), "_trades_"@),
        is_recorded(file_name_of("BTC-USDT-SWAP_books"@, time, nanos), "_books_"@),
{
    reveal_strlit("_");
    reveal_strlit("_trades_");
    reveal_strlit("_books_");
    reveal_strlit("BTC-USDT-SWAP_trades");
    reveal_strlit("BTC-USDT-SWAP_books");
    reveal_strlit(".parquet");
    let a = file_name_of("BTC-USDT-SWAP_trades"@, time, nanos);
    assert(a.skip(a.len() - 8) =~= ".parquet"@);
    assert(a.subrange(13, 13 + "_trades_"@.len() as int) =~= "_trades_"@);
    let b = file_name_of("BTC-USDT-SWAP_books"@, time, nanos);
    assert(b.skip(b.len() - 8) =~= ".parquet"@);
    assert(b.subrange(13, 13 + "_books_"@.len() as int) =~= "_books_"@);
}

/// The files to read are those whose names end in the usual way and hold the mark, and all of them.
pub proof fn law_files_are_found(names: Seq<String>, mark: Seq<char>, next: String)
    ensures
        recorded(Seq::empty(), mark) == Seq::<Seq<char>>::empty(),
        ({
            let s = next@;
            let good = s.len() >= 8 && s.skip(s.len() - 8) == ".parquet"@ && exists|i: int|
                0 <= i <= s.len() - mark.len() && #[trigger] s.subrange(i, i + mark.len()) == mark;
            &&& good ==> recorded(names.push(next), mark) == recorded(names, mark).push(s)
            &&& !good ==> recorded(names.push(next), mark) == recorded(names, mark)
        }),
{
    reveal_strlit(".parquet");
    assert(names.push(next).drop_last() =~= names);
}

/// Names are in order where one begins the other, or where the first character in which they differ
/// is the smaller one.
pub proof fn law_order_of_names(a: Seq<char>, b: Seq<char>, k: int)
    requires
        0 <= k,
        k <= a.len(),
        k <= b.len(),
        forall|i: int| 0 <= i < k ==> a[i] == b[i],
    ensures
        k == a.len() ==> text_le(a, b),
        k == b.len() && k < a.len() ==> !text_le(a, b),
        k < a.len() && k < b.len() && a[k] != b[k] ==> text_le(a, b) == (a[k] < b[k]),
    decreases k,
{
    if k > 0 {
        let (x, y) = (a.skip(1), b.skip(1));
        assert forall|i: int| 0 <= i < k - 1 implies x[i] == y[i] by {
            assert(x[i] == a[i + 1] && y[i] == b[i + 1]);
        }
        assert(a[0] == b[0]);
        law_order_of_names(x, y, k - 1);
    }
}

/// A batch of trades is read row by row where its first five columns are of the right kinds, and else
/// the first that is not is told.
pub proof fn law_trades_are_read(columns: Seq<Option<ColumnView>>, i: int)
    requires
        columns.len() >= 5,
    ensures
        ({
            let r = trade_rows(columns);
            let ts = columns[0] is Some && columns[0]->0 is Integers;
            let px = columns[1] is Some && columns[1]->0 is Numbers;
            let sz = columns[2] is Some && columns[2]->0 is Numbers;
            let side = columns[3] is Some && columns[3]->0 is Texts;
            let inst = columns[4] is Some && columns[4]->0 is Texts;
            &&& r is Ok <==> ts && px && sz && side && inst
            &&& !ts ==> r == Err::<Seq<TickRow>, _>("timestamp_ms column not UInt64"@)
            &&& ts && !px ==> r == Err::<Seq<TickRow>, _>("price column not Float64"@)
            &&& ts && px && !sz ==> r == Err::<Seq<TickRow>, _>("size column not Float64"@)
            &&& ts && px && sz && !side ==> r == Err::<Seq<TickRow>, _>("side column not Utf8"@)
            &&& ts && px && sz && side && !inst ==> r == Err::<Seq<TickRow>, _>(
                "inst_id column not Utf8"@,
            )
            &&& r matches Ok(rows) ==> {
                &&& rows.len() == columns[0]->0->Integers_0.len()
                &&& 0 <= i < rows.len() ==> {
                    &&& rows[i].timestamp_ms == columns[0]->0->Integers_0[i]
                    &&& rows[i].price == columns[1]->0->Numbers_0[i]
                    &&& rows[i].size == columns[2]->0->Numbers_0[i]
                    &&& rows[i].side == columns[3]->0->Texts_0[i]
                    &&& rows[i].inst_id == columns[4]->0->Texts_0[i]
                }
            }
        }),
{
}

/// A batch of books is read row by row where its time and its twenty levels are of the right kinds.
pub proof fn law_books_are_read(columns: Seq<Option<ColumnView>>, i: int, level: int)
    requires
        columns.len() >= 22,
        0 <= level < 5,
    ensures
        ({
            let r = book_rows(columns);
            let ts = columns[0] is Some && columns[0]->0 is Integers;
            let all = forall|k: int|
                2 <= k < 22 ==> (#[trigger] columns[k]) is Some && columns[k]->0 is Numbers;
            &&& r is Ok <==> ts && all
            &&& !ts ==> r is Err && r->Err_0 == "timestamp_ms column not UInt64"@
            &&& ts && !all ==> r is Err && r->Err_0 == "col not Float64"@
            &&& r matches Ok(rows) ==> {
                &&& rows.len() == columns[0]->0->Integers_0.len()
                &&& 0 <= i < rows.len() ==> {
                    &&& rows[i].timestamp_ms == columns[0]->0->Integers_0[i]
                    &&& rows[i].bid_prices[level] == columns[2 + level]->0->Numbers_0[i]
                    &&& rows[i].bid_sizes[level] == columns[7 + level]->0->Numbers_0[i]
                    &&& rows[i].ask_prices[level] == columns[12 + level]->0->Numbers_0[i]
                    &&& rows[i].ask_sizes[level] == columns[17 + level]->0->Numbers_0[i]
                    &&& rows[i].bid_prices.len() == 5
                    &&& rows[i].bid_sizes.len() == 5
                    &&& rows[i].ask_prices.len() == 5
                    &&& rows[i].ask_sizes.len() == 5
                }
            }
        }),
{
    let all = forall|k: int|
        2 <= k < 22 ==> (#[trigger] columns[k]) is Some && columns[k]->0 is Numbers;
    let five = |s: int| crate::corpus::five_numbers(columns, s);
    if all {
        assert(five(2) && five(7) && five(12) && five(17)) by {
            assert forall|k: int| 2 <= k < 22 implies ((#[trigger] columns[k]) matches Some(
                ColumnView::Numbers(_),
            )) by {}
        }
    }
    if five(2) && five(7) && five(12) && five(17) {
        assert forall|k: int| 2 <= k < 22 implies (#[trigger] columns[k]) is Some
            && columns[k]->0 is Numbers by {
            let s: int = if k < 7 { 2 } else if k < 12 { 7 } else if k < 17 { 12 } else { 17 };
            assert(five(s));
        }
        assert(columns[2 + level] is Some && columns[7 + level] is Some && columns[12 + level] is Some
            && columns[17 + level] is Some);
    }
}

/// Files are read batch after batch, up to the first that cannot be.
pub proof fn law_batches_are_read_in_turn(batches: Seq<Vec<Option<Column>>>, next: Vec<Option<Column>>)
    ensures
        file_trades(Seq::empty()) == Ok::<Seq<TickRow>, Seq<char>>(Seq::empty()),
        file_trades(batches) is Err ==> file_trades(batches.push(next)) == file_trades(batches),
        file_trades(batches) matches Ok(a) ==> {
            &&& trade_rows(batch_of(next@)) matches Ok(b) ==> file_trades(batches.push(next)) == Ok::<
                Seq<TickRow>,
                Seq<char>,
            >(a + b)
            &&& trade_rows(batch_of(next@)) is Err ==> file_trades(batches.push(next)) == trade_rows(
                batch_of(next@),
            )
        },
        file_books(Seq::empty()) is Ok && file_books(Seq::empty())->Ok_0.len() == 0,
        file_books(batches) is Err ==> file_books(batches.push(next)) == file_books(batches),
        file_books(batches) matches Ok(a) ==> {
            &&& book_rows(batch_of(next@)) matches Ok(b) ==> file_books(batches.push(next)) is Ok
                && file_books(batches.push(next))->Ok_0 == a + b
            &&& book_rows(batch_of(next@)) is Err ==> file_books(batches.push(next)) == book_rows(
                batch_of(next@),
            )
        },
{
    assert(batches.push(next).drop_last() =~= batches);
}

/// A writer hands out what it holds with the record that fills it up, and when it is told to; it keeps
/// what it holds otherwise, in the order in which it came.
pub proof fn law_writers_hand_out_batches<Row>(
    capacity: nat,
    inputs: Seq<WriterInput<Row>>,
    row: Row,
)
    ensures
        ({
            let v = written_of(capacity, inputs);
            let w = written_of(capacity, inputs.push(WriterInput::Record(row)));
            let held = v.waiting.push(row);
            if held.len() < capacity {
                w.waiting == held && w.batches == v.batches
            } else {
                w.waiting.len() == 0 && w.batches == v.batches.push(held)
            }
        }),
        ({
            let v = written_of(capacity, inputs);
            let w = written_of(capacity, inputs.push(WriterInput::Flush));
            if v.waiting.len() == 0 {
                w == v
            } else {
                w.waiting.len() == 0 && w.batches == v.batches.push(v.waiting)
            }
        }),
        written_of(capacity, Seq::<WriterInput<Row>>::empty()).waiting.len() == 0,
        written_of(capacity, Seq::<WriterInput<Row>>::empty()).batches.len() == 0,
{
    assert(inputs.push(WriterInput::Record(row)).drop_last() =~= inputs);
    assert(inputs.push(WriterInput::Flush).drop_last() =~= inputs);
}

} // verus!
