//! Recording of trades and order books.
//!
//! Records are collected in a buffer. A full buffer is written to a file of its own, and so is
//! what was collected when the flush interval elapses or the program stops. The writing itself
//! is done elsewhere, column by column.

use crate::fixed::pow10;
use crate::number::Real;
use crate::signing::file_format;
use crate::signing::file_time;
use crate::signing::utc_formatted;
use crate::text::decimal;
use crate::text::decimal_text;
use crate::text::digit_char;
use crate::text::padded;
use crate::text::parse_u64;
use crate::text::parsed_u64;
use crate::text::push_padded;
use crate::ws_types::BookLevel;
use crate::ws_types::OrderBookUpdate;
use vstd::prelude::*;
use vstd::string::*;

verus! {

/// Trades that are collected before they are written.
pub const DEFAULT_TRADE_BUFFER: usize = 100_000;

/// Order books that are collected before they are written. They come more often than trades.
pub const DEFAULT_BOOK_BUFFER: usize = 200_000;

/// Longest time between two files, in seconds.
pub const DEFAULT_FLUSH_INTERVAL_SECS: u64 = 3_600;

/// Records that may wait for a writer. More are dropped.
pub const CHANNEL_CAPACITY: usize = 10_000;

/// Rows that a new buffer has room for, at most.
pub const RESERVED_ROWS: usize = 1_000_000;

/// A trade, as it is recorded.
#[derive(Debug)]
pub struct TickRecord {
    pub timestamp_ms: u64,
    pub price: Real,
    pub size: Real,
    pub side: String,
    pub inst_id: String,
}

/// The contents of a recorded trade.
pub struct TickRow {
    pub timestamp_ms: u64,
    pub price: Real,
    pub size: Real,
    pub side: Seq<char>,
    pub inst_id: Seq<char>,
}

impl View for TickRecord {
    type V = TickRow;

    open spec fn view(&self) -> TickRow {
        TickRow {
            timestamp_ms: self.timestamp_ms,
            price: self.price,
            size: self.size,
            side: self.side@,
            inst_id: self.inst_id@,
        }
    }
}

/// An order book, as it is recorded: five levels of each side, best first. A level that is
/// missing is all zeros.
#[derive(Debug)]
pub struct BookRecord {
    pub timestamp_ms: u64,
    pub inst_id: String,
    pub bid_prices: [Real; 5],
    pub bid_sizes: [Real; 5],
    pub ask_prices: [Real; 5],
    pub ask_sizes: [Real; 5],
}

/// The contents of a recorded order book.
pub struct BookRow {
    pub timestamp_ms: u64,
    pub inst_id: Seq<char>,
    pub bid_prices: Seq<Real>,
    pub bid_sizes: Seq<Real>,
    pub ask_prices: Seq<Real>,
    pub ask_sizes: Seq<Real>,
}

impl View for BookRecord {
    type V = BookRow;

    open spec fn view(&self) -> BookRow {
        BookRow {
            timestamp_ms: self.timestamp_ms,
            inst_id: self.inst_id@,
            bid_prices: self.bid_prices@,
            bid_sizes: self.bid_sizes@,
            ask_prices: self.ask_prices@,
            ask_sizes: self.ask_sizes@,
        }
    }
}

/// Where and how often to write.
#[derive(Debug)]
pub struct PersistenceConfig {
    /// Directory of the files.
    pub output_dir: String,
    pub trade_buffer_size: usize,
    pub book_buffer_size: usize,
    /// Longest time between two files, in seconds.
    pub flush_interval_secs: u64,
    pub channel_capacity: usize,
}

/// The size that a variable sets.
pub open spec fn size_or(value: Option<String>, usual: usize) -> usize {
    match value {
        Some(s) => match parsed_u64(s@) {
            Some(n) => if n <= usize::MAX { n as usize } else { usual },
            None => usual,
        },
        None => usual,
    }
}

/// The seconds that a variable sets.
pub open spec fn secs_or(value: Option<String>, usual: u64) -> u64 {
    match value {
        Some(s) => match parsed_u64(s@) {
            Some(n) => n,
            None => usual,
        },
        None => usual,
    }
}

/// The size that a variable sets.
fn size_setting(value: &Option<String>, usual: usize) -> (r: usize)
    ensures
        r == size_or(*value, usual),
{
    match value {
        Some(s) => match parse_u64(s.as_str()) {
            Some(n) => if n <= usize::MAX as u64 { n as usize } else { usual },
            None => usual,
        },
        None => usual,
    }
}

/// The seconds that a variable sets, or the usual ones where it is not set or no number.
pub fn secs_setting(value: &Option<String>, usual: u64) -> (r: u64)
    ensures
        r == secs_or(*value, usual),
{
    match value {
        Some(s) => match parse_u64(s.as_str()) {
            Some(n) => n,
            None => usual,
        },
        None => usual,
    }
}

impl PersistenceConfig {
    /// The settings that the environment gives: `AUGUR_PERSISTENCE_TRADE_BUFFER`,
    /// `AUGUR_PERSISTENCE_BOOK_BUFFER` and `AUGUR_PERSISTENCE_FLUSH_INTERVAL_SECS`, each where it
    /// is set.
    pub fn from_env(
        path: &str,
        trade_buffer: Option<String>,
        book_buffer: Option<String>,
        flush_interval: Option<String>,
    ) -> (r: Self)
        ensures
            r.output_dir@ == path@,
            r.trade_buffer_size == size_or(trade_buffer, DEFAULT_TRADE_BUFFER),
            r.book_buffer_size == size_or(book_buffer, DEFAULT_BOOK_BUFFER),
            r.flush_interval_secs == secs_or(flush_interval, DEFAULT_FLUSH_INTERVAL_SECS),
            r.channel_capacity == CHANNEL_CAPACITY,
    {
        PersistenceConfig {
            output_dir: path.to_owned(),
            trade_buffer_size: size_setting(&trade_buffer, DEFAULT_TRADE_BUFFER),
            book_buffer_size: size_setting(&book_buffer, DEFAULT_BOOK_BUFFER),
            flush_interval_secs: secs_setting(&flush_interval, DEFAULT_FLUSH_INTERVAL_SECS),
            channel_capacity: CHANNEL_CAPACITY,
        }
    }
}

/// What a column holds.
#[derive(Debug, Clone, Copy, PartialEq, Eq, Structural)]
pub enum ColumnKind {
    Integers,
    Numbers,
    Texts,
}

/// The values of a column, one for each row.
#[derive(Debug)]
pub enum Column {
    Integers(Vec<u64>),
    Numbers(Vec<Real>),
    Texts(Vec<String>),
}

/// The contents of a column.
pub enum ColumnView {
    Integers(Seq<u64>),
    Numbers(Seq<Real>),
    Texts(Seq<Seq<char>>),
}

impl View for Column {
    type V = ColumnView;

    open spec fn view(&self) -> ColumnView {
        match self {
            Column::Integers(v) => ColumnView::Integers(v@),
            Column::Numbers(v) => ColumnView::Numbers(v@),
            Column::Texts(v) => ColumnView::Texts(Seq::new(v@.len(), |i: int| v@[i]@)),
        }
    }
}

/// The contents of some columns.
pub open spec fn column_views(columns: Seq<Column>) -> Seq<ColumnView> {
    Seq::new(columns.len(), |i: int| columns[i]@)
}

/// The names and kinds of some columns.
pub open spec fn schema_of(columns: Seq<(String, ColumnKind)>) -> Seq<(Seq<char>, ColumnKind)> {
    Seq::new(columns.len(), |i: int| (columns[i].0@, columns[i].1))
}

/// What all buffers of records can do.
pub trait BufferOps: Sized {
    /// The contents of a record.
    type Row;

    spec fn wf(&self) -> bool;

    /// The records, in the order in which they came.
    spec fn rows(&self) -> Seq<Self::Row>;

    fn len(&self) -> (r: usize)
        requires
            self.wf(),
        ensures
            r == self.rows().len(),
    ;

    fn is_empty(&self) -> (r: bool)
        requires
            self.wf(),
        ensures
            r == (self.rows().len() == 0),
    {
        self.len() == 0
    }

    fn is_full(&self, capacity: usize) -> (r: bool)
        requires
            self.wf(),
        ensures
            r == (self.rows().len() >= capacity),
    {
        self.len() >= capacity
    }

    /// Takes out all records, and leaves an empty buffer with room for `capacity` of them.
    fn drain(&mut self, capacity: usize) -> (r: Self)
        requires
            old(self).wf(),
        ensures
            r.wf(),
            r.rows() == old(self).rows(),
            final(self).wf(),
            final(self).rows() == Seq::<Self::Row>::empty(),
    ;
}

/// Trades that wait to be written, column by column.
pub struct TickBuffer {
    timestamp_ms: Vec<u64>,
    price: Vec<Real>,
    size: Vec<Real>,
    side: Vec<String>,
    inst_id: Vec<String>,
}

/// The rows to make room for: as many as the buffer is to hold, up to a bound.
fn reserved(capacity: usize) -> (r: usize)
    ensures
        r == if capacity <= RESERVED_ROWS { capacity } else { RESERVED_ROWS },
{
    if capacity <= RESERVED_ROWS { capacity } else { RESERVED_ROWS }
}

impl BufferOps for TickBuffer {
    type Row = TickRow;

    closed spec fn wf(&self) -> bool {
        &&& self.price@.len() == self.timestamp_ms@.len()
        &&& self.size@.len() == self.timestamp_ms@.len()
        &&& self.side@.len() == self.timestamp_ms@.len()
        &&& self.inst_id@.len() == self.timestamp_ms@.len()
    }

    closed spec fn rows(&self) -> Seq<TickRow> {
        Seq::new(
            self.timestamp_ms@.len(),
            |i: int|
                TickRow {
                    timestamp_ms: self.timestamp_ms@[i],
                    price: self.price@[i],
                    size: self.size@[i],
                    side: self.side@[i]@,
                    inst_id: self.inst_id@[i]@,
                },
        )
    }

    fn len(&self) -> (r: usize) {
        self.timestamp_ms.len()
    }

    fn drain(&mut self, capacity: usize) -> (r: Self) {
        let mut taken = TickBuffer::empty(capacity);
        std::mem::swap(self, &mut taken);
        taken
    }
}

impl TickBuffer {
    fn empty(capacity: usize) -> (r: Self)
        ensures
            r.wf(),
            r.rows() == Seq::<TickRow>::empty(),
    {
        let n: usize = reserved(capacity);
        let r = TickBuffer {
            timestamp_ms: Vec::with_capacity(n),
            price: Vec::with_capacity(n),
            size: Vec::with_capacity(n),
            side: Vec::with_capacity(n),
            inst_id: Vec::with_capacity(n),
        };
        assert(r.rows() =~= Seq::<TickRow>::empty());
        r
    }
}

/// Order books that wait to be written.
pub struct BookBuffer {
    records: Vec<BookRecord>,
}

impl BufferOps for BookBuffer {
    type Row = BookRow;

    closed spec fn wf(&self) -> bool {
        true
    }

    closed spec fn rows(&self) -> Seq<BookRow> {
        Seq::new(self.records@.len(), |i: int| self.records@[i]@)
    }

    fn len(&self) -> (r: usize) {
        self.records.len()
    }

    fn drain(&mut self, capacity: usize) -> (r: Self) {
        let mut taken = BookBuffer::empty(capacity);
        std::mem::swap(self, &mut taken);
        taken
    }
}

impl BookBuffer {
    fn empty(capacity: usize) -> (r: Self)
        ensures
            r.wf(),
            r.rows() == Seq::<BookRow>::empty(),
    {
        let r = BookBuffer { records: Vec::with_capacity(reserved(capacity)) };
        assert(r.rows() =~= Seq::<BookRow>::empty());
        r
    }
}

/// A kind of record that is written to files of its own.
pub trait Writable: Sized {
    type Buffer: BufferOps;

    /// The contents of a record.
    spec fn row(&self) -> <Self::Buffer as BufferOps>::Row;

    /// How the names of the files begin.
    spec fn prefix() -> Seq<char>;

    /// The names and kinds of the columns.
    spec fn columns() -> Seq<(Seq<char>, ColumnKind)>;

    /// The values of the columns.
    spec fn table(rows: Seq<<Self::Buffer as BufferOps>::Row>) -> Seq<ColumnView>;

    fn file_prefix() -> (r: &'static str)
        ensures
            r@ == Self::prefix(),
    ;

    fn schema() -> (r: Vec<(String, ColumnKind)>)
        ensures
            schema_of(r@) == Self::columns(),
    ;

    fn new_buffer(capacity: usize) -> (r: Self::Buffer)
        ensures
            r.wf(),
            r.rows() == Seq::<<Self::Buffer as BufferOps>::Row>::empty(),
    ;

    fn push(buffer: &mut Self::Buffer, record: Self)
        requires
            old(buffer).wf(),
        ensures
            final(buffer).wf(),
            final(buffer).rows() == old(buffer).rows().push(record.row()),
    ;

    /// The columns of a buffer, in the order of the schema.
    fn into_batch(buffer: Self::Buffer) -> (r: Vec<Column>)
        requires
            buffer.wf(),
        ensures
            column_views(r@) == Self::table(buffer.rows()),
    ;
}

/// The columns of trades.
pub open spec fn tick_columns() -> Seq<(Seq<char>, ColumnKind)> {
    seq![
        ("timestamp_ms"@, ColumnKind::Integers),
        ("price"@, ColumnKind::Numbers),
        ("size"@, ColumnKind::Numbers),
        ("side"@, ColumnKind::Texts),
        ("inst_id"@, ColumnKind::Texts),
    ]
}

/// The values of the columns of trades.
pub open spec fn tick_table(rows: Seq<TickRow>) -> Seq<ColumnView> {
    seq![
        ColumnView::Integers(Seq::new(rows.len(), |i: int| rows[i].timestamp_ms)),
        ColumnView::Numbers(Seq::new(rows.len(), |i: int| rows[i].price)),
        ColumnView::Numbers(Seq::new(rows.len(), |i: int| rows[i].size)),
        ColumnView::Texts(Seq::new(rows.len(), |i: int| rows[i].side)),
        ColumnView::Texts(Seq::new(rows.len(), |i: int| rows[i].inst_id)),
    ]
}

impl Writable for TickRecord {
    type Buffer = TickBuffer;

    open spec fn row(&self) -> TickRow {
        self@
    }

    open spec fn prefix() -> Seq<char> {
        "BTC-USDT-SWAP_trades"@
    }

    open spec fn columns() -> Seq<(Seq<char>, ColumnKind)> {
        tick_columns()
    }

    open spec fn table(rows: Seq<TickRow>) -> Seq<ColumnView> {
        tick_table(rows)
    }

    fn file_prefix() -> (r: &'static str) {
        "BTC-USDT-SWAP_trades"
    }

    fn schema() -> (r: Vec<(String, ColumnKind)>) {
        let mut r: Vec<(String, ColumnKind)> = Vec::new();
        r.push(("timestamp_ms".to_owned(), ColumnKind::Integers));
        r.push(("price".to_owned(), ColumnKind::Numbers));
        r.push(("size".to_owned(), ColumnKind::Numbers));
        r.push(("side".to_owned(), ColumnKind::Texts));
        r.push(("inst_id".to_owned(), ColumnKind::Texts));
        assert(schema_of(r@) =~= tick_columns());
        r
    }

    fn new_buffer(capacity: usize) -> (r: TickBuffer) {
        TickBuffer::empty(capacity)
    }

    fn push(buffer: &mut TickBuffer, record: Self) {
        let ghost before = buffer.rows();
        let ghost row = record@;
        buffer.timestamp_ms.push(record.timestamp_ms);
        buffer.price.push(record.price);
        buffer.size.push(record.size);
        buffer.side.push(record.side);
        buffer.inst_id.push(record.inst_id);
        assert(buffer.rows() =~= before.push(row));
    }

    fn into_batch(buffer: TickBuffer) -> (r: Vec<Column>) {
        let ghost rows = buffer.rows();
        let mut r: Vec<Column> = Vec::new();
        proof {
            let expected = tick_table(rows);
            assert(ColumnView::Integers(buffer.timestamp_ms@) == expected[0]) by {
                assert(buffer.timestamp_ms@ =~= Seq::new(rows.len(), |i: int| rows[i].timestamp_ms));
            }
            assert(ColumnView::Numbers(buffer.price@) == expected[1]) by {
                assert(buffer.price@ =~= Seq::new(rows.len(), |i: int| rows[i].price));
            }
            assert(ColumnView::Numbers(buffer.size@) == expected[2]) by {
                assert(buffer.size@ =~= Seq::new(rows.len(), |i: int| rows[i].size));
            }
            assert(Column::Texts(buffer.side)@ == expected[3]) by {
                assert(Seq::new(buffer.side@.len(), |i: int| buffer.side@[i]@) =~= Seq::new(
                    rows.len(),
                    |i: int| rows[i].side,
                ));
            }
            assert(Column::Texts(buffer.inst_id)@ == expected[4]) by {
                assert(Seq::new(buffer.inst_id@.len(), |i: int| buffer.inst_id@[i]@) =~= Seq::new(
                    rows.len(),
                    |i: int| rows[i].inst_id,
                ));
            }
        }
        r.push(Column::Integers(buffer.timestamp_ms));
        r.push(Column::Numbers(buffer.price));
        r.push(Column::Numbers(buffer.size));
        r.push(Column::Texts(buffer.side));
        r.push(Column::Texts(buffer.inst_id));
        assert(column_views(r@) =~= tick_table(rows));
        r
    }
}

/// The four lists of numbers of an order book.
#[derive(Debug, Clone, Copy, PartialEq, Eq, Structural)]
pub enum Ladder {
    BidPrices,
    BidSizes,
    AskPrices,
    AskSizes,
}

impl Ladder {
    /// How the names of its columns begin.
    pub open spec fn stem(self) -> Seq<char> {
        match self {
            Ladder::BidPrices => "bid_price_"@,
            Ladder::BidSizes => "bid_size_"@,
            Ladder::AskPrices => "ask_price_"@,
            Ladder::AskSizes => "ask_size_"@,
        }
    }

    /// Its numbers.
    pub open spec fn of(self, row: BookRow) -> Seq<Real> {
        match self {
            Ladder::BidPrices => row.bid_prices,
            Ladder::BidSizes => row.bid_sizes,
            Ladder::AskPrices => row.ask_prices,
            Ladder::AskSizes => row.ask_sizes,
        }
    }

    /// The lists in the order of their columns.
    pub open spec fn nth(i: int) -> Ladder {
        if i == 0 {
            Ladder::BidPrices
        } else if i == 1 {
            Ladder::BidSizes
        } else if i == 2 {
            Ladder::AskPrices
        } else {
            Ladder::AskSizes
        }
    }

    fn stem_text(self) -> (r: &'static str)
        ensures
            r@ == self.stem(),
    {
        match self {
            Ladder::BidPrices => "bid_price_",
            Ladder::BidSizes => "bid_size_",
            Ladder::AskPrices => "ask_price_",
            Ladder::AskSizes => "ask_size_",
        }
    }

    fn at(i: usize) -> (r: Ladder)
        ensures
            r == Ladder::nth(i as int),
    {
        if i == 0 {
            Ladder::BidPrices
        } else if i == 1 {
            Ladder::BidSizes
        } else if i == 2 {
            Ladder::AskPrices
        } else {
            Ladder::AskSizes
        }
    }
}

/// The name of the column of a level.
pub open spec fn level_column(ladder: Ladder, level: nat) -> Seq<char> {
    ladder.stem() + decimal(level)
}

/// The columns of order books: time, instrument, then each list of five levels.
pub open spec fn book_columns() -> Seq<(Seq<char>, ColumnKind)> {
    Seq::new(
        22,
        |j: int|
            if j == 0 {
                ("timestamp_ms"@, ColumnKind::Integers)
            } else if j == 1 {
                ("inst_id"@, ColumnKind::Texts)
            } else {
                (
                    level_column(Ladder::nth((j - 2) / 5), ((j - 2) % 5) as nat),
                    ColumnKind::Numbers,
                )
            },
    )
}

/// The numbers of one level of one list.
pub open spec fn level_values(rows: Seq<BookRow>, ladder: Ladder, level: int) -> Seq<Real> {
    Seq::new(rows.len(), |i: int| ladder.of(rows[i])[level])
}

/// The values of the columns of order books.
pub open spec fn book_table(rows: Seq<BookRow>) -> Seq<ColumnView> {
    Seq::new(
        22,
        |j: int|
            if j == 0 {
                ColumnView::Integers(Seq::new(rows.len(), |i: int| rows[i].timestamp_ms))
            } else if j == 1 {
                ColumnView::Texts(Seq::new(rows.len(), |i: int| rows[i].inst_id))
            } else {
                ColumnView::Numbers(level_values(rows, Ladder::nth((j - 2) / 5), (j - 2) % 5))
            },
    )
}

impl BookBuffer {
    /// The numbers of one level of one list.
    fn level(&self, ladder: Ladder, level: usize) -> (r: Vec<Real>)
        requires
            level < 5,
        ensures
            r@ == level_values(self.rows(), ladder, level as int),
    {
        let mut r: Vec<Real> = Vec::new();
        let mut i: usize = 0;
        while i < self.records.len()
            invariant
                i <= self.records.len(),
                level < 5,
                r@ == level_values(self.rows(), ladder, level as int).take(i as int),
            decreases self.records.len() - i,
        {
            let record = &self.records[i];
            let x: Real = match ladder {
                Ladder::BidPrices => record.bid_prices[level],
                Ladder::BidSizes => record.bid_sizes[level],
                Ladder::AskPrices => record.ask_prices[level],
                Ladder::AskSizes => record.ask_sizes[level],
            };
            proof {
                let all = level_values(self.rows(), ladder, level as int);
                assert(self.rows()[i as int] == self.records@[i as int]@);
                assert(all.take(i + 1) =~= all.take(i as int).push(all[i as int]));
            }
            r.push(x);
            i = i + 1;
        }
        proof {
            let all = level_values(self.rows(), ladder, level as int);
            assert(all.take(i as int) =~= all);
        }
        r
    }
}

impl Writable for BookRecord {
    type Buffer = BookBuffer;

    open spec fn row(&self) -> BookRow {
        self@
    }

    open spec fn prefix() -> Seq<char> {
        "BTC-USDT-SWAP_books"@
    }

    open spec fn columns() -> Seq<(Seq<char>, ColumnKind)> {
        book_columns()
    }

    open spec fn table(rows: Seq<BookRow>) -> Seq<ColumnView> {
        book_table(rows)
    }

    fn file_prefix() -> (r: &'static str) {
        "BTC-USDT-SWAP_books"
    }

    fn schema() -> (r: Vec<(String, ColumnKind)>) {
        let mut r: Vec<(String, ColumnKind)> = Vec::new();
        r.push(("timestamp_ms".to_owned(), ColumnKind::Integers));
        r.push(("inst_id".to_owned(), ColumnKind::Texts));
        let mut j: usize = 0;
        while j < 20
            invariant
                j <= 20,
                r@.len() == j + 2,
                forall|k: int|
                    0 <= k < r@.len() ==> (#[trigger] r@[k]).0@ == book_columns()[k].0 && r@[k].1
                        == book_columns()[k].1,
            decreases 20 - j,
        {
            let mut name = Ladder::at(j / 5).stem_text().to_owned();
            name.append(decimal_text((j % 5) as u64).as_str());
            r.push((name, ColumnKind::Numbers));
            j = j + 1;
        }
        assert(schema_of(r@) =~= book_columns());
        r
    }

    fn new_buffer(capacity: usize) -> (r: BookBuffer) {
        BookBuffer::empty(capacity)
    }

    fn push(buffer: &mut BookBuffer, record: Self) {
        let ghost before = buffer.rows();
        let ghost row = record@;
        buffer.records.push(record);
        assert(buffer.rows() =~= before.push(row));
    }

    fn into_batch(buffer: BookBuffer) -> (r: Vec<Column>) {
        let ghost rows = buffer.rows();
        let ghost expected = book_table(rows);
        let mut times: Vec<u64> = Vec::new();
        let mut ids: Vec<String> = Vec::new();
        let mut i: usize = 0;
        while i < buffer.records.len()
            invariant
                i <= buffer.records.len(),
                rows == buffer.rows(),
                times@.len() == i,
                ids@.len() == i,
                forall|k: int|
                    0 <= k < i ==> #[trigger] times@[k] == rows[k].timestamp_ms,
                forall|k: int| 0 <= k < i ==> (#[trigger] ids@[k])@ == rows[k].inst_id,
            decreases buffer.records.len() - i,
        {
            let record = &buffer.records[i];
            assert(rows[i as int] == record@);
            times.push(record.timestamp_ms);
            ids.push(record.inst_id.clone());
            i = i + 1;
        }
        let mut r: Vec<Column> = Vec::new();
        proof {
            assert(times@ =~= Seq::new(rows.len(), |i: int| rows[i].timestamp_ms));
            assert(Seq::new(ids@.len(), |i: int| ids@[i]@) =~= Seq::new(
                rows.len(),
                |i: int| rows[i].inst_id,
            ));
        }
        r.push(Column::Integers(times));
        r.push(Column::Texts(ids));
        assert(r@[0]@ == expected[0]);
        assert(r@[1]@ == expected[1]);
        let mut j: usize = 0;
        while j < 20
            invariant
                j <= 20,
                rows == buffer.rows(),
                expected == book_table(rows),
                r@.len() == j + 2,
                forall|k: int| 0 <= k < r@.len() ==> (#[trigger] r@[k])@ == expected[k],
            decreases 20 - j,
        {
            r.push(Column::Numbers(buffer.level(Ladder::at(j / 5), j % 5)));
            j = j + 1;
        }
        assert(column_views(r@) =~= expected);
        r
    }
}

/// The name of a file: what it holds and when it was written, to the nanosecond.
pub open spec fn file_name_of(prefix: Seq<char>, time: Seq<char>, nanos: u32) -> Seq<char> {
    prefix + "_"@ + time + "_"@ + padded(nanos as nat, 9) + ".parquet"@
}

/// The name of a file that is written at a time. There is none at a time that the calendar does
/// not reach.
pub fn file_name(prefix: &str, secs: i64, nanos: u32) -> (r: Option<String>)
    requires
        nanos < 1_000_000_000,
    ensures
        match (r, utc_formatted(secs, nanos, file_format())) {
            (Some(s), Some(time)) => s@ == file_name_of(prefix@, time, nanos),
            (None, None) => true,
            _ => false,
        },
{
    match file_time(secs, nanos) {
        Some(time) => Some(file_name_at(prefix, time.as_str(), nanos)),
        None => None,
    }
}

/// The name of a file, from its time.
pub fn file_name_at(prefix: &str, time: &str, nanos: u32) -> (s: String)
    ensures
        s@ == file_name_of(prefix@, time@, nanos),
{
    let mut s = prefix.to_owned();
    s.append("_");
    s.append(time);
    s.append("_");
    push_padded(&mut s, nanos as u64, 9);
    s.append(".parquet");
    s
}

/// The columns of a buffer and how many rows they have: what is written to one file.
pub fn flush_batch<R: Writable>(buffer: R::Buffer) -> (r: (Vec<Column>, usize))
    requires
        buffer.wf(),
    ensures
        column_views(r.0@) == R::table(buffer.rows()),
        r.1 == buffer.rows().len(),
{
    let rows: usize = buffer.len();
    (R::into_batch(buffer), rows)
}

/// A record on its way into files.
pub struct Writer<R: Writable> {
    buffer: R::Buffer,
    capacity: usize,
    total_written: u64,
    files_written: u64,
}

impl<R: Writable> Writer<R> {
    pub closed spec fn wf(&self) -> bool {
        self.buffer.wf()
    }

    /// The records that are not written yet.
    pub closed spec fn waiting(&self) -> Seq<<R::Buffer as BufferOps>::Row> {
        self.buffer.rows()
    }

    /// Records that are collected before they are written.
    pub closed spec fn spec_capacity(&self) -> usize {
        self.capacity
    }

    /// Records that were written.
    pub closed spec fn spec_total_written(&self) -> u64 {
        self.total_written
    }

    /// Files that were written.
    pub closed spec fn spec_files_written(&self) -> u64 {
        self.files_written
    }

    pub fn new(capacity: usize) -> (r: Self)
        ensures
            r.wf(),
            r.waiting() == Seq::<<R::Buffer as BufferOps>::Row>::empty(),
            r.spec_capacity() == capacity,
            r.spec_total_written() == 0,
            r.spec_files_written() == 0,
    {
        Writer { buffer: R::new_buffer(capacity), capacity, total_written: 0, files_written: 0 }
    }

    /// Takes in a record. Hands out the collected ones when there are enough of them.
    pub fn record(&mut self, record: R) -> (r: Option<R::Buffer>)
        requires
            old(self).wf(),
        ensures
            final(self).wf(),
            final(self).spec_capacity() == old(self).spec_capacity(),
            final(self).spec_total_written() == old(self).spec_total_written(),
            final(self).spec_files_written() == old(self).spec_files_written(),
            ({
                let all = old(self).waiting().push(record.row());
                match r {
                    Some(b) => all.len() >= old(self).spec_capacity() && b.wf() && b.rows() == all
                        && final(self).waiting() == all.take(0),
                    None => all.len() < old(self).spec_capacity() && final(self).waiting() == all,
                }
            }),
    {
        R::push(&mut self.buffer, record);
        let capacity: usize = self.capacity;
        if self.buffer.is_full(capacity) {
            let taken = self.buffer.drain(capacity);
            assert(self.buffer.rows() =~= taken.rows().take(0));
            Some(taken)
        } else {
            None
        }
    }

    /// Hands out the collected records, where there are any: when the interval has elapsed, and
    /// at the end.
    pub fn flush(&mut self) -> (r: Option<R::Buffer>)
        requires
            old(self).wf(),
        ensures
            final(self).wf(),
            final(self).spec_capacity() == old(self).spec_capacity(),
            final(self).spec_total_written() == old(self).spec_total_written(),
            final(self).spec_files_written() == old(self).spec_files_written(),
            final(self).waiting() == old(self).waiting().take(0),
            match r {
                Some(b) => old(self).waiting().len() > 0 && b.wf() && b.rows() == old(self).waiting(),
                None => old(self).waiting().len() == 0,
            },
    {
        let ghost before = self.buffer.rows();
        if self.buffer.is_empty() {
            assert(before =~= before.take(0));
            None
        } else {
            let capacity: usize = self.capacity;
            let taken = self.buffer.drain(capacity);
            assert(self.buffer.rows() =~= before.take(0));
            Some(taken)
        }
    }

    /// Counts a file that was written.
    pub fn written(&mut self, rows: u64)
        requires
            old(self).wf(),
            old(self).spec_total_written() + rows <= u64::MAX,
            old(self).spec_files_written() < u64::MAX,
        ensures
            final(self).wf(),
            final(self).waiting() == old(self).waiting(),
            final(self).spec_capacity() == old(self).spec_capacity(),
            final(self).spec_total_written() == old(self).spec_total_written() + rows,
            final(self).spec_files_written() == old(self).spec_files_written() + 1,
    {
        self.total_written = self.total_written + rows;
        self.files_written = self.files_written + 1;
    }

    pub fn total_written(&self) -> (r: u64)
        ensures
            r == self.spec_total_written(),
    {
        self.total_written
    }

    pub fn files_written(&self) -> (r: u64)
        ensures
            r == self.spec_files_written(),
    {
        self.files_written
    }
}

/// What a writer is told.
pub enum WriterInput<Row> {
    /// A record.
    Record(Row),
    /// The interval has elapsed, or this is the end.
    Flush,
}

/// What a writer has done: the batches that it handed out, and what it still holds.
pub struct Written<Row> {
    pub batches: Seq<Seq<Row>>,
    pub waiting: Seq<Row>,
}

/// What a writer does: `record` and `flush`, one after the other.
pub open spec fn written_of<Row>(capacity: nat, inputs: Seq<WriterInput<Row>>) -> Written<Row>
    decreases inputs.len(),
{
    if inputs.len() == 0 {
        Written { batches: Seq::empty(), waiting: Seq::empty() }
    } else {
        let before = written_of(capacity, inputs.drop_last());
        let (all, full) = match inputs.last() {
            WriterInput::Record(row) => {
                let all = before.waiting.push(row);
                (all, all.len() >= capacity)
            },
            WriterInput::Flush => (before.waiting, before.waiting.len() > 0),
        };
        if full {
            Written { batches: before.batches.push(all), waiting: all.take(0) }
        } else {
            Written { batches: before.batches, waiting: all }
        }
    }
}

/// The records that a writer was given.
pub open spec fn records_of<Row>(inputs: Seq<WriterInput<Row>>) -> Seq<Row>
    decreases inputs.len(),
{
    if inputs.len() == 0 {
        Seq::empty()
    } else {
        let before = records_of(inputs.drop_last());
        match inputs.last() {
            WriterInput::Record(row) => before.push(row),
            WriterInput::Flush => before,
        }
    }
}

/// Some batches, one after the other.
pub open spec fn joined<Row>(batches: Seq<Seq<Row>>) -> Seq<Row>
    decreases batches.len(),
{
    if batches.len() == 0 {
        Seq::empty()
    } else {
        joined(batches.drop_last()) + batches.last()
    }
}

/// A level of an order book, all zeros where there is none.
pub open spec fn level_or_zero(levels: Seq<BookLevel>, i: int) -> BookLevel {
    if i < levels.len() {
        levels[i]
    } else {
        BookLevel { price: Real::from_u64(0), size: Real::from_u64(0) }
    }
}

/// The prices and the sizes of the best five levels.
fn best_five(levels: &Vec<BookLevel>) -> (r: ([Real; 5], [Real; 5]))
    ensures
        forall|i: int|
            0 <= i < 5 ==> #[trigger] r.0@[i] == level_or_zero(levels@, i).price && r.1@[i]
                == level_or_zero(levels@, i).size,
{
    let zero: Real = Real::from_u64(0);
    let mut prices: [Real; 5] = [zero, zero, zero, zero, zero];
    let mut sizes: [Real; 5] = [zero, zero, zero, zero, zero];
    let mut i: usize = 0;
    while i < 5 && i < levels.len()
        invariant
            i <= 5,
            i <= levels.len(),
            zero == Real::from_u64(0),
            forall|k: int|
                0 <= k < 5 ==> #[trigger] prices@[k] == (if k < i { levels@[k].price } else { zero }),
            forall|k: int|
                0 <= k < 5 ==> #[trigger] sizes@[k] == (if k < i { levels@[k].size } else { zero }),
        decreases 5 - i,
    {
        prices[i] = levels[i].price;
        sizes[i] = levels[i].size;
        i = i + 1;
    }
    (prices, sizes)
}

/// An order book as it is recorded: its best five levels of each side, filled up with zeros.
pub fn book_record_from_update(book: &OrderBookUpdate) -> (r: BookRecord)
    ensures
        r.timestamp_ms == book.timestamp_ms,
        r.inst_id@ == book.inst_id@,
        forall|i: int|
            0 <= i < 5 ==> #[trigger] r.bid_prices@[i] == level_or_zero(book.bids@, i).price,
        forall|i: int|
            0 <= i < 5 ==> #[trigger] r.bid_sizes@[i] == level_or_zero(book.bids@, i).size,
        forall|i: int|
            0 <= i < 5 ==> #[trigger] r.ask_prices@[i] == level_or_zero(book.asks@, i).price,
        forall|i: int|
            0 <= i < 5 ==> #[trigger] r.ask_sizes@[i] == level_or_zero(book.asks@, i).size,
{
    let (bid_prices, bid_sizes) = best_five(&book.bids);
    let (ask_prices, ask_sizes) = best_five(&book.asks);
    let r = BookRecord {
        timestamp_ms: book.timestamp_ms,
        inst_id: book.inst_id.clone(),
        bid_prices,
        bid_sizes,
        ask_prices,
        ask_sizes,
    };
    assert forall|i: int| 0 <= i < 5 implies #[trigger] r.bid_sizes@[i] == level_or_zero(
        book.bids@,
        i,
    ).size by {
        assert(bid_prices@[i] == level_or_zero(book.bids@, i).price);
    }
    assert forall|i: int| 0 <= i < 5 implies #[trigger] r.ask_sizes@[i] == level_or_zero(
        book.asks@,
        i,
    ).size by {
        assert(ask_prices@[i] == level_or_zero(book.asks@, i).price);
    }
    r
}

/// No record is lost, written twice or moved: what was handed out, and then what is still held,
/// are the records in the order in which they came.
pub proof fn law_every_record_is_written_once<Row>(capacity: nat, inputs: Seq<WriterInput<Row>>)
    ensures
        ({
            let w = written_of(capacity, inputs);
            joined(w.batches) + w.waiting == records_of(inputs)
        }),
    decreases inputs.len(),
{
    let w = written_of(capacity, inputs);
    if inputs.len() > 0 {
        law_every_record_is_written_once(capacity, inputs.drop_last());
        let before = written_of(capacity, inputs.drop_last());
        let all = match inputs.last() {
            WriterInput::Record(row) => before.waiting.push(row),
            WriterInput::Flush => before.waiting,
        };
        assert(joined(before.batches) + all =~= records_of(inputs));
        assert(before.batches.push(all).drop_last() =~= before.batches);
        assert(joined(before.batches.push(all)) == joined(before.batches) + all);
        assert(joined(w.batches) + w.waiting =~= records_of(inputs));
    } else {
        assert(joined(w.batches) + w.waiting =~= records_of(inputs));
    }
}

/// A flush at the end leaves nothing behind.
pub proof fn law_last_flush_writes_all<Row>(capacity: nat, inputs: Seq<WriterInput<Row>>)
    requires
        inputs.len() > 0,
        inputs.last() is Flush,
    ensures
        joined(written_of(capacity, inputs).batches) == records_of(inputs),
        written_of(capacity, inputs).waiting.len() == 0,
{
    law_every_record_is_written_once(capacity, inputs);
    let w = written_of(capacity, inputs);
    assert(joined(w.batches) + w.waiting =~= joined(w.batches));
}

/// Every batch has a record, and none has more than the buffer takes.
pub proof fn law_batches_are_bounded<Row>(capacity: nat, inputs: Seq<WriterInput<Row>>)
    requires
        capacity > 0,
    ensures
        ({
            let w = written_of(capacity, inputs);
            &&& w.waiting.len() < capacity
            &&& forall|i: int|
                0 <= i < w.batches.len() ==> 0 < (#[trigger] w.batches[i]).len() <= capacity
        }),
    decreases inputs.len(),
{
    if inputs.len() > 0 {
        law_batches_are_bounded(capacity, inputs.drop_last());
    }
}

/// Between two flushes every batch is full: records without a flush among them make batches of
/// exactly as many as the buffer takes, whatever came before. A flush after them hands out what is
/// left as one more batch, if anything is left.
pub proof fn law_batches_are_full<Row>(
    capacity: nat,
    before: Seq<WriterInput<Row>>,
    records: Seq<WriterInput<Row>>,
)
    requires
        capacity > 0,
        forall|i: int| 0 <= i < records.len() ==> (#[trigger] records[i]) is Record,
    ensures
        ({
            let first = written_of(capacity, before);
            let after = written_of(capacity, before + records);
            let flushed = written_of(capacity, (before + records).push(WriterInput::Flush));
            &&& first.batches.is_prefix_of(after.batches)
            &&& forall|i: int|
                first.batches.len() <= i < after.batches.len() ==> (
                #[trigger] after.batches[i]).len() == capacity
            &&& flushed.batches == if after.waiting.len() > 0 {
                after.batches.push(after.waiting)
            } else {
                after.batches
            }
        }),
    decreases records.len(),
{
    let inputs = before + records;
    assert(inputs.push(WriterInput::Flush).drop_last() =~= inputs);
    if records.len() == 0 {
        assert(inputs =~= before);
    } else {
        let head = records.drop_last();
        assert forall|i: int| 0 <= i < head.len() implies (#[trigger] head[i]) is Record by {
            assert(head[i] == records[i]);
        }
        law_batches_are_full(capacity, before, head);
        law_batches_are_bounded(capacity, before + head);
        assert(inputs.drop_last() =~= before + head);
        assert(inputs.last() == records[records.len() - 1]);
    }
}

/// Two files that are written within one second have different names.
pub proof fn law_names_of_one_second_differ(
    prefix: Seq<char>,
    time: Seq<char>,
    a: u32,
    b: u32,
)
    requires
        a < 1_000_000_000,
        b < 1_000_000_000,
        a != b,
    ensures
        file_name_of(prefix, time, a) != file_name_of(prefix, time, b),
{
    lemma_padded_len(a as nat, 9);
    lemma_padded_len(b as nat, 9);
    let (x, y) = (file_name_of(prefix, time, a), file_name_of(prefix, time, b));
    let k = (prefix + "_"@ + time + "_"@).len() as int;
    if x == y {
        assert(x.subrange(k, k + 9) =~= padded(a as nat, 9));
        assert(y.subrange(k, k + 9) =~= padded(b as nat, 9));
        assert(pow10(9) == 1_000_000_000) by {
            reveal_with_fuel(pow10, 10);
        }
        lemma_padded_differs(a as nat, b as nat, 9);
    }
}

proof fn lemma_padded_len(n: nat, width: nat)
    ensures
        padded(n, width).len() == width,
    decreases width,
{
    if width > 0 {
        lemma_padded_len(n / 10, (width - 1) as nat);
    }
}

pub(crate) proof fn lemma_padded_differs(a: nat, b: nat, width: nat)
    requires
        a < pow10(width),
        b < pow10(width),
        padded(a, width) == padded(b, width),
    ensures
        a == b,
    decreases width,
{
    if width > 0 {
        let w = (width - 1) as nat;
        let (x, y) = (padded(a, width), padded(b, width));
        assert(x.drop_last() =~= padded(a / 10, w));
        assert(y.drop_last() =~= padded(b / 10, w));
        assert(x.last() == digit_char(a % 10) && y.last() == digit_char(b % 10));
        assert(pow10(width) == 10 * pow10(w));
        lemma_padded_differs(a / 10, b / 10, w);
    }
}

} // verus!
