use augur::corpus::discover_book_files;
use augur::corpus::discover_trade_files;
use augur::corpus::read_book_file;
use augur::corpus::read_trade_file;
use augur::number::Real;
use augur::persistence::book_record_from_update;
use augur::persistence::file_name;
use augur::persistence::flush_batch;
use augur::persistence::BookRecord;
use augur::persistence::BufferOps;
use augur::persistence::Column;
use augur::persistence::ColumnKind;
use augur::persistence::PersistenceConfig;
use augur::persistence::TickRecord;
use augur::persistence::Writable;
use augur::persistence::Writer;
use augur::ws_types::BookLevel;
use augur::ws_types::OrderBookUpdate;

fn num(x: f64) -> Real {
    Real { bits: x.to_bits() }
}

fn float(x: Real) -> f64 {
    f64::from_bits(x.bits)
}

fn sample_tick(ts: u64, px: f64) -> TickRecord {
    TickRecord {
        timestamp_ms: ts,
        price: num(px),
        size: num(0.01),
        side: "buy".to_string(),
        inst_id: "BTC-USDT-SWAP".to_string(),
    }
}

fn sample_book(ts: u64, mid: f64) -> BookRecord {
    let mut bid_prices = [num(0.0); 5];
    let mut bid_sizes = [num(0.0); 5];
    let mut ask_prices = [num(0.0); 5];
    let mut ask_sizes = [num(0.0); 5];
    for i in 0..5 {
        let lvl = i as f64;
        bid_prices[i] = num(mid - 0.5 - lvl);
        ask_prices[i] = num(mid + 0.5 + lvl);
        bid_sizes[i] = num(1.0 + lvl);
        ask_sizes[i] = num(1.0 + lvl);
    }
    BookRecord {
        timestamp_ms: ts,
        inst_id: "BTC-USDT-SWAP".to_string(),
        bid_prices,
        bid_sizes,
        ask_prices,
        ask_sizes,
    }
}

fn read(columns: Vec<Column>) -> Vec<Option<Column>> {
    columns.into_iter().map(Some).collect()
}

#[test]
fn tick_buffer_capacity_works() {
    let mut b = TickRecord::new_buffer(3);
    assert!(b.is_empty());
    TickRecord::push(&mut b, sample_tick(1, 100.0));
    TickRecord::push(&mut b, sample_tick(2, 101.0));
    assert!(!b.is_full(3));
    TickRecord::push(&mut b, sample_tick(3, 102.0));
    assert!(b.is_full(3));
}

#[test]
fn book_buffer_capacity_works() {
    let mut b = BookRecord::new_buffer(3);
    assert!(b.is_empty());
    BookRecord::push(&mut b, sample_book(1, 100.0));
    BookRecord::push(&mut b, sample_book(2, 101.0));
    assert!(!b.is_full(3));
    BookRecord::push(&mut b, sample_book(3, 102.0));
    assert!(b.is_full(3));
    assert_eq!(b.len(), 3);
}

#[test]
fn book_schema_has_22_columns() {
    let fields: Vec<String> = BookRecord::schema().into_iter().map(|f| f.0).collect();
    assert_eq!(fields.len(), 22);
    assert_eq!(fields[0], "timestamp_ms");
    assert_eq!(fields[1], "inst_id");
    assert_eq!(fields[2], "bid_price_0");
    assert_eq!(fields[6], "bid_price_4");
    assert_eq!(fields[7], "bid_size_0");
    assert_eq!(fields[12], "ask_price_0");
    assert_eq!(fields[17], "ask_size_0");
    assert_eq!(fields[21], "ask_size_4");
}

#[test]
fn tick_schema_names_its_columns() {
    assert_eq!(
        TickRecord::schema(),
        vec![
            ("timestamp_ms".to_string(), ColumnKind::Integers),
            ("price".to_string(), ColumnKind::Numbers),
            ("size".to_string(), ColumnKind::Numbers),
            ("side".to_string(), ColumnKind::Texts),
            ("inst_id".to_string(), ColumnKind::Texts),
        ],
    );
    assert_eq!(TickRecord::file_prefix(), "BTC-USDT-SWAP_trades");
    assert_eq!(BookRecord::file_prefix(), "BTC-USDT-SWAP_books");
}

#[test]
fn tick_flush_roundtrips_columns() {
    let mut b = TickRecord::new_buffer(10);
    for i in 0..7u64 {
        TickRecord::push(&mut b, sample_tick(i * 1000, 100.0 + i as f64));
    }
    let (columns, rows) = flush_batch::<TickRecord>(b);
    assert_eq!(rows, 7);
    let trades = read_trade_file(&vec![read(columns)]).unwrap();
    assert_eq!(trades.len(), 7);
    for i in 0..7u64 {
        let t = &trades[i as usize];
        assert_eq!(t.timestamp_ms, i * 1000);
        assert_eq!(float(t.price), 100.0 + i as f64);
        assert_eq!(float(t.size), 0.01);
        assert_eq!(t.side, "buy");
        assert_eq!(t.inst_id, "BTC-USDT-SWAP");
    }
}

#[test]
fn book_flush_roundtrips_columns() {
    let mut b = BookRecord::new_buffer(10);
    for i in 0..4u64 {
        BookRecord::push(&mut b, sample_book(i * 100, 75_000.0 + i as f64));
    }
    let (columns, rows) = flush_batch::<BookRecord>(b);
    assert_eq!(rows, 4);
    assert_eq!(columns.len(), 22);
    let books = read_book_file(&vec![read(columns)]).unwrap();
    assert_eq!(books.len(), 4);
    for i in 0..4u64 {
        let snap = &books[i as usize];
        let record = sample_book(i * 100, 75_000.0 + i as f64);
        assert_eq!(snap.timestamp_ms, i * 100);
        assert_eq!(snap.bid_prices, record.bid_prices);
        assert_eq!(snap.bid_sizes, record.bid_sizes);
        assert_eq!(snap.ask_prices, record.ask_prices);
        assert_eq!(snap.ask_sizes, record.ask_sizes);
    }
}

#[test]
fn batches_of_a_file_are_read_one_after_the_other() {
    let batch = |from: u64, to: u64| {
        let mut b = TickRecord::new_buffer(10);
        for i in from..to {
            TickRecord::push(&mut b, sample_tick(i, 1.0));
        }
        read(TickRecord::into_batch(b))
    };
    let trades = read_trade_file(&vec![batch(0, 3), batch(3, 3), batch(3, 5)]).unwrap();
    let times: Vec<u64> = trades.iter().map(|t| t.timestamp_ms).collect();
    assert_eq!(times, vec![0, 1, 2, 3, 4]);
    assert!(read_trade_file(&Vec::new()).unwrap().is_empty());

    let books = |from: u64, to: u64| {
        let mut b = BookRecord::new_buffer(10);
        for i in from..to {
            BookRecord::push(&mut b, sample_book(i, 100.0 + i as f64));
        }
        read(BookRecord::into_batch(b))
    };
    let whole = read_book_file(&vec![books(0, 5)]).unwrap();
    let split = read_book_file(&vec![books(0, 1), books(1, 1), books(1, 5)]).unwrap();
    assert_eq!(whole.len(), 5);
    for (a, b) in whole.iter().zip(&split) {
        assert_eq!(a.timestamp_ms, b.timestamp_ms);
        assert_eq!(a.bid_prices, b.bid_prices);
        assert_eq!(a.bid_sizes, b.bid_sizes);
        assert_eq!(a.ask_prices, b.ask_prices);
        assert_eq!(a.ask_sizes, b.ask_sizes);
    }
    assert_eq!(split.len(), 5);
}

#[test]
fn columns_of_the_wrong_kind_are_named() {
    let good = || {
        let mut b = TickRecord::new_buffer(1);
        TickRecord::push(&mut b, sample_tick(1, 1.0));
        read(TickRecord::into_batch(b))
    };
    let messages = [
        "timestamp_ms column not UInt64",
        "price column not Float64",
        "size column not Float64",
        "side column not Utf8",
        "inst_id column not Utf8",
    ];
    for (i, message) in messages.iter().enumerate() {
        let mut columns = good();
        columns[i] = None;
        let fault = read_trade_file(&vec![good(), columns, good()]);
        assert_eq!(fault.err(), Some(message.to_string()));
    }
    let mut b = BookRecord::new_buffer(1);
    BookRecord::push(&mut b, sample_book(1, 1.0));
    let mut columns = read(BookRecord::into_batch(b));
    columns[21] = Some(Column::Integers(vec![1]));
    assert_eq!(read_book_file(&vec![columns]).err(), Some("col not Float64".to_string()));
    let mut b = BookRecord::new_buffer(1);
    BookRecord::push(&mut b, sample_book(1, 1.0));
    let mut columns = read(BookRecord::into_batch(b));
    columns[0] = None;
    columns[1] = None;
    assert_eq!(
        read_book_file(&vec![columns]).err(),
        Some("timestamp_ms column not UInt64".to_string()),
    );
}

#[test]
fn book_record_from_update_handles_short_book() {
    let level = |price: f64, size: f64| BookLevel { price: num(price), size: num(size) };
    let update = OrderBookUpdate {
        inst_id: "BTC-USDT-SWAP".to_string(),
        bids: vec![level(100.0, 1.5), level(99.0, 2.0)],
        asks: vec![level(101.0, 1.0), level(102.0, 2.5), level(103.0, 3.0)],
        timestamp_ms: 1234,
    };
    let r = book_record_from_update(&update);
    assert_eq!(float(r.bid_prices[0]), 100.0);
    assert_eq!(float(r.bid_prices[1]), 99.0);
    assert_eq!(float(r.bid_prices[2]), 0.0);
    assert_eq!(float(r.ask_prices[0]), 101.0);
    assert_eq!(float(r.ask_prices[2]), 103.0);
    assert_eq!(float(r.ask_prices[3]), 0.0);
    assert_eq!(float(r.bid_sizes[1]), 2.0);
    assert_eq!(float(r.ask_sizes[4]), 0.0);
    assert_eq!(r.timestamp_ms, 1234);
}

#[test]
fn book_record_keeps_five_levels() {
    let levels: Vec<BookLevel> =
        (0..8).map(|i| BookLevel { price: num(i as f64), size: num(10.0 + i as f64) }).collect();
    let update = OrderBookUpdate {
        inst_id: "X".to_string(),
        bids: levels.clone(),
        asks: levels,
        timestamp_ms: 1,
    };
    let r = book_record_from_update(&update);
    assert_eq!(float(r.bid_prices[4]), 4.0);
    assert_eq!(float(r.ask_sizes[4]), 14.0);
}

#[test]
fn settings_fall_back_to_their_defaults() {
    let c = PersistenceConfig::from_env("/data", None, None, None);
    assert_eq!(c.output_dir, "/data");
    assert_eq!(c.trade_buffer_size, 100_000);
    assert_eq!(c.book_buffer_size, 200_000);
    assert_eq!(c.flush_interval_secs, 3_600);
    assert_eq!(c.channel_capacity, 10_000);
    let c = PersistenceConfig::from_env(
        "/data",
        Some("5".to_string()),
        Some("-5".to_string()),
        Some("+60".to_string()),
    );
    assert_eq!(c.trade_buffer_size, 5);
    assert_eq!(c.book_buffer_size, 200_000);
    assert_eq!(c.flush_interval_secs, 60);
}

#[test]
fn every_record_is_flushed_once_and_in_order() {
    let mut writer: Writer<TickRecord> = Writer::new(3);
    let mut written: Vec<u64> = Vec::new();
    let mut sizes: Vec<usize> = Vec::new();
    let mut files = 0;
    let mut keep = |batch: Option<<TickRecord as Writable>::Buffer>, w: &mut Writer<TickRecord>| {
        if let Some(b) = batch {
            let (columns, rows) = flush_batch::<TickRecord>(b);
            let trades = read_trade_file(&vec![read(columns)]).unwrap();
            assert_eq!(trades.len(), rows);
            for t in trades {
                written.push(t.timestamp_ms);
            }
            w.written(rows as u64);
            sizes.push(rows);
            files += 1;
        }
    };
    for i in 0..7u64 {
        let batch = writer.record(sample_tick(i, 100.0 + i as f64));
        keep(batch, &mut writer);
    }
    let batch = writer.flush();
    keep(batch, &mut writer);
    let batch = writer.flush();
    assert!(batch.is_none());
    assert_eq!(written, vec![0, 1, 2, 3, 4, 5, 6]);
    assert_eq!(sizes, vec![3, 3, 1]);
    assert_eq!(files, 3);
    assert_eq!(writer.total_written(), 7);
    assert_eq!(writer.files_written(), 3);
}

#[test]
fn buffer_of_no_size_flushes_every_record() {
    let mut writer: Writer<BookRecord> = Writer::new(0);
    assert!(writer.flush().is_none());
    assert_eq!(writer.record(sample_book(1, 2.0)).unwrap().len(), 1);
    assert_eq!(writer.record(sample_book(2, 2.0)).unwrap().len(), 1);
}

#[test]
fn file_names_hold_the_time() {
    assert_eq!(
        file_name("BTC-USDT-SWAP_trades", 1_776_643_200, 42).unwrap(),
        "BTC-USDT-SWAP_trades_20260420_000000_000000042.parquet",
    );
    assert_eq!(
        file_name("BTC-USDT-SWAP_books", -1, 999_999_999).unwrap(),
        "BTC-USDT-SWAP_books_19691231_235959_999999999.parquet",
    );
    assert!(file_name("x", i64::MAX, 0).is_none());
    assert_ne!(file_name("x", 5, 1), file_name("x", 5, 2));
}

#[test]
fn recorded_files_are_told_apart_and_sorted() {
    let names: Vec<String> = [
        "BTC-USDT-SWAP_trades_20260421_000000_000000000.parquet",
        "BTC-USDT-SWAP_books_20260420_000000_000000000.parquet",
        "BTC-USDT-SWAP_trades_20260420_120000_000000007.parquet",
        "BTC-USDT-SWAP_trades_20260420_120000_000000001.parquet",
        "BTC-USDT-SWAP_trades_20260420_120000_000000001.parquet.tmp",
        "notes_trades_.txt",
        ".parquet",
        "trades_20260420.parquet",
    ]
    .iter()
    .map(|s| s.to_string())
    .collect();
    assert_eq!(
        discover_trade_files(&names),
        vec![names[3].clone(), names[2].clone(), names[0].clone()],
    );
    assert_eq!(discover_book_files(&names), vec![names[1].clone()]);
    assert!(discover_trade_files(&Vec::new()).is_empty());
}

#[test]
fn names_sort_like_their_bytes() {
    let mut names: Vec<String> = ["Z", "a", "é", "a_", "", "B", "aa", "🕯"]
        .iter()
        .map(|s| format!("{}_books_.parquet", s))
        .collect();
    let found = discover_book_files(&names);
    names.sort();
    assert_eq!(found, names);
}
