//! Made-up market data to try a replay on: ten hours in which prices fall, rise, fall back and
//! rise again, with an order book beside every trade.

use crate::number::Real;
use crate::persistence::BookRecord;
use crate::persistence::TickRecord;
use vstd::prelude::*;
use vstd::string::*;

verus! {

/// Hours of data.
pub const HOURS: usize = 10;

/// Trades in an hour.
pub const TRADES_PER_HOUR: usize = 100;

/// Milliseconds between two trades.
pub const TRADE_GAP_MS: u64 = 36_000;


/// 0.01
pub const TRADE_SIZE: u64 = 0x3f84_7ae1_47ae_147b;

/// 0.5
pub const HALF: u64 = 0x3fe0_0000_0000_0000;

/// 0.25, the distance of the best prices from the last trade.
pub const HALF_SPREAD: u64 = 0x3fd0_0000_0000_0000;

/// 0.1, the distance between two levels.
pub const LEVEL_GAP: u64 = 0x3fb9_9999_9999_999a;

/// The high and the low of an hour.
pub open spec fn hour_range(hour: int) -> (u64, u64) {
    if hour == 0 {
        (95, 89)
    } else if hour == 1 {
        (92, 88)
    } else if hour == 2 {
        (90, 85)
    } else if hour == 3 {
        (95, 90)
    } else if hour == 4 {
        (98, 93)
    } else if hour == 5 {
        (105, 98)
    } else if hour == 6 {
        (100, 95)
    } else if hour == 7 {
        (95, 92)
    } else if hour == 8 {
        (100, 95)
    } else {
        (115, 100)
    }
}

/// The price of a trade of an hour: from the low to the high in the first half of the hour, and
/// back in the second.
pub open spec fn price_within(high: Real, low: Real, i: u64) -> Real {
    let part = Real::from_u64(i).over(Real::from_u64(TRADES_PER_HOUR as u64));
    let half = Real { bits: HALF };
    let range = high.minus(low);
    if part.lt(half) {
        low.plus(range.times(part.times(Real::from_u64(2))))
    } else {
        high.minus(range.times(part.minus(half).times(Real::from_u64(2))))
    }
}

/// The price of a trade.
pub open spec fn price_of(n: int) -> Real {
    let (high, low) = hour_range(n / TRADES_PER_HOUR as int);
    price_within(
        Real::from_u64(high),
        Real::from_u64(low),
        (n % TRADES_PER_HOUR as int) as u64,
    )
}

/// The high and the low of an hour.
fn range_of_hour(hour: usize) -> (r: (u64, u64))
    ensures
        r == hour_range(hour as int),
{
    if hour == 0 {
        (95, 89)
    } else if hour == 1 {
        (92, 88)
    } else if hour == 2 {
        (90, 85)
    } else if hour == 3 {
        (95, 90)
    } else if hour == 4 {
        (98, 93)
    } else if hour == 5 {
        (105, 98)
    } else if hour == 6 {
        (100, 95)
    } else if hour == 7 {
        (95, 92)
    } else if hour == 8 {
        (100, 95)
    } else {
        (115, 100)
    }
}

/// The price of a trade of an hour.
fn price_in_hour(high: Real, low: Real, i: u64) -> (r: Real)
    ensures
        r == price_within(high, low, i),
{
    let part: Real = Real::from_u64(i).over(Real::from_u64(TRADES_PER_HOUR as u64));
    let half = Real { bits: HALF };
    let range: Real = high.minus(low);
    if part.lt(half) {
        low.plus(range.times(part.times(Real::from_u64(2))))
    } else {
        high.minus(range.times(part.minus(half).times(Real::from_u64(2))))
    }
}

/// The trades.
pub fn trades() -> (r: Vec<TickRecord>)
    ensures
        r@.len() == HOURS * TRADES_PER_HOUR,
        forall|n: int|
            0 <= n < r@.len() ==> {
                &&& (#[trigger] r@[n]).timestamp_ms == n * TRADE_GAP_MS
                &&& r@[n].price == price_of(n)
                &&& r@[n].size == Real { bits: TRADE_SIZE }
                &&& r@[n].side@ == "buy"@
                &&& r@[n].inst_id@ == "BTC-USDT-SWAP"@
            },
{
    let mut r: Vec<TickRecord> = Vec::new();
    let mut n: usize = 0;
    while n < HOURS * TRADES_PER_HOUR
        invariant
            n <= HOURS * TRADES_PER_HOUR,
            r@.len() == n,
            forall|k: int|
                0 <= k < n ==> {
                    &&& (#[trigger] r@[k]).timestamp_ms == k * TRADE_GAP_MS
                    &&& r@[k].price == price_of(k)
                    &&& r@[k].size == Real { bits: TRADE_SIZE }
                    &&& r@[k].side@ == "buy"@
                    &&& r@[k].inst_id@ == "BTC-USDT-SWAP"@
                },
        decreases HOURS * TRADES_PER_HOUR - n,
    {
        let (high, low) = range_of_hour(n / TRADES_PER_HOUR);
        let price: Real = price_in_hour(
            Real::from_u64(high),
            Real::from_u64(low),
            (n % TRADES_PER_HOUR) as u64,
        );
        r.push(
            TickRecord {
                timestamp_ms: n as u64 * TRADE_GAP_MS,
                price,
                size: Real { bits: TRADE_SIZE },
                side: "buy".to_owned(),
                inst_id: "BTC-USDT-SWAP".to_owned(),
            },
        );
        n = n + 1;
    }
    r
}

/// The price of a bid level beside a trade.
pub open spec fn bid_of(mid: Real, level: u64) -> Real {
    mid.minus(Real { bits: HALF_SPREAD }).minus(
        Real::from_u64(level).times(Real { bits: LEVEL_GAP }),
    )
}

/// The price of an ask level beside a trade.
pub open spec fn ask_of(mid: Real, level: u64) -> Real {
    mid.plus(Real { bits: HALF_SPREAD }).plus(
        Real::from_u64(level).times(Real { bits: LEVEL_GAP }),
    )
}

/// The price of a bid level beside a trade.
fn bid(mid: Real, level: u64) -> (r: Real)
    ensures
        r == bid_of(mid, level),
{
    mid.minus(Real { bits: HALF_SPREAD }).minus(
        Real::from_u64(level).times(Real { bits: LEVEL_GAP }),
    )
}

/// The price of an ask level beside a trade.
fn ask(mid: Real, level: u64) -> (r: Real)
    ensures
        r == ask_of(mid, level),
{
    mid.plus(Real { bits: HALF_SPREAD }).plus(
        Real::from_u64(level).times(Real { bits: LEVEL_GAP }),
    )
}

/// The order book beside a trade: five levels of size two on each side.
pub fn book_beside(trade: &TickRecord) -> (r: BookRecord)
    ensures
        r.timestamp_ms == trade.timestamp_ms,
        r.inst_id@ == "BTC-USDT-SWAP"@,
        forall|k: int|
            0 <= k < 5 ==> #[trigger] r.bid_prices@[k] == bid_of(trade.price, k as u64),
        forall|k: int|
            0 <= k < 5 ==> #[trigger] r.ask_prices@[k] == ask_of(trade.price, k as u64),
        forall|k: int| 0 <= k < 5 ==> #[trigger] r.bid_sizes@[k] == Real::from_u64(2),
        forall|k: int| 0 <= k < 5 ==> #[trigger] r.ask_sizes@[k] == Real::from_u64(2),
{
    let mid: Real = trade.price;
    let two: Real = Real::from_u64(2);
    BookRecord {
        timestamp_ms: trade.timestamp_ms,
        inst_id: "BTC-USDT-SWAP".to_owned(),
        bid_prices: [bid(mid, 0), bid(mid, 1), bid(mid, 2), bid(mid, 3), bid(mid, 4)],
        bid_sizes: [two, two, two, two, two],
        ask_prices: [ask(mid, 0), ask(mid, 1), ask(mid, 2), ask(mid, 3), ask(mid, 4)],
        ask_sizes: [two, two, two, two, two],
    }
}

} // verus!
