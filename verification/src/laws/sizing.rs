//! What a trade risks, and when a setup is worth one.

use crate::abc_brc::AbcdPattern;
use crate::abc_brc::PatternDirection;
use crate::candle::Timeframe;
use crate::number::Real;
use crate::order::fraction;
use crate::order::law_plus_keeps_order;
use crate::order::law_plus_zero;
use crate::risk::law_default_parameters;
use crate::risk::signal_of;
use crate::risk::EntryZone;
use crate::risk::RejectionReason;
use crate::risk::RiskParams;
use crate::risk::TradeSignal;
use vstd::prelude::*;

verus! {

/// The distance of two prices.
pub open spec fn apart(x: Real, y: Real) -> Real {
    x.minus(y).magnitude()
}

/// A trade enters, stops and ends where it says: it has the zone, the timeframe and the direction
/// that were asked for, and its ratio, its risk and its reward are those of its own three prices and
/// its own number of contracts.
pub proof fn law_trade_is_measured_by_its_own_prices(
    params: RiskParams,
    pattern: AbcdPattern,
    target: Real,
    timeframe: Timeframe,
    zone: EntryZone,
    entry: Real,
    s: TradeSignal,
)
    requires
        signal_of(params, pattern, target, timeframe, zone, entry) == Ok::<_, RejectionReason>(s),
    ensures
        s.direction == pattern.direction,
        s.timeframe == timeframe,
        s.entry_zone == zone,
        s.entry_price == entry,
        s.target_price == target,
        s.rr_ratio == apart(s.target_price, s.entry_price).over(apart(s.entry_price, s.stop_price)),
        !s.rr_ratio.lt(params.min_rr_ratio),
        s.contracts >= 1,
        s.contracts == params.account_balance.times(params.risk_per_trade_pct).over(
            apart(s.entry_price, s.stop_price).times(params.contract_face_value),
        ).to_u64(),
        s.risk_amount == Real::from_u64(s.contracts).times(apart(s.entry_price, s.stop_price)).times(
            params.contract_face_value,
        ),
        s.reward_amount == Real::from_u64(s.contracts).times(
            apart(s.target_price, s.entry_price),
        ).times(params.contract_face_value),
{
}

/// The stop of a trade lies behind A by the given share of the impulse: below it for a bullish
/// setup, above it for a bearish one.
pub proof fn law_stop_lies_behind_a(
    params: RiskParams,
    pattern: AbcdPattern,
    target: Real,
    timeframe: Timeframe,
    zone: EntryZone,
    entry: Real,
    s: TradeSignal,
)
    requires
        signal_of(params, pattern, target, timeframe, zone, entry) == Ok::<_, RejectionReason>(s),
    ensures
        ({
            let (a, room) = (
                pattern.a.price,
                apart(pattern.b.price, pattern.a.price).times(params.stop_buffer_pct),
            );
            &&& pattern.direction is Bullish ==> s.stop_price == a.minus(room)
            &&& pattern.direction is Bearish ==> s.stop_price == a.plus(room)
            &&& pattern.direction is Bullish && a.finite() && room.is_number() && !room.neg()
                ==> s.stop_price.le(a)
            &&& pattern.direction is Bearish && a.finite() && room.is_number() && !room.neg()
                ==> a.le(s.stop_price)
        }),
{
    let a = pattern.a.price;
    let room = apart(pattern.b.price, a).times(params.stop_buffer_pct);
    let none = Real { bits: 0 };
    if a.finite() && room.is_number() && !room.neg() {
        law_plus_zero(a);
        law_plus_keeps_order(none, room, a);
        law_plus_keeps_order(room.negated(), none, a);
    }
}

/// Each reason for refusing a setup comes exactly where it holds, and the earlier one where several
/// do: no money, no distance to the stop, too little reward for the risk, less than a contract.
pub proof fn law_refusals(
    params: RiskParams,
    pattern: AbcdPattern,
    target: Real,
    timeframe: Timeframe,
    zone: EntryZone,
    entry: Real,
)
    ensures
        ({
            let r = signal_of(params, pattern, target, timeframe, zone, entry);
            let room = apart(pattern.b.price, pattern.a.price).times(params.stop_buffer_pct);
            let stop = match pattern.direction {
                PatternDirection::Bullish => pattern.a.price.minus(room),
                PatternDirection::Bearish => pattern.a.price.plus(room),
            };
            let ratio = apart(target, entry).over(apart(entry, stop));
            let broke = params.account_balance.le(Real::from_u64(0));
            let flat = apart(entry, stop).le(Real::from_u64(0));
            let poor = ratio.lt(params.min_rr_ratio);
            let small = params.account_balance.times(params.risk_per_trade_pct).over(
                apart(entry, stop).times(params.contract_face_value),
            ).to_u64() == 0;
            &&& r == Err::<TradeSignal, _>(RejectionReason::InvalidBalance) <==> broke
            &&& r == Err::<TradeSignal, _>(RejectionReason::DegenerateStop) <==> !broke && flat
            &&& (r matches Err(RejectionReason::InsufficientRr { .. })) <==> !broke && !flat && poor
            &&& r matches Err(RejectionReason::InsufficientRr { actual, required }) ==> actual == ratio
                && required == params.min_rr_ratio
            &&& r == Err::<TradeSignal, _>(RejectionReason::PositionTooSmall) <==> !broke && !flat
                && !poor && small
            &&& r is Ok <==> !broke && !flat && !poor && !small
        }),
{
}

/// A stricter ratio refuses every setup that a looser one refuses for its ratio.
pub proof fn law_stricter_ratio_refuses_more(
    params: RiskParams,
    stricter: Real,
    pattern: AbcdPattern,
    target: Real,
    timeframe: Timeframe,
    zone: EntryZone,
    entry: Real,
)
    requires
        params.min_rr_ratio.le(stricter),
        signal_of(params, pattern, target, timeframe, zone, entry) matches Err(
            RejectionReason::InsufficientRr { .. },
        ),
    ensures
        signal_of(
            RiskParams { min_rr_ratio: stricter, ..params },
            pattern,
            target,
            timeframe,
            zone,
            entry,
        ) matches Err(RejectionReason::InsufficientRr { .. }),
{
}

/// The usual rules risk a hundredth of the balance per trade, ask for twice the risk, leave half a
/// hundredth of the impulse behind A, and count contracts of a hundredth of a bitcoin.
pub proof fn law_usual_rules(balance: Real)
    ensures
        ({
            let p = RiskParams::spec_fmg_default(balance);
            &&& p.account_balance == balance
            &&& p.risk_per_trade_pct == fraction(1, 100)
            &&& p.min_rr_ratio == Real::from_u64(2)
            &&& p.stop_buffer_pct == fraction(5, 1000)
            &&& p.contract_face_value == fraction(1, 100)
        }),
{
    law_default_parameters();
}

/// Orders enter on one side and leave on the other: a bullish trade buys and then sells, a bearish
/// one sells and then buys.
pub proof fn law_sides_of_a_trade(s: TradeSignal)
    ensures
        s.direction is Bullish ==> s.entry_side_text() == "buy"@ && s.exit_side_text() == "sell"@,
        s.direction is Bearish ==> s.entry_side_text() == "sell"@ && s.exit_side_text() == "buy"@,
{
}

} // verus!
