//! The risk rules, which turn a pattern into a sized trade or say why not.

use crate::abc_brc::AbcdPattern;
use crate::abc_brc::PatternDirection;
use crate::candle::Timeframe;
use crate::fibonacci::FibSequence;
use crate::fixed::fixed_text;
use crate::number::Real;
use crate::order::fraction;
use crate::order::lemma_fraction;
use crate::rounding::UNIT_EXP;
use crate::text::decimal;
use crate::text::decimal_text;
use vstd::arithmetic::power2::lemma2_to64;
use vstd::arithmetic::power2::lemma2_to64_rest;
use vstd::arithmetic::power2::lemma_pow2_pos;
use vstd::arithmetic::power2::pow2;
use vstd::prelude::*;
use vstd::string::*;

verus! {

/// The bits of 0.01: the size of one BTC-USDT-SWAP contract, in BTC.
pub const BTC_USDT_SWAP_CONTRACT_FACE: u64 = 0x3f84_7ae1_47ae_147b;

/// The bits of 0.01: the share of the equity that one trade may lose.
pub const DEFAULT_RISK_PER_TRADE: u64 = 0x3f84_7ae1_47ae_147b;

/// The bits of 0.005: the room behind A, as a share of the impulse.
pub const DEFAULT_STOP_BUFFER: u64 = 0x3f74_7ae1_47ae_147b;

/// The default parameters are the numbers nearest to their decimals.
pub proof fn law_default_parameters()
    ensures
        fraction(1, 100).bits == BTC_USDT_SWAP_CONTRACT_FACE,
        fraction(1, 100).bits == DEFAULT_RISK_PER_TRADE,
        fraction(5, 1000).bits == DEFAULT_STOP_BUFFER,
{
    lemma2_to64();
    lemma2_to64_rest();
    lemma_fraction(1, 100, 59, 0x147ae147ae147b);
    lemma_fraction(5, 1000, 60, 0x147ae147ae147b);
}

/// The retracement at which a trade is entered.
#[derive(Debug, Clone, Copy, PartialEq, Eq, Structural)]
pub enum EntryZone {
    /// The primary entry.
    Golden,
    /// The entry that adds to an open position.
    Sniper,
}

impl EntryZone {
    pub open spec fn text(self) -> Seq<char> {
        match self {
            EntryZone::Golden => "GOLDEN"@,
            EntryZone::Sniper => "SNIPER"@,
        }
    }

    /// The name of the zone.
    pub fn to_text(&self) -> (s: String)
        ensures
            s@ == self.text(),
    {
        match self {
            EntryZone::Golden => "GOLDEN".to_owned(),
            EntryZone::Sniper => "SNIPER".to_owned(),
        }
    }
}

/// The parameters of the risk rules.
#[derive(Debug, Clone, Copy, PartialEq, Eq, Structural)]
pub struct RiskParams {
    /// Account equity in USDT.
    pub account_balance: Real,
    /// The share of the equity that one trade may lose.
    pub risk_per_trade_pct: Real,
    /// The least reward, as a multiple of the risk.
    pub min_rr_ratio: Real,
    /// The room behind A, as a share of the impulse.
    pub stop_buffer_pct: Real,
    /// The size of one contract in base asset units.
    pub contract_face_value: Real,
}

impl RiskParams {
    pub open spec fn spec_fmg_default(account_balance: Real) -> RiskParams {
        RiskParams {
            account_balance,
            risk_per_trade_pct: Real { bits: DEFAULT_RISK_PER_TRADE },
            min_rr_ratio: Real::from_u64(2),
            stop_buffer_pct: Real { bits: DEFAULT_STOP_BUFFER },
            contract_face_value: Real { bits: BTC_USDT_SWAP_CONTRACT_FACE },
        }
    }

    /// The usual parameters for BTC-USDT-SWAP.
    #[verifier::when_used_as_spec(spec_fmg_default)]
    pub fn fmg_default(account_balance: Real) -> (r: Self)
        ensures
            r == RiskParams::spec_fmg_default(account_balance),
    {
        RiskParams {
            account_balance,
            risk_per_trade_pct: Real { bits: DEFAULT_RISK_PER_TRADE },
            min_rr_ratio: Real::from_u64(2),
            stop_buffer_pct: Real { bits: DEFAULT_STOP_BUFFER },
            contract_face_value: Real { bits: BTC_USDT_SWAP_CONTRACT_FACE },
        }
    }
}

/// A trade with all its prices and its size.
#[derive(Debug, Clone, Copy, PartialEq, Eq, Structural)]
pub struct TradeSignal {
    pub direction: PatternDirection,
    pub timeframe: Timeframe,
    pub entry_zone: EntryZone,
    /// Limit price of the entry.
    pub entry_price: Real,
    /// Trigger price of the stop loss.
    pub stop_price: Real,
    /// Trigger price of the take profit.
    pub target_price: Real,
    pub contracts: u64,
    /// What is lost at the stop, in quote currency.
    pub risk_amount: Real,
    /// What is won at the target, in quote currency.
    pub reward_amount: Real,
    pub rr_ratio: Real,
}

impl TradeSignal {
    pub open spec fn entry_side_text(self) -> Seq<char> {
        match self.direction {
            PatternDirection::Bullish => "buy"@,
            PatternDirection::Bearish => "sell"@,
        }
    }

    /// The side of the entry order.
    pub fn entry_side(&self) -> (r: &'static str)
        ensures
            r@ == self.entry_side_text(),
    {
        match self.direction {
            PatternDirection::Bullish => "buy",
            PatternDirection::Bearish => "sell",
        }
    }

    pub open spec fn exit_side_text(self) -> Seq<char> {
        match self.direction {
            PatternDirection::Bullish => "sell"@,
            PatternDirection::Bearish => "buy"@,
        }
    }

    /// The side of the exit orders.
    pub fn exit_side(&self) -> (r: &'static str)
        ensures
            r@ == self.exit_side_text(),
    {
        match self.direction {
            PatternDirection::Bullish => "sell",
            PatternDirection::Bearish => "buy",
        }
    }

    pub open spec fn text(self) -> Seq<char> {
        self.direction.text() + " "@ + self.entry_zone.text() + " "@ + self.timeframe.label_text() + " ["@
            + (match self.direction {
            PatternDirection::Bullish => "BUY"@,
            PatternDirection::Bearish => "SELL"@,
        }) + "] "@ + decimal(self.contracts as nat) + "ct @ $"@ + fixed_text(self.entry_price, 2) + " | SL $"@
            + fixed_text(self.stop_price, 2) + " | TP $"@ + fixed_text(self.target_price, 2) + " | Risk $"@
            + fixed_text(self.risk_amount, 2) + " Reward $"@ + fixed_text(self.reward_amount, 2)
            + " (R:R 1:"@ + fixed_text(self.rr_ratio, 2) + ")"@
    }

    /// The trade on one line.
    pub fn to_text(&self) -> (s: String)
        ensures
            s@ == self.text(),
    {
        let mut s = self.direction.to_text();
        s.append(" ");
        s.append(self.entry_zone.to_text().as_str());
        s.append(" ");
        s.append(self.timeframe.label());
        s.append(" [");
        match self.direction {
            PatternDirection::Bullish => s.append("BUY"),
            PatternDirection::Bearish => s.append("SELL"),
        }
        s.append("] ");
        s.append(decimal_text(self.contracts).as_str());
        s.append("ct @ $");
        s.append(self.entry_price.fixed(2).as_str());
        s.append(" | SL $");
        s.append(self.stop_price.fixed(2).as_str());
        s.append(" | TP $");
        s.append(self.target_price.fixed(2).as_str());
        s.append(" | Risk $");
        s.append(self.risk_amount.fixed(2).as_str());
        s.append(" Reward $");
        s.append(self.reward_amount.fixed(2).as_str());
        s.append(" (R:R 1:");
        s.append(self.rr_ratio.fixed(2).as_str());
        s.append(")");
        s
    }
}

/// Why a pattern is no trade.
#[derive(Debug, Clone, Copy, PartialEq, Eq, Structural)]
pub enum RejectionReason {
    /// Entry and stop are the same price.
    DegenerateStop,
    /// The reward is too small for the risk.
    InsufficientRr { actual: Real, required: Real },
    /// Not even one contract fits into the risk.
    PositionTooSmall,
    /// The account balance is zero or negative.
    InvalidBalance,
}

impl RejectionReason {
    pub open spec fn text(self) -> Seq<char> {
        match self {
            RejectionReason::DegenerateStop => "degenerate stop (entry == stop)"@,
            RejectionReason::InsufficientRr { actual, required } => "R:R 1:"@ + fixed_text(actual, 2)
                + " below minimum 1:"@ + fixed_text(required, 2),
            RejectionReason::PositionTooSmall => "position size < 1 contract"@,
            RejectionReason::InvalidBalance => "account balance invalid"@,
        }
    }

    /// The reason in words.
    pub fn to_text(&self) -> (s: String)
        ensures
            s@ == self.text(),
    {
        match self {
            RejectionReason::DegenerateStop => "degenerate stop (entry == stop)".to_owned(),
            RejectionReason::InsufficientRr { actual, required } => {
                let mut s = "R:R 1:".to_owned();
                s.append(actual.fixed(2).as_str());
                s.append(" below minimum 1:");
                s.append(required.fixed(2).as_str());
                s
            },
            RejectionReason::PositionTooSmall => "position size < 1 contract".to_owned(),
            RejectionReason::InvalidBalance => "account balance invalid".to_owned(),
        }
    }
}

/// The stop: beyond A, with room in proportion to the impulse.
pub open spec fn stop_of(params: RiskParams, pattern: AbcdPattern) -> Real {
    let buffer = pattern.ab_range().times(params.stop_buffer_pct);
    match pattern.direction {
        PatternDirection::Bullish => pattern.a.price.minus(buffer),
        PatternDirection::Bearish => pattern.a.price.plus(buffer),
    }
}

/// How many contracts a risk pays for: the whole part of risk over risk per contract.
pub open spec fn contracts_of(params: RiskParams, stop_distance: Real) -> u64 {
    params.account_balance.times(params.risk_per_trade_pct).over(
        stop_distance.times(params.contract_face_value),
    ).to_u64()
}

/// The trade that enters a pattern at a price, or why it is none.
pub open spec fn signal_of(
    params: RiskParams,
    pattern: AbcdPattern,
    target: Real,
    timeframe: Timeframe,
    zone: EntryZone,
    entry: Real,
) -> Result<TradeSignal, RejectionReason> {
    let stop = stop_of(params, pattern);
    let stop_distance = entry.minus(stop).magnitude();
    let target_distance = target.minus(entry).magnitude();
    let rr = target_distance.over(stop_distance);
    let contracts = contracts_of(params, stop_distance);
    if params.account_balance.le(Real::from_u64(0)) {
        Err(RejectionReason::InvalidBalance)
    } else if stop_distance.le(Real::from_u64(0)) {
        Err(RejectionReason::DegenerateStop)
    } else if rr.lt(params.min_rr_ratio) {
        Err(RejectionReason::InsufficientRr { actual: rr, required: params.min_rr_ratio })
    } else if contracts == 0 {
        Err(RejectionReason::PositionTooSmall)
    } else {
        Ok(
            TradeSignal {
                direction: pattern.direction,
                timeframe,
                entry_zone: zone,
                entry_price: entry,
                stop_price: stop,
                target_price: target,
                contracts,
                risk_amount: Real::from_u64(contracts).times(stop_distance).times(
                    params.contract_face_value,
                ),
                reward_amount: Real::from_u64(contracts).times(target_distance).times(
                    params.contract_face_value,
                ),
                rr_ratio: rr,
            },
        )
    }
}

/// The risk rules. They hold their parameters and nothing else.
pub struct RiskEngine {
    params: RiskParams,
}

impl RiskEngine {
    pub closed spec fn spec_params(&self) -> RiskParams {
        self.params
    }

    /// The rules with the given parameters.
    pub fn new(params: RiskParams) -> (r: Self)
        ensures
            r.spec_params() == params,
    {
        RiskEngine { params }
    }

    /// The parameters.
    pub fn params(&self) -> (r: &RiskParams)
        ensures
            *r == self.spec_params(),
    {
        &self.params
    }

    /// The trade that enters at the golden zone.
    pub fn evaluate_golden(
        &self,
        pattern: &AbcdPattern,
        fib: &FibSequence,
        timeframe: Timeframe,
    ) -> (r: Result<TradeSignal, RejectionReason>)
        ensures
            r == signal_of(
                self.spec_params(),
                *pattern,
                fib.target3(),
                timeframe,
                EntryZone::Golden,
                fib.golden_zone(),
            ),
    {
        self.build_signal(pattern, fib, timeframe, EntryZone::Golden, fib.golden_zone())
    }

    /// The trade that enters at the sniper zone.
    pub fn evaluate_sniper(
        &self,
        pattern: &AbcdPattern,
        fib: &FibSequence,
        timeframe: Timeframe,
    ) -> (r: Result<TradeSignal, RejectionReason>)
        ensures
            r == signal_of(
                self.spec_params(),
                *pattern,
                fib.target3(),
                timeframe,
                EntryZone::Sniper,
                fib.sniper_zone(),
            ),
    {
        self.build_signal(pattern, fib, timeframe, EntryZone::Sniper, fib.sniper_zone())
    }

    fn build_signal(
        &self,
        pattern: &AbcdPattern,
        fib: &FibSequence,
        timeframe: Timeframe,
        entry_zone: EntryZone,
        entry_price: Real,
    ) -> (r: Result<TradeSignal, RejectionReason>)
        ensures
            r == signal_of(
                self.spec_params(),
                *pattern,
                fib.target3(),
                timeframe,
                entry_zone,
                entry_price,
            ),
    {
        let zero: Real = Real::from_u64(0);
        if self.params.account_balance.le(zero) {
            return Err(RejectionReason::InvalidBalance);
        }
        let stop_price: Real = self.compute_stop_price(pattern);
        let stop_distance: Real = entry_price.minus(stop_price).magnitude();
        if stop_distance.le(zero) {
            return Err(RejectionReason::DegenerateStop);
        }
        let target_price: Real = fib.target3();
        let target_distance: Real = target_price.minus(entry_price).magnitude();
        let rr_ratio: Real = target_distance.over(stop_distance);
        if rr_ratio.lt(self.params.min_rr_ratio) {
            return Err(
                RejectionReason::InsufficientRr {
                    actual: rr_ratio,
                    required: self.params.min_rr_ratio,
                },
            );
        }
        let risk_amount: Real = self.params.account_balance.times(self.params.risk_per_trade_pct);
        let risk_per_contract: Real = stop_distance.times(self.params.contract_face_value);
        let contracts: u64 = risk_amount.over(risk_per_contract).to_u64();
        if contracts == 0 {
            return Err(RejectionReason::PositionTooSmall);
        }
        let size: Real = Real::from_u64(contracts);
        Ok(
            TradeSignal {
                direction: pattern.direction,
                timeframe,
                entry_zone,
                entry_price,
                stop_price,
                target_price,
                contracts,
                risk_amount: size.times(stop_distance).times(self.params.contract_face_value),
                reward_amount: size.times(target_distance).times(self.params.contract_face_value),
                rr_ratio,
            },
        )
    }

    fn compute_stop_price(&self, pattern: &AbcdPattern) -> (r: Real)
        ensures
            r == stop_of(self.spec_params(), *pattern),
    {
        let buffer: Real = pattern.ab_range().times(self.params.stop_buffer_pct);
        match pattern.direction {
            PatternDirection::Bullish => pattern.a.price.minus(buffer),
            PatternDirection::Bearish => pattern.a.price.plus(buffer),
        }
    }
}

/// A trade that passes the rules has at least one contract, a stop away from its entry, and no
/// less reward for its risk than asked for.
pub proof fn law_gate(
    params: RiskParams,
    pattern: AbcdPattern,
    target: Real,
    timeframe: Timeframe,
    zone: EntryZone,
    entry: Real,
)
    ensures
        signal_of(params, pattern, target, timeframe, zone, entry) matches Ok(s) ==> {
            &&& s.contracts >= 1
            &&& !s.rr_ratio.lt(params.min_rr_ratio)
            &&& !s.entry_price.same(s.stop_price)
            &&& !params.account_balance.le(Real::from_u64(0))
        },
{
    if signal_of(params, pattern, target, timeframe, zone, entry) is Ok {
        let stop = stop_of(params, pattern);
        if entry.same(stop) {
            lemma_no_distance(entry, stop);
            reveal(Real::spec_times);
            reveal(Real::spec_over);
            reveal(Real::spec_to_u64);
            let d = entry.minus(stop).magnitude();
            if !d.is_number() {
                assert(contracts_of(params, d) == 0);
            }
        }
    }
}

/// A number is no distance away from itself, or the distance is not a number.
proof fn lemma_no_distance(a: Real, b: Real)
    requires
        a.same(b),
    ensures
        a.minus(b).magnitude().le(Real::from_u64(0)) || !a.minus(b).magnitude().is_number(),
{
    reveal(Real::spec_plus);
    reveal(Real::spec_from_u64);
    crate::number::lemma_nearest_zero(1);
    assert(0 * pow2(UNIT_EXP as nat) == 0);
}

/// The size is rounded down: the contracts are never more than the risk over the risk of one
/// contract.
pub proof fn law_size_is_rounded_down(params: RiskParams, stop_distance: Real)
    ensures
        ({
            let q = params.account_balance.times(params.risk_per_trade_pct).over(
                stop_distance.times(params.contract_face_value),
            );
            let n = contracts_of(params, stop_distance);
            q.finite() && !q.neg() ==> n * pow2(UNIT_EXP as nat) <= q.units()
        }),
{
    let q = params.account_balance.times(params.risk_per_trade_pct).over(
        stop_distance.times(params.contract_face_value),
    );
    reveal(Real::spec_to_u64);
    let p = pow2(UNIT_EXP as nat) as int;
    lemma_pow2_pos(UNIT_EXP as nat);
    if q.finite() && !q.neg() {
        let n = contracts_of(params, stop_distance);
        let w = q.units() / p;
        vstd::arithmetic::div_mod::lemma_fundamental_div_mod(q.units(), p);
        assert(n <= w);
        vstd::arithmetic::mul::lemma_mul_inequality(n as int, w, p);
        vstd::arithmetic::mul::lemma_mul_is_commutative(w, p);
    }
}

} // verus!
