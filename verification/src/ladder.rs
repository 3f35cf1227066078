//! Fills against recorded levels of an order book.

use crate::number::Real;
use vstd::prelude::*;

verus! {

/// The best five levels of each side of an order book, best first. A level without size is
/// absent.
#[derive(Debug, Clone, Copy)]
pub struct BookSnapshot {
    pub timestamp_ms: u64,
    pub bid_prices: [Real; 5],
    pub bid_sizes: [Real; 5],
    pub ask_prices: [Real; 5],
    pub ask_sizes: [Real; 5],
}

/// Whether all of five numbers are zero.
pub open spec fn all_zero(s: Seq<Real>) -> bool {
    forall|i: int| 0 <= i < s.len() ==> (#[trigger] s[i]).same(Real::from_u64(0))
}

/// Five times the same number.
fn five(x: Real) -> (r: [Real; 5])
    ensures
        forall|i: int| 0 <= i < 5 ==> #[trigger] r@[i] == x,
{
    [x, x, x, x, x]
}

fn none_left(a: &[Real; 5]) -> (r: bool)
    ensures
        r == all_zero(a@),
{
    let zero: Real = Real::from_u64(0);
    let mut i: usize = 0;
    while i < 5
        invariant
            i <= 5,
            zero == Real::from_u64(0),
            forall|j: int| 0 <= j < i ==> (#[trigger] a@[j]).same(zero),
        decreases 5 - i,
    {
        if !a[i].same(zero) {
            return false;
        }
        i = i + 1;
    }
    true
}

impl BookSnapshot {
    /// Whether time, prices and sizes are all zero.
    pub open spec fn is_blank(&self) -> bool {
        let zero = Real::from_u64(0);
        &&& self.timestamp_ms == 0
        &&& forall|i: int| 0 <= i < 5 ==> #[trigger] self.bid_prices@[i] == zero
        &&& forall|i: int| 0 <= i < 5 ==> #[trigger] self.bid_sizes@[i] == zero
        &&& forall|i: int| 0 <= i < 5 ==> #[trigger] self.ask_prices@[i] == zero
        &&& forall|i: int| 0 <= i < 5 ==> #[trigger] self.ask_sizes@[i] == zero
    }

    /// A snapshot without any level.
    pub fn empty() -> (r: Self)
        ensures
            r.is_blank(),
            r.spec_is_empty(),
    {
        let zero: Real = Real::from_u64(0);
        proof {
            lemma_zero_is_zero();
        }
        BookSnapshot {
            timestamp_ms: 0,
            bid_prices: five(zero),
            bid_sizes: five(zero),
            ask_prices: five(zero),
            ask_sizes: five(zero),
        }
    }

    pub open spec fn spec_is_empty(&self) -> bool {
        all_zero(self.bid_sizes@) && all_zero(self.ask_sizes@)
    }

    /// Whether no level has any size.
    #[verifier::when_used_as_spec(spec_is_empty)]
    pub fn is_empty(&self) -> (r: bool)
        ensures
            r == self.spec_is_empty(),
    {
        none_left(&self.bid_sizes) && none_left(&self.ask_sizes)
    }

    /// Price and size of the best bid.
    pub fn best_bid(&self) -> (r: Option<(Real, Real)>)
        ensures
            r == (if Real::from_u64(0).lt(self.bid_sizes@[0]) {
                Some((self.bid_prices@[0], self.bid_sizes@[0]))
            } else {
                None
            }),
    {
        if Real::from_u64(0).lt(self.bid_sizes[0]) {
            Some((self.bid_prices[0], self.bid_sizes[0]))
        } else {
            None
        }
    }

    /// Price and size of the best ask.
    pub fn best_ask(&self) -> (r: Option<(Real, Real)>)
        ensures
            r == (if Real::from_u64(0).lt(self.ask_sizes@[0]) {
                Some((self.ask_prices@[0], self.ask_sizes@[0]))
            } else {
                None
            }),
    {
        if Real::from_u64(0).lt(self.ask_sizes[0]) {
            Some((self.ask_prices[0], self.ask_sizes[0]))
        } else {
            None
        }
    }
}

/// Zero is the number zero.
pub proof fn lemma_zero_is_zero()
    ensures
        Real::from_u64(0) == (Real { bits: 0 }),
{
    reveal(Real::spec_from_u64);
    crate::number::lemma_nearest_zero(1);
    assert(0 * vstd::arithmetic::power2::pow2(crate::rounding::UNIT_EXP as nat) == 0);
}

/// What a walk along a ladder bought or sold.
#[derive(Debug, Clone, Copy, PartialEq, Eq, Structural)]
pub struct LadderFill {
    pub filled_contracts: u64,
    /// The mean price, weighted by size; zero when nothing was filled.
    pub avg_price: Real,
    /// Whether all that was asked for was filled.
    pub fully_filled: bool,
}

impl LadderFill {
    pub open spec fn spec_zero() -> LadderFill {
        LadderFill { filled_contracts: 0, avg_price: Real::from_u64(0), fully_filled: false }
    }

    /// The fill of nothing.
    #[verifier::when_used_as_spec(spec_zero)]
    pub fn zero() -> (r: Self)
        ensures
            r == LadderFill::spec_zero(),
    {
        LadderFill { filled_contracts: 0, avg_price: Real::from_u64(0), fully_filled: false }
    }

    pub open spec fn spec_is_nothing(&self) -> bool {
        self.filled_contracts == 0
    }

    /// Whether nothing was filled.
    #[verifier::when_used_as_spec(spec_is_nothing)]
    pub fn is_nothing(&self) -> (r: bool)
        ensures
            r == self.spec_is_nothing(),
    {
        self.filled_contracts == 0
    }
}

/// A bound on prices: at most the limit for a buyer, at least the limit for a seller.
pub struct PriceLimit {
    pub price: Real,
    pub is_buy: bool,
}

/// Whether a price is within a bound.
pub open spec fn within(price: Real, limit: Option<PriceLimit>) -> bool {
    match limit {
        Some(l) => if l.is_buy {
            price.le(l.price)
        } else {
            l.price.le(price)
        },
        None => true,
    }
}

/// How many whole contracts a level holds.
pub open spec fn capacity(size: Real, face: Real) -> u64 {
    size.over(face).to_u64()
}

/// What a walk from a level on takes, on top of `got` contracts that cost `sum`.
///
/// Absent levels, and levels that hold less than a contract, are passed over. The walk ends at
/// the first level beyond the limit, or when all that is wanted was taken.
pub open spec fn walked(
    prices: Seq<Real>,
    sizes: Seq<Real>,
    want: u64,
    face: Real,
    limit: Option<PriceLimit>,
    level: int,
    got: nat,
    sum: Real,
) -> (nat, Real)
    decreases 5 - level,
{
    if level >= 5 {
        (got, sum)
    } else if sizes[level].le(Real::from_u64(0)) {
        walked(prices, sizes, want, face, limit, level + 1, got, sum)
    } else if !within(prices[level], limit) {
        (got, sum)
    } else if capacity(sizes[level], face) == 0 {
        walked(prices, sizes, want, face, limit, level + 1, got, sum)
    } else {
        let take = if capacity(sizes[level], face) < want - got {
            capacity(sizes[level], face) as nat
        } else {
            (want - got) as nat
        };
        let sum2 = sum.plus(prices[level].times(Real::from_u64(take as u64)));
        if got + take >= want {
            (got + take, sum2)
        } else {
            walked(prices, sizes, want, face, limit, level + 1, got + take, sum2)
        }
    }
}

/// The fill of a walk along a whole ladder.
pub open spec fn ladder_fill(
    prices: Seq<Real>,
    sizes: Seq<Real>,
    want: u64,
    face: Real,
    limit: Option<PriceLimit>,
) -> LadderFill {
    let (got, sum) = walked(prices, sizes, want, face, limit, 0, 0, Real::from_u64(0));
    if got == 0 {
        LadderFill::zero()
    } else {
        LadderFill {
            filled_contracts: got as u64,
            avg_price: sum.over(Real::from_u64(got as u64)),
            fully_filled: got >= want,
        }
    }
}

/// A walk takes at most what is wanted.
proof fn lemma_walk_bound(
    prices: Seq<Real>,
    sizes: Seq<Real>,
    want: u64,
    face: Real,
    limit: Option<PriceLimit>,
    level: int,
    got: nat,
    sum: Real,
)
    requires
        got <= want,
    ensures
        got <= walked(prices, sizes, want, face, limit, level, got, sum).0 <= want,
    decreases 5 - level,
{
    if level < 5 {
        if sizes[level].le(Real::from_u64(0)) {
            lemma_walk_bound(prices, sizes, want, face, limit, level + 1, got, sum);
        } else if within(prices[level], limit) {
            if capacity(sizes[level], face) == 0 {
                lemma_walk_bound(prices, sizes, want, face, limit, level + 1, got, sum);
            } else {
                let take = if capacity(sizes[level], face) < want - got {
                    capacity(sizes[level], face) as nat
                } else {
                    (want - got) as nat
                };
                let sum2 = sum.plus(prices[level].times(Real::from_u64(take as u64)));
                if got + take < want {
                    lemma_walk_bound(prices, sizes, want, face, limit, level + 1, got + take, sum2);
                }
            }
        }
    }
}

/// Whether a level holds a whole contract.
pub open spec fn usable(size: Real, face: Real) -> bool {
    !size.le(Real::from_u64(0)) && capacity(size, face) > 0
}

/// The price of the deepest of the first `n` levels that hold a contract.
pub open spec fn worst_price(prices: Seq<Real>, sizes: Seq<Real>, face: Real, n: nat) -> Real
    decreases n,
{
    if n == 0 {
        Real::from_u64(0)
    } else if usable(sizes[n - 1], face) {
        prices[n - 1]
    } else {
        worst_price(prices, sizes, face, (n - 1) as nat)
    }
}

/// The price at which a market order is done along a ladder, `None` where no level holds a
/// contract. What the ladder cannot fill is done at the price of its deepest level.
pub open spec fn market_price(prices: Seq<Real>, sizes: Seq<Real>, want: u64, face: Real) -> Option<
    Real,
> {
    let (got, sum) = walked(prices, sizes, want, face, None, 0, 0, Real::from_u64(0));
    if got == 0 {
        None
    } else if got >= want {
        Some(sum.over(Real::from_u64(got as u64)))
    } else {
        let rest = worst_price(prices, sizes, face, 5).times(Real::from_u64((want - got) as u64));
        Some(sum.plus(rest).over(Real::from_u64(want)))
    }
}

/// What a walk takes, and what that costs.
fn walk_levels(
    prices: &[Real; 5],
    sizes: &[Real; 5],
    requested_contracts: u64,
    contract_face: Real,
    limit: Option<PriceLimit>,
) -> (r: (u64, Real))
    ensures
        (r.0 as nat, r.1) == walked(
            prices@,
            sizes@,
            requested_contracts,
            contract_face,
            limit,
            0,
            0,
            Real::from_u64(0),
        ),
        r.0 <= requested_contracts,
{
    let zero: Real = Real::from_u64(0);
    let mut got: u64 = 0;
    let mut sum: Real = zero;
    let mut i: usize = 0;
    let mut done: bool = false;
    let ghost end = walked(prices@, sizes@, requested_contracts, contract_face, limit, 0, 0, zero);
    while i < 5 && !done
        invariant
            i <= 5,
            zero == Real::from_u64(0),
            got <= requested_contracts,
            done ==> (got as nat, sum) == end,
            !done ==> walked(
                prices@,
                sizes@,
                requested_contracts,
                contract_face,
                limit,
                i as int,
                got as nat,
                sum,
            ) == end,
        decreases 5 - i,
    {
        if !sizes[i].le(zero) {
            let price_ok: bool = match &limit {
                Some(l) => if l.is_buy {
                    prices[i].le(l.price)
                } else {
                    l.price.le(prices[i])
                },
                None => true,
            };
            if !price_ok {
                done = true;
            } else {
                let level_capacity: u64 = sizes[i].over(contract_face).to_u64();
                if level_capacity > 0 {
                    let need: u64 = requested_contracts - got;
                    let take: u64 = if level_capacity < need { level_capacity } else { need };
                    sum = sum.plus(prices[i].times(Real::from_u64(take)));
                    got = got + take;
                    if got >= requested_contracts {
                        done = true;
                    }
                }
            }
        }
        i = i + 1;
    }
    (got, sum)
}

fn walk(
    prices: &[Real; 5],
    sizes: &[Real; 5],
    requested_contracts: u64,
    contract_face: Real,
    limit: Option<PriceLimit>,
) -> (r: LadderFill)
    ensures
        r == ladder_fill(prices@, sizes@, requested_contracts, contract_face, limit),
{
    let (got, sum) = walk_levels(prices, sizes, requested_contracts, contract_face, limit);
    if got == 0 {
        LadderFill::zero()
    } else {
        LadderFill {
            filled_contracts: got,
            avg_price: sum.over(Real::from_u64(got)),
            fully_filled: got >= requested_contracts,
        }
    }
}

/// The price at which a market order is done along the opposite side of a book. What the visible
/// levels cannot fill is done at the price of the deepest of them.
pub fn market_exit_price(
    prices: &[Real; 5],
    sizes: &[Real; 5],
    requested_contracts: u64,
    contract_face: Real,
) -> (r: Option<Real>)
    ensures
        r == market_price(prices@, sizes@, requested_contracts, contract_face),
{
    let (got, sum) = walk_levels(prices, sizes, requested_contracts, contract_face, None);
    if got == 0 {
        return None;
    }
    if got >= requested_contracts {
        return Some(sum.over(Real::from_u64(got)));
    }
    let zero: Real = Real::from_u64(0);
    let mut worst: Real = zero;
    let mut i: usize = 0;
    while i < 5
        invariant
            i <= 5,
            zero == Real::from_u64(0),
            worst == worst_price(prices@, sizes@, contract_face, i as nat),
        decreases 5 - i,
    {
        if !sizes[i].le(zero) && sizes[i].over(contract_face).to_u64() > 0 {
            worst = prices[i];
        }
        i = i + 1;
    }
    let rest: Real = worst.times(Real::from_u64(requested_contracts - got));
    Some(sum.plus(rest).over(Real::from_u64(requested_contracts)))
}

/// Fills a limit order along the opposite side of a book: asks for a buyer, bids for a seller.
pub fn walk_ladder_limit(
    prices: &[Real; 5],
    sizes: &[Real; 5],
    requested_contracts: u64,
    contract_face: Real,
    limit_price: Real,
    is_buy: bool,
) -> (r: LadderFill)
    ensures
        r == ladder_fill(
            prices@,
            sizes@,
            requested_contracts,
            contract_face,
            Some(PriceLimit { price: limit_price, is_buy }),
        ),
        r.filled_contracts <= requested_contracts,
{
    proof {
        lemma_walk_bound(
            prices@,
            sizes@,
            requested_contracts,
            contract_face,
            Some(PriceLimit { price: limit_price, is_buy }),
            0,
            0,
            Real::from_u64(0),
        );
    }
    walk(
        prices,
        sizes,
        requested_contracts,
        contract_face,
        Some(PriceLimit { price: limit_price, is_buy }),
    )
}

/// Fills a market order along the opposite side of a book, at any price.
pub fn walk_ladder_market(
    prices: &[Real; 5],
    sizes: &[Real; 5],
    requested_contracts: u64,
    contract_face: Real,
) -> (r: LadderFill)
    ensures
        r == ladder_fill(prices@, sizes@, requested_contracts, contract_face, None),
        r.filled_contracts <= requested_contracts,
{
    proof {
        lemma_walk_bound(
            prices@,
            sizes@,
            requested_contracts,
            contract_face,
            None,
            0,
            0,
            Real::from_u64(0),
        );
    }
    walk(prices, sizes, requested_contracts, contract_face, None)
}

/// A fill is never larger than what was asked for, and is complete only when it is as large.
pub proof fn law_fill_is_bounded(
    prices: Seq<Real>,
    sizes: Seq<Real>,
    want: u64,
    face: Real,
    limit: Option<PriceLimit>,
)
    ensures
        ladder_fill(prices, sizes, want, face, limit).filled_contracts <= want,
        ladder_fill(prices, sizes, want, face, limit).fully_filled ==> ladder_fill(
            prices,
            sizes,
            want,
            face,
            limit,
        ).filled_contracts == want,
{
    lemma_walk_bound(prices, sizes, want, face, limit, 0, 0, Real::from_u64(0));
}

/// Nothing is filled beyond the limit: when the best level that is there lies beyond it,
/// nothing is filled at all.
pub proof fn law_limit_is_respected(
    prices: Seq<Real>,
    sizes: Seq<Real>,
    want: u64,
    face: Real,
    limit: Option<PriceLimit>,
    best: int,
)
    requires
        0 <= best < 5,
        forall|i: int| 0 <= i < best ==> (#[trigger] sizes[i]).le(Real::from_u64(0)),
        !sizes[best].le(Real::from_u64(0)),
        !within(prices[best], limit),
    ensures
        ladder_fill(prices, sizes, want, face, limit).is_nothing(),
{
    lemma_absent_levels(prices, sizes, want, face, limit, 0, best);
}

proof fn lemma_absent_levels(
    prices: Seq<Real>,
    sizes: Seq<Real>,
    want: u64,
    face: Real,
    limit: Option<PriceLimit>,
    level: int,
    best: int,
)
    requires
        0 <= level <= best < 5,
        forall|i: int| 0 <= i < best ==> (#[trigger] sizes[i]).le(Real::from_u64(0)),
        !sizes[best].le(Real::from_u64(0)),
        !within(prices[best], limit),
    ensures
        walked(prices, sizes, want, face, limit, level, 0, Real::from_u64(0)).0 == 0,
    decreases best - level,
{
    if level < best {
        lemma_absent_levels(prices, sizes, want, face, limit, level + 1, best);
    }
}

/// The levels that a limit order may use are all within its limit: the fill does not change
/// when what lies behind the first level beyond the limit changes.
pub proof fn law_fill_ignores_what_lies_beyond(
    prices: Seq<Real>,
    sizes: Seq<Real>,
    prices2: Seq<Real>,
    sizes2: Seq<Real>,
    want: u64,
    face: Real,
    limit: Option<PriceLimit>,
    beyond: int,
)
    requires
        0 <= beyond < 5,
        forall|i: int| 0 <= i <= beyond ==> #[trigger] prices[i] == prices2[i] && sizes[i] == sizes2[i],
        !sizes[beyond].le(Real::from_u64(0)),
        !within(prices[beyond], limit),
    ensures
        ladder_fill(prices, sizes, want, face, limit) == ladder_fill(prices2, sizes2, want, face, limit),
{
    lemma_same_until(prices, sizes, prices2, sizes2, want, face, limit, beyond, 0, 0, Real::from_u64(0));
}

proof fn lemma_same_until(
    prices: Seq<Real>,
    sizes: Seq<Real>,
    prices2: Seq<Real>,
    sizes2: Seq<Real>,
    want: u64,
    face: Real,
    limit: Option<PriceLimit>,
    beyond: int,
    level: int,
    got: nat,
    sum: Real,
)
    requires
        0 <= level <= beyond < 5,
        forall|i: int| 0 <= i <= beyond ==> #[trigger] prices[i] == prices2[i] && sizes[i] == sizes2[i],
        !sizes[beyond].le(Real::from_u64(0)),
        !within(prices[beyond], limit),
    ensures
        walked(prices, sizes, want, face, limit, level, got, sum) == walked(
            prices2,
            sizes2,
            want,
            face,
            limit,
            level,
            got,
            sum,
        ),
    decreases beyond - level,
{
    assert(prices[level] == prices2[level] && sizes[level] == sizes2[level]);
    if level < beyond {
        lemma_same_until(prices, sizes, prices2, sizes2, want, face, limit, beyond, level + 1, got, sum);
        let take = if capacity(sizes[level], face) < want - got {
            capacity(sizes[level], face) as nat
        } else {
            (want - got) as nat
        };
        let sum2 = sum.plus(prices[level].times(Real::from_u64(take as u64)));
        lemma_same_until(
            prices,
            sizes,
            prices2,
            sizes2,
            want,
            face,
            limit,
            beyond,
            level + 1,
            got + take,
            sum2,
        );
    }
}

/// A market order that the visible levels fill is done at the mean price of its fill, and one
/// that they fill in part is done at a price for all of it.
pub proof fn law_market_price_covers_all(prices: Seq<Real>, sizes: Seq<Real>, want: u64, face: Real)
    ensures
        ({
            let fill = ladder_fill(prices, sizes, want, face, None);
            &&& market_price(prices, sizes, want, face) is None <==> fill.is_nothing()
            &&& !fill.is_nothing() && fill.fully_filled ==> market_price(prices, sizes, want, face)
                == Some(fill.avg_price)
        }),
{
    lemma_walk_bound(prices, sizes, want, face, None, 0, 0, Real::from_u64(0));
}

} // verus!
