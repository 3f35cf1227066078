//! What an order takes from the levels of a book.

use crate::ladder::ladder_fill;
use crate::ladder::market_price;
use crate::ladder::usable;
use crate::ladder::walked;
use crate::ladder::within;
use crate::ladder::worst_price;
use crate::ladder::PriceLimit;
use crate::number::Real;
use vstd::prelude::*;

verus! {

/// How many contracts are taken from the first `n` levels.
pub open spec fn taken(takes: Seq<nat>, n: nat) -> nat
    decreases n,
{
    if n == 0 {
        0
    } else {
        taken(takes, (n - 1) as nat) + takes[n - 1]
    }
}

/// What is paid on the first `n` levels, one level after the other.
pub open spec fn paid(prices: Seq<Real>, takes: Seq<nat>, n: nat) -> Real
    decreases n,
{
    if n == 0 {
        Real::from_u64(0)
    } else if takes[n - 1] == 0 {
        paid(prices, takes, (n - 1) as nat)
    } else {
        paid(prices, takes, (n - 1) as nat).plus(
            prices[n - 1].times(Real::from_u64(takes[n - 1] as u64)),
        )
    }
}

/// Whether a level is there.
pub open spec fn present(size: Real) -> bool {
    !size.le(Real::from_u64(0))
}

/// Whether an order may take a level: any without a limit, a buyer those that cost no more than the
/// limit, a seller those that pay no less.
pub open spec fn acceptable(price: Real, limit: Option<PriceLimit>) -> bool {
    match limit {
        None => true,
        Some(l) => {
            &&& price.is_number()
            &&& l.price.is_number()
            &&& l.is_buy ==> price.rank() <= l.price.rank()
            &&& !l.is_buy ==> price.rank() >= l.price.rank()
        },
    }
}

/// Whether contracts are taken as an order of a size takes them: from levels that are there and
/// acceptable, whole contracts and no more than a level holds, the first levels first, nothing
/// behind a level that is not acceptable, and as many as there are or as are wanted.
pub open spec fn fair(
    prices: Seq<Real>,
    sizes: Seq<Real>,
    want: u64,
    face: Real,
    limit: Option<PriceLimit>,
    takes: Seq<nat>,
) -> bool {
    &&& takes.len() == 5
    &&& taken(takes, 5) <= want
    &&& forall|i: int|
        0 <= i < 5 && (#[trigger] takes[i]) > 0 ==> present(sizes[i]) && acceptable(prices[i], limit)
            && takes[i] <= sizes[i].over(face).to_u64()
    &&& forall|i: int, j: int|
        0 <= i < j < 5 && present(sizes[i]) && !acceptable(#[trigger] prices[i], limit) ==> (
        #[trigger] takes[j]) == 0
    &&& forall|j: int|
        0 <= j < 5 && present(sizes[j]) && (#[trigger] takes[j]) < sizes[j].over(face).to_u64() ==> {
            ||| taken(takes, (j + 1) as nat) == want
            ||| exists|i: int|
                0 <= i <= j && present(sizes[i]) && !acceptable(#[trigger] prices[i], limit)
        }
}

/// What a walk takes from a level on, level by level.
spec fn steps(
    prices: Seq<Real>,
    sizes: Seq<Real>,
    want: u64,
    face: Real,
    limit: Option<PriceLimit>,
    level: int,
    got: nat,
) -> Seq<nat>
    decreases 5 - level,
{
    if level >= 5 {
        Seq::empty()
    } else if sizes[level].le(Real::from_u64(0)) {
        seq![0nat] + steps(prices, sizes, want, face, limit, level + 1, got)
    } else if !acceptable(prices[level], limit) {
        Seq::new((5 - level) as nat, |i: int| 0nat)
    } else {
        let cap = sizes[level].over(face).to_u64() as nat;
        let take = if cap < want - got { cap } else { (want - got) as nat };
        seq![take] + steps(prices, sizes, want, face, limit, level + 1, got + take)
    }
}

/// What is taken and paid by what was taken before and the rest of a walk.
proof fn lemma_steps(
    prices: Seq<Real>,
    sizes: Seq<Real>,
    want: u64,
    face: Real,
    limit: Option<PriceLimit>,
    before: Seq<nat>,
)
    requires
        before.len() <= 5,
        taken(before, before.len()) <= want,
        forall|i: int|
            0 <= i < before.len() && (#[trigger] before[i]) > 0 ==> present(sizes[i]) && acceptable(
                prices[i],
                limit,
            ) && before[i] <= sizes[i].over(face).to_u64(),
        forall|i: int|
            0 <= i < before.len() && present(sizes[i]) ==> acceptable(#[trigger] prices[i], limit),
        forall|j: int|
            0 <= j < before.len() && present(sizes[j]) && (#[trigger] before[j]) < sizes[j].over(
                face,
            ).to_u64() ==> taken(before, (j + 1) as nat) == want,
    ensures
        ({
            let level = before.len() as int;
            let got = taken(before, before.len());
            let sum = paid(prices, before, before.len());
            let all = before + steps(prices, sizes, want, face, limit, level, got);
            let end = walked(prices, sizes, want, face, limit, level, got, sum);
            &&& fair(prices, sizes, want, face, limit, all)
            &&& end.0 == taken(all, 5)
            &&& got < want || level >= 5 ==> end.1 == paid(prices, all, 5)
        }),
    decreases 5 - before.len(),
{
    let level = before.len() as int;
    let got = taken(before, before.len());
    let sum = paid(prices, before, before.len());
    let rest = steps(prices, sizes, want, face, limit, level, got);
    if level >= 5 {
        assert(before + rest =~= before);
    } else {
        let here = if sizes[level].le(Real::from_u64(0)) || !acceptable(prices[level], limit) {
            0nat
        } else {
            let cap = sizes[level].over(face).to_u64() as nat;
            if cap < want - got { cap } else { (want - got) as nat }
        };
        assert(within(prices[level], limit) == acceptable(prices[level], limit));
        let next = before.push(here);
        lemma_same_start(prices, before, next, before.len());
        assert(taken(next, next.len()) == got + here);
        assert forall|j: int|
            0 <= j < next.len() && present(sizes[j]) && (#[trigger] next[j]) < sizes[j].over(
                face,
            ).to_u64() && (present(sizes[level]) ==> acceptable(prices[level], limit)) implies taken(next, (j + 1) as nat)
            == want by {
            if j < level {
                assert(before[j] == next[j]);
                lemma_same_start(prices, before, next, (j + 1) as nat);
            }
        }
        if present(sizes[level]) && !acceptable(prices[level], limit) {
            let all = before + rest;
            assert forall|j: int| 0 <= j < 5 implies all[j] == if j < level { before[j] } else {
                0nat
            } by {}
            lemma_same_start(prices, before, all, before.len());
            lemma_nothing_more(prices, all, before.len());
            assert forall|j: int|
                0 <= j < 5 && present(sizes[j]) && (#[trigger] all[j]) < sizes[j].over(
                    face,
                ).to_u64() implies (taken(all, (j + 1) as nat) == want || exists|i: int|
                0 <= i <= j && present(sizes[i]) && !acceptable(#[trigger] prices[i], limit)) by {
                if j < level {
                    assert(before[j] == all[j]);
                    lemma_same_start(prices, before, all, (j + 1) as nat);
                } else {
                    assert(!acceptable(prices[level], limit));
                }
            }
            assert forall|i: int| 0 <= i < 5 && (#[trigger] all[i]) > 0 implies present(sizes[i])
                && acceptable(prices[i], limit) && all[i] <= sizes[i].over(face).to_u64() by {
                assert(before[i] == all[i]);
            }
        } else {
            assert forall|i: int| 0 <= i < next.len() && (#[trigger] next[i]) > 0 implies present(
                sizes[i],
            ) && acceptable(prices[i], limit) && next[i] <= sizes[i].over(face).to_u64() by {
                if i < level {
                    assert(before[i] == next[i]);
                }
            }
            lemma_steps(prices, sizes, want, face, limit, next);
            assert(before + rest =~= next + steps(
                prices,
                sizes,
                want,
                face,
                limit,
                level + 1,
                got + here,
            ));
            if got < want && got + here >= want {
                let all = before + rest;
                lemma_same_start(prices, next, all, next.len());
                lemma_all_taken(prices, all, next.len(), want);
            }
            if got == want {
                let all = before + rest;
                lemma_same_start(prices, before, all, before.len());
                lemma_taken_grows(all, before.len(), 5);
                lemma_walk_done(prices, sizes, want, face, limit, level, got, sum);
            }
        }
    }
}

/// A walk that has all that is wanted takes no more.
proof fn lemma_walk_done(
    prices: Seq<Real>,
    sizes: Seq<Real>,
    want: u64,
    face: Real,
    limit: Option<PriceLimit>,
    level: int,
    got: nat,
    sum: Real,
)
    ensures
        got == want ==> walked(prices, sizes, want, face, limit, level, got, sum).0 == want,
    decreases 5 - level,
{
    if level < 5 && got == want {
        lemma_walk_done(prices, sizes, want, face, limit, level + 1, got, sum);
    }
}

/// What is taken from the same first levels is the same.
proof fn lemma_same_start(prices: Seq<Real>, a: Seq<nat>, b: Seq<nat>, n: nat)
    requires
        n <= a.len(),
        n <= b.len(),
        forall|i: int| 0 <= i < n ==> a[i] == b[i],
    ensures
        taken(a, n) == taken(b, n),
        paid(prices, a, n) == paid(prices, b, n),
    decreases n,
{
    if n > 0 {
        lemma_same_start(prices, a, b, (n - 1) as nat);
    }
}

/// Levels of which nothing is taken add nothing.
proof fn lemma_nothing_more(prices: Seq<Real>, a: Seq<nat>, n: nat)
    requires
        n <= a.len(),
        a.len() == 5,
        forall|i: int| n <= i < 5 ==> a[i] == 0,
    ensures
        taken(a, 5) == taken(a, n),
        paid(prices, a, 5) == paid(prices, a, n),
    decreases 5 - n,
{
    if n < 5 {
        lemma_nothing_more(prices, a, n + 1);
    }
}

proof fn lemma_taken_grows(a: Seq<nat>, n: nat, m: nat)
    requires
        n <= m,
    ensures
        taken(a, n) <= taken(a, m),
    decreases m,
{
    if n < m {
        lemma_taken_grows(a, n, (m - 1) as nat);
    }
}

/// Behind the level at which all that is wanted was taken, nothing is.
proof fn lemma_all_taken(prices: Seq<Real>, a: Seq<nat>, n: nat, want: u64)
    requires
        n <= 5,
        a.len() == 5,
        taken(a, 5) <= want,
        taken(a, n) >= want,
    ensures
        taken(a, n) == want,
        taken(a, 5) == want,
        forall|i: int| n <= i < 5 ==> a[i] == 0,
        paid(prices, a, 5) == paid(prices, a, n),
{
    lemma_taken_grows(a, n, 5);
    assert forall|i: int| n <= i < 5 implies a[i] == 0 by {
        lemma_taken_grows(a, n, i as nat);
        lemma_taken_grows(a, (i + 1) as nat, 5);
        assert(taken(a, (i + 1) as nat) == taken(a, i as nat) + a[i]);
    }
    lemma_nothing_more(prices, a, n);
}

/// What an order fills, level by level: the contracts that it takes are fairly taken, they are all
/// that is filled, and the mean price is what they cost together over their number.
pub proof fn law_fill_is_made_of_levels(
    prices: Seq<Real>,
    sizes: Seq<Real>,
    want: u64,
    face: Real,
    limit: Option<PriceLimit>,
) -> (takes: Seq<nat>)
    ensures
        fair(prices, sizes, want, face, limit, takes),
        ({
            let fill = ladder_fill(prices, sizes, want, face, limit);
            &&& fill.filled_contracts == taken(takes, 5)
            &&& fill.filled_contracts == 0 ==> fill.avg_price == Real::from_u64(0)
                && !fill.fully_filled
            &&& fill.filled_contracts > 0 ==> fill.avg_price == paid(prices, takes, 5).over(
                Real::from_u64(fill.filled_contracts),
            )
            &&& fill.filled_contracts > 0 ==> (fill.fully_filled <==> fill.filled_contracts == want)
        }),
{
    let before = Seq::<nat>::empty();
    lemma_steps(prices, sizes, want, face, limit, before);
    let takes = before + steps(prices, sizes, want, face, limit, 0, 0);
    takes
}

/// A buyer pays no more than the limit on any level, a seller gets no less on any; and where the best
/// level that is there is acceptable and holds a contract, something is filled.
pub proof fn law_limits_of_buyers_and_sellers(
    prices: Seq<Real>,
    sizes: Seq<Real>,
    want: u64,
    face: Real,
    bound: Real,
    best: int,
)
    requires
        want > 0,
        0 <= best < 5,
        forall|i: int| 0 <= i < best ==> (#[trigger] sizes[i]).le(Real::from_u64(0)),
        !sizes[best].le(Real::from_u64(0)),
        sizes[best].over(face).to_u64() > 0,
    ensures
        prices[best].le(bound) <==> ladder_fill(
            prices,
            sizes,
            want,
            face,
            Some(PriceLimit { price: bound, is_buy: true }),
        ).filled_contracts > 0,
        bound.le(prices[best]) <==> ladder_fill(
            prices,
            sizes,
            want,
            face,
            Some(PriceLimit { price: bound, is_buy: false }),
        ).filled_contracts > 0,
        ladder_fill(prices, sizes, want, face, None).filled_contracts > 0,
{
    lemma_best_decides(prices, sizes, want, face, Some(PriceLimit { price: bound, is_buy: true }), best);
    lemma_best_decides(prices, sizes, want, face, Some(PriceLimit { price: bound, is_buy: false }), best);
    lemma_best_decides(prices, sizes, want, face, None, best);
}

proof fn lemma_best_decides(
    prices: Seq<Real>,
    sizes: Seq<Real>,
    want: u64,
    face: Real,
    limit: Option<PriceLimit>,
    best: int,
)
    requires
        want > 0,
        0 <= best < 5,
        forall|i: int| 0 <= i < best ==> (#[trigger] sizes[i]).le(Real::from_u64(0)),
        present(sizes[best]),
        sizes[best].over(face).to_u64() > 0,
    ensures
        acceptable(prices[best], limit) <==> ladder_fill(
            prices,
            sizes,
            want,
            face,
            limit,
        ).filled_contracts > 0,
{
    let takes = law_fill_is_made_of_levels(prices, sizes, want, face, limit);
    let fill = ladder_fill(prices, sizes, want, face, limit);
    if acceptable(prices[best], limit) {
        if fill.filled_contracts == 0 {
            lemma_taken_grows(takes, (best + 1) as nat, 5);
            lemma_taken_grows(takes, best as nat, 5);
            assert(taken(takes, (best + 1) as nat) == taken(takes, best as nat) + takes[best]);
            assert(takes[best] == 0);
            assert(exists|i: int|
                0 <= i <= best && present(sizes[i]) && !acceptable(#[trigger] prices[i], limit));
            let i = choose|i: int|
                0 <= i <= best && present(sizes[i]) && !acceptable(#[trigger] prices[i], limit);
            assert(sizes[i].le(Real::from_u64(0)) || i == best);
        }
    } else {
        assert forall|i: int| 0 <= i < 5 implies (#[trigger] takes[i]) == 0 by {
            if i > best {
                assert(!acceptable(prices[best], limit));
            }
        }
        lemma_nothing_more(prices, takes, 0);
    }
}

/// A market order that the levels fill is done at the mean price of its fill. One that they fill in
/// part is done as if the deepest level that holds a contract had held the rest. One that finds no
/// contract is not done at all.
pub proof fn law_market_orders(prices: Seq<Real>, sizes: Seq<Real>, want: u64, face: Real) -> (takes:
    Seq<nat>)
    ensures
        fair(prices, sizes, want, face, None, takes),
        ({
            let price = market_price(prices, sizes, want, face);
            let got = taken(takes, 5);
            &&& price is None <==> got == 0
            &&& got > 0 && got == want ==> price == Some(
                paid(prices, takes, 5).over(Real::from_u64(want)),
            )
            &&& 0 < got < want ==> exists|deepest: int|
                {
                    &&& 0 <= deepest < 5
                    &&& (#[trigger] takes[deepest]) > 0
                    &&& forall|i: int| deepest < i < 5 ==> takes[i] == 0
                    &&& price == Some(
                        paid(prices, takes, 5).plus(
                            prices[deepest].times(Real::from_u64((want - got) as u64)),
                        ).over(Real::from_u64(want)),
                    )
                }
        }),
{
    let takes = law_fill_is_made_of_levels(prices, sizes, want, face, None);
    let before = Seq::<nat>::empty();
    lemma_steps(prices, sizes, want, face, None, before);
    let all = before + steps(prices, sizes, want, face, None, 0, 0);
    let got = taken(all, 5);
    if 0 < got < want {
        let deepest = lemma_deepest(all, 5);
        assert forall|j: int| 0 <= j < 5 implies (usable(sizes[j], face) <==> (#[trigger] all[j])
            > 0) by {
            if usable(sizes[j], face) && all[j] == 0 {
                lemma_taken_grows(all, (j + 1) as nat, 5);
                assert(all[j] < sizes[j].over(face).to_u64());
                let i = choose|i: int|
                    0 <= i <= j && present(sizes[i]) && !acceptable(#[trigger] prices[i], None);
                assert(acceptable(prices[i], None));
            }
        }
        lemma_worst(prices, sizes, face, all, deepest, 5);
    }
    all
}

proof fn lemma_deepest(a: Seq<nat>, n: nat) -> (k: int)
    requires
        n <= a.len(),
        taken(a, n) > 0,
    ensures
        0 <= k < n,
        a[k] > 0,
        forall|i: int| k < i < n ==> a[i] == 0,
    decreases n,
{
    if a[n - 1] > 0 {
        n - 1
    } else {
        lemma_deepest(a, (n - 1) as nat)
    }
}

proof fn lemma_worst(
    prices: Seq<Real>,
    sizes: Seq<Real>,
    face: Real,
    a: Seq<nat>,
    k: int,
    n: nat,
)
    requires
        a.len() == 5,
        n <= 5,
        0 <= k < n,
        forall|j: int| 0 <= j < 5 ==> (usable(sizes[j], face) <==> (#[trigger] a[j]) > 0),
        a[k] > 0,
        forall|i: int| k < i < n ==> a[i] == 0,
    ensures
        worst_price(prices, sizes, face, n) == prices[k],
    decreases n,
{
    assert(usable(sizes[n - 1], face) <==> a[n - 1] > 0);
    if k < n - 1 {
        lemma_worst(prices, sizes, face, a, k, (n - 1) as nat);
    }
}

} // verus!
