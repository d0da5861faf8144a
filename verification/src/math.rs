//! Pricing and royalty arithmetic.
//!
//! A payment is priced in basis points (10000 = 1.0x), a platform fee is
//! taken in basis points, and the remaining pool is split by whole
//! percentages. All divisions truncate toward zero on the non-negative
//! values used here; the lemmas below bound the rounding dust.

use vstd::prelude::*;

verus! {

/// Basis-point denominator: 10000 basis points are 1.0x.
pub const BPS_DENOM: u32 = 10000;

/// The platform fee is rejected above this many basis points (20%).
pub const FEE_CAP_BPS: u32 = 2000;

/// Royalty percentages are whole percents of the pool.
pub const PCT_DENOM: u32 = 100;

/// Largest accepted base price. Keeps `base_price * multiplier` within
/// `i128` for every `u32` multiplier.
pub const MAX_BASE_PRICE: i128 = 1000000000000000000000000000;

/// The priced cost of a request: base price scaled by the table's
/// basis-point multiplier, truncating.
pub open spec fn final_price(base: int, multiplier: int) -> int {
    base * multiplier / (BPS_DENOM as int)
}

/// The platform's cut of a payment, in basis points, truncating.
pub open spec fn fee_amount(payment: int, fee_bps: int) -> int {
    payment * fee_bps / (BPS_DENOM as int)
}

/// What is left of a payment once the platform fee is taken.
pub open spec fn royalty_pool(payment: int, fee_bps: int) -> int {
    payment - fee_amount(payment, fee_bps)
}

/// One recipient's cut of the royalty pool, in whole percent, truncating.
pub open spec fn share_amount(pool: int, pct: int) -> int {
    pool * pct / (PCT_DENOM as int)
}

/// The percentages of a royalty split, summed.
pub open spec fn sum_pct(split: Seq<(u64, u32)>) -> int
    decreases split.len(),
{
    if split.len() == 0 {
        0
    } else {
        sum_pct(split.drop_last()) + split.last().1
    }
}

/// The recipients' shares of a pool, summed.
pub open spec fn sum_shares(split: Seq<(u64, u32)>, pool: int) -> int
    decreases split.len(),
{
    if split.len() == 0 {
        0
    } else {
        sum_shares(split.drop_last(), pool) + share_amount(pool, split.last().1 as int)
    }
}

/// The summed shares of the split's entries naming recipient `a`: what
/// the distribution pays to that one account.
pub open spec fn shares_to(split: Seq<(u64, u32)>, pool: int, a: u64) -> int
    decreases split.len(),
{
    if split.len() == 0 {
        0
    } else {
        shares_to(split.drop_last(), pool, a) + if split.last().0 == a {
            share_amount(pool, split.last().1 as int)
        } else {
            0
        }
    }
}

/// Percentages are unsigned, so their sum is never negative.
pub proof fn lemma_sum_pct_nonneg(split: Seq<(u64, u32)>)
    ensures
        sum_pct(split) >= 0,
    decreases split.len(),
{
    if split.len() > 0 {
        lemma_sum_pct_nonneg(split.drop_last());
    }
}

/// A prefix of a split never sums to more than the whole split.
pub proof fn lemma_sum_pct_prefix(split: Seq<(u64, u32)>, n: int)
    requires
        0 <= n <= split.len(),
    ensures
        sum_pct(split.take(n)) <= sum_pct(split),
    decreases split.len() - n,
{
    if n == split.len() {
        assert(split.take(n) =~= split);
    } else {
        lemma_sum_pct_prefix(split, n + 1);
        assert(split.take(n + 1).drop_last() =~= split.take(n));
        assert(sum_pct(split.take(n)) <= sum_pct(split.take(n + 1)));
    }
}

/// Walking a split from the front: the sums over one more entry.
pub proof fn lemma_take_step(split: Seq<(u64, u32)>, pool: int, a: u64, k: int)
    requires
        0 <= k < split.len(),
    ensures
        sum_pct(split.take(k + 1)) == sum_pct(split.take(k)) + split[k].1,
        sum_shares(split.take(k + 1), pool) == sum_shares(split.take(k), pool)
            + share_amount(pool, split[k].1 as int),
        shares_to(split.take(k + 1), pool, a) == shares_to(split.take(k), pool, a)
            + if split[k].0 == a {
            share_amount(pool, split[k].1 as int)
        } else {
            0
        },
{
    assert(split.take(k + 1).drop_last() =~= split.take(k));
    assert(split.take(k + 1).last() == split[k]);
}

/// What one account is paid is non-negative and never more than what all
/// accounts are paid together.
pub proof fn lemma_shares_to_bounds(split: Seq<(u64, u32)>, pool: int, a: u64)
    requires
        0 <= pool,
    ensures
        0 <= shares_to(split, pool, a) <= sum_shares(split, pool),
    decreases split.len(),
{
    if split.len() > 0 {
        lemma_shares_to_bounds(split.drop_last(), pool, a);
        let p = split.last().1 as int;
        assert(0 <= pool * p) by (nonlinear_arith)
            requires
                0 <= pool,
                0 <= p,
        ;
        assert(pool * p / (PCT_DENOM as int) >= 0) by (nonlinear_arith)
            requires
                0 <= pool * p,
        ;
    }
}

/// Truncating division loses value: dividing two parts separately never
/// yields more than dividing their sum.
pub proof fn lemma_div_sum(a: int, b: int, d: int)
    requires
        0 <= a,
        0 <= b,
        0 < d,
    ensures
        a / d + b / d <= (a + b) / d,
{
    assert(a / d + b / d <= (a + b) / d) by (nonlinear_arith)
        requires
            0 <= a,
            0 <= b,
            0 < d,
    ;
}

/// Scaling by at most the denominator never grows a non-negative value:
/// `0 <= v * num / den <= v` whenever `0 <= num <= den`.
pub proof fn lemma_scale_le(v: int, num: int, den: int)
    requires
        0 <= v,
        0 <= num <= den,
        0 < den,
    ensures
        0 <= v * num / den <= v,
{
    assert(0 <= v * num / den <= v) by (nonlinear_arith)
        requires
            0 <= v,
            0 <= num <= den,
            0 < den,
    ;
}

/// A bounded base price scaled by any `u32` multiplier stays within `i128`.
pub proof fn lemma_price_bounds(base: int, multiplier: int)
    requires
        0 <= base <= MAX_BASE_PRICE,
        0 <= multiplier <= u32::MAX,
    ensures
        0 <= final_price(base, multiplier) <= i128::MAX,
        0 <= base * multiplier <= i128::MAX,
        final_price(base, multiplier) <= i128::MAX as int / (BPS_DENOM as int),
{
    assert(0 <= base * multiplier <= i128::MAX) by (nonlinear_arith)
        requires
            0 <= base <= MAX_BASE_PRICE,
            0 <= multiplier <= u32::MAX,
    ;
    assert(0 <= base * multiplier / (BPS_DENOM as int) <= base * multiplier)
        by (nonlinear_arith)
        requires
            0 <= base * multiplier,
    ;
    assert(base * multiplier / (BPS_DENOM as int) <= i128::MAX as int / (BPS_DENOM as int))
        by (nonlinear_arith)
        requires
            0 <= base * multiplier <= i128::MAX,
    ;
}

/// The shares of a pool sum to at most the pool's share of the summed
/// percentages; with a split summing to 100, to at most the pool itself.
pub proof fn lemma_sum_shares_le(split: Seq<(u64, u32)>, pool: int)
    requires
        0 <= pool,
    ensures
        0 <= sum_shares(split, pool) <= share_amount(pool, sum_pct(split)),
    decreases split.len(),
{
    if split.len() == 0 {
        lemma_scale_le(pool, 0, PCT_DENOM as int);
        assert(share_amount(pool, 0) == 0);
    } else {
        let rest = split.drop_last();
        let p = split.last().1 as int;
        lemma_sum_shares_le(rest, pool);
        lemma_sum_pct_nonneg(rest);
        assert(0 <= pool * sum_pct(rest)) by (nonlinear_arith)
            requires
                0 <= pool,
                0 <= sum_pct(rest),
        ;
        assert(0 <= pool * p) by (nonlinear_arith)
            requires
                0 <= pool,
                0 <= p,
        ;
        lemma_div_sum(pool * sum_pct(rest), pool * p, PCT_DENOM as int);
        assert(pool * sum_pct(rest) + pool * p == pool * (sum_pct(rest) + p))
            by (nonlinear_arith);
        assert(share_amount(pool, p) >= 0) by {
            assert(pool * p / (PCT_DENOM as int) >= 0) by (nonlinear_arith)
                requires
                    0 <= pool * p,
            ;
        };
    }
}

/// A larger percentage never earns a smaller share of the same pool.
pub proof fn lemma_share_mono(pool: int, p1: int, p2: int)
    requires
        0 <= pool,
        0 <= p1 <= p2,
    ensures
        share_amount(pool, p1) <= share_amount(pool, p2),
{
    assert(pool * p1 / (PCT_DENOM as int) <= pool * p2 / (PCT_DENOM as int))
        by (nonlinear_arith)
        requires
            0 <= pool,
            0 <= p1 <= p2,
    ;
}

/// Walking a split summing to 100 from the front: every prefix's
/// percentages lie in [0, 100] and its shares never exceed the pool.
pub proof fn lemma_prefix_shares(split: Seq<(u64, u32)>, pool: int, k: int)
    requires
        0 <= pool,
        sum_pct(split) == PCT_DENOM,
        0 <= k <= split.len(),
    ensures
        0 <= sum_pct(split.take(k)) <= PCT_DENOM,
        0 <= sum_shares(split.take(k), pool) <= pool,
{
    lemma_sum_pct_nonneg(split.take(k));
    lemma_sum_pct_prefix(split, k);
    lemma_sum_shares_le(split.take(k), pool);
    lemma_share_mono(pool, sum_pct(split.take(k)), PCT_DENOM as int);
    assert(pool * (PCT_DENOM as int) / (PCT_DENOM as int) == pool) by (nonlinear_arith)
        requires
            0 <= pool,
    ;
}

/// With a split summing to exactly 100, the truncated shares never exceed
/// the pool: no value is created by distribution.
pub proof fn lemma_shares_within_pool(split: Seq<(u64, u32)>, pool: int)
    requires
        0 <= pool,
        sum_pct(split) == PCT_DENOM,
    ensures
        0 <= sum_shares(split, pool) <= pool,
{
    lemma_sum_shares_le(split, pool);
    assert(share_amount(pool, PCT_DENOM as int) == pool) by {
        assert(pool * (PCT_DENOM as int) / (PCT_DENOM as int) == pool)
            by (nonlinear_arith)
            requires
                0 <= pool,
        ;
    };
}

} // verus!
