//! Laws of the engine, stated over the same specifications its
//! contracts use and proved for all inputs.

use vstd::prelude::*;

use crate::engine::MetaJuke;
use crate::math::{
    fee_amount, lemma_scale_le, lemma_shares_within_pool, royalty_pool, sum_pct, sum_shares,
    BPS_DENOM, PCT_DENOM,
};
use crate::table::cast_vote;

verus! {

/// Conservation of value in distribution: the platform fee and the
/// royalty pool partition the payment exactly, and the truncated shares
/// of a split summing to 100 never add up to more than the pool — no
/// value is created, and the rounding dust stays on the custodial
/// account.
pub proof fn lemma_payment_conservation(payment: int, fee_bps: int, split: Seq<(u64, u32)>)
    requires
        0 <= payment,
        0 <= fee_bps <= BPS_DENOM,
        sum_pct(split) == PCT_DENOM,
    ensures
        fee_amount(payment, fee_bps) + royalty_pool(payment, fee_bps) == payment,
        0 <= fee_amount(payment, fee_bps) <= payment,
        0 <= sum_shares(split, royalty_pool(payment, fee_bps)) <= royalty_pool(
            payment,
            fee_bps,
        ),
{
    lemma_scale_le(payment, fee_bps, BPS_DENOM as int);
    lemma_shares_within_pool(split, royalty_pool(payment, fee_bps));
}

/// Skip voting is idempotent per caller: casting a vote on a ballot
/// that already holds it changes nothing, and casting twice yields what
/// one cast yields — a repeat vote never raises the tally.
pub proof fn lemma_vote_idempotent(votes: Seq<u64>, u: u64)
    ensures
        votes.contains(u) ==> cast_vote(votes, u) == votes,
        cast_vote(cast_vote(votes, u), u) == cast_vote(votes, u),
        cast_vote(votes, u).len() <= votes.len() + 1,
{
    if !votes.contains(u) {
        assert(votes.push(u)[votes.len() as int] == u);
        assert(cast_vote(votes, u).contains(u));
    }
}

/// The request ledger never hands out the same identifier twice: two
/// distinct receipts carry distinct identifiers.
pub proof fn lemma_request_ids_unique(engine: MetaJuke, i: int, j: int)
    requires
        engine.wf(),
        0 <= i < engine.requests@.len(),
        0 <= j < engine.requests@.len(),
        i != j,
    ensures
        engine.requests@[i].request_id != engine.requests@[j].request_id,
{
}

} // verus!
