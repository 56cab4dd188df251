use vstd::prelude::*;

verus! {

use crate::state::FEE_DENOMINATOR;
use crate::state::MAX_FEE_BPS;

/// The platform's cut of a competition's total pool:
/// `floor(total_pool * fee_bps / 10000)`.
pub open spec fn spec_fee_amount(total_pool: int, fee_bps: int) -> int {
    total_pool * fee_bps / (FEE_DENOMINATOR as int)
}

/// What remains of the total pool for distribution among winners once the
/// fee is taken.
pub open spec fn spec_distributable(total_pool: int, fee_bps: int) -> int {
    total_pool - spec_fee_amount(total_pool, fee_bps)
}

/// A winner's pari-mutuel share: the fee-reduced pool, scaled by the
/// winner's fraction of the winning pool, rounded down.
pub open spec fn spec_payout(total_pool: int, fee_bps: int, amount: int, winner_pool: int) -> int {
    spec_distributable(total_pool, fee_bps) * amount / winner_pool
}

/// The fee never exceeds the pool it is taken from.
pub proof fn lemma_fee_le_total(total_pool: int, fee_bps: int)
    requires
        0 <= total_pool,
        0 <= fee_bps <= MAX_FEE_BPS,
    ensures
        0 <= spec_fee_amount(total_pool, fee_bps) <= total_pool,
{
    let d = FEE_DENOMINATOR as int;
    if total_pool == 0 {
        assert(total_pool * fee_bps == 0) by {
            vstd::arithmetic::mul::lemma_mul_by_zero_is_zero(fee_bps);
        }
        vstd::arithmetic::div_mod::lemma_div_of0(d);
    } else {
        vstd::arithmetic::mul::lemma_mul_nonnegative(total_pool, fee_bps);
        vstd::arithmetic::div_mod::lemma_div_pos_is_pos(total_pool * fee_bps, d);
        vstd::arithmetic::mul::lemma_mul_left_inequality(total_pool, fee_bps, d);
        vstd::arithmetic::div_mod::lemma_div_is_ordered(total_pool * fee_bps, total_pool * d, d);
        vstd::arithmetic::div_mod::lemma_div_by_multiple(total_pool, d);
    }
}

/// A single payout never exceeds the distributable pool, as long as the
/// winner's stake is no larger than the winning pool.
pub proof fn lemma_payout_le_distributable(dist: int, amount: int, winner_pool: int)
    requires
        0 <= dist,
        0 < winner_pool,
        0 <= amount <= winner_pool,
    ensures
        0 <= dist * amount / winner_pool <= dist,
{
    if dist == 0 {
        assert(dist * amount == 0) by {
            vstd::arithmetic::mul::lemma_mul_by_zero_is_zero(amount);
        }
        vstd::arithmetic::div_mod::lemma_div_of0(winner_pool);
    } else {
        vstd::arithmetic::mul::lemma_mul_nonnegative(dist, amount);
        vstd::arithmetic::div_mod::lemma_div_pos_is_pos(dist * amount, winner_pool);
        vstd::arithmetic::mul::lemma_mul_left_inequality(dist, amount, winner_pool);
        vstd::arithmetic::div_mod::lemma_div_is_ordered(
            dist * amount,
            dist * winner_pool,
            winner_pool,
        );
        vstd::arithmetic::div_mod::lemma_div_by_multiple(dist, winner_pool);
    }
}

/// Sum of a sequence of stakes.
pub open spec fn sum_amounts(amounts: Seq<u64>) -> int
    decreases amounts.len(),
{
    if amounts.len() == 0 {
        0
    } else {
        sum_amounts(amounts.drop_last()) + amounts.last()
    }
}

/// Sum of the pari-mutuel payouts of a sequence of winning stakes, under one
/// total pool, fee rate and winning pool.
pub open spec fn sum_payouts(
    amounts: Seq<u64>,
    total_pool: int,
    fee_bps: int,
    winner_pool: int,
) -> int
    decreases amounts.len(),
{
    if amounts.len() == 0 {
        0
    } else {
        sum_payouts(amounts.drop_last(), total_pool, fee_bps, winner_pool) + spec_payout(
            total_pool,
            fee_bps,
            amounts.last() as int,
            winner_pool,
        )
    }
}

pub proof fn lemma_sum_amounts_nonneg(amounts: Seq<u64>)
    ensures
        0 <= sum_amounts(amounts),
    decreases amounts.len(),
{
    if amounts.len() > 0 {
        lemma_sum_amounts_nonneg(amounts.drop_last());
    }
}

/// A floor-divided share, scaled back up by the divisor, never exceeds the
/// exact product it rounds down.
proof fn lemma_payout_scaled(dist: int, a: int, wp: int)
    requires
        0 <= dist,
        0 <= a,
        0 < wp,
    ensures
        0 <= (dist * a / wp) * wp <= dist * a,
{
    vstd::arithmetic::mul::lemma_mul_nonnegative(dist, a);
    vstd::arithmetic::div_mod::lemma_fundamental_div_mod(dist * a, wp);
    vstd::arithmetic::div_mod::lemma_mod_bound(dist * a, wp);
    vstd::arithmetic::div_mod::lemma_div_pos_is_pos(dist * a, wp);
    vstd::arithmetic::mul::lemma_mul_nonnegative(dist * a / wp, wp);
    vstd::arithmetic::mul::lemma_mul_is_commutative(wp, dist * a / wp);
}

/// Summed payouts, scaled up by the winning pool, never exceed the
/// distributable pool scaled by the summed stakes.
proof fn lemma_sum_payouts_scaled(amounts: Seq<u64>, total_pool: int, fee_bps: int, winner_pool: int)
    requires
        0 <= total_pool,
        0 <= fee_bps <= MAX_FEE_BPS,
        0 < winner_pool,
    ensures
        0 <= sum_payouts(amounts, total_pool, fee_bps, winner_pool),
        sum_payouts(amounts, total_pool, fee_bps, winner_pool) * winner_pool
            <= spec_distributable(total_pool, fee_bps) * sum_amounts(amounts),
    decreases amounts.len(),
{
    let dist = spec_distributable(total_pool, fee_bps);
    lemma_fee_le_total(total_pool, fee_bps);
    if amounts.len() == 0 {
        vstd::arithmetic::mul::lemma_mul_by_zero_is_zero(winner_pool);
        vstd::arithmetic::mul::lemma_mul_by_zero_is_zero(dist);
    } else {
        let rest = amounts.drop_last();
        let a = amounts.last() as int;
        let s_rest = sum_payouts(rest, total_pool, fee_bps, winner_pool);
        let p = spec_payout(total_pool, fee_bps, a, winner_pool);
        lemma_sum_payouts_scaled(rest, total_pool, fee_bps, winner_pool);
        lemma_payout_scaled(dist, a, winner_pool);
        vstd::arithmetic::div_mod::lemma_div_pos_is_pos(dist * a, winner_pool);
        vstd::arithmetic::mul::lemma_mul_is_distributive_add_other_way(winner_pool, s_rest, p);
        vstd::arithmetic::mul::lemma_mul_is_distributive_add(dist, sum_amounts(rest), a);
    }
}

/// The rounding residue stays in escrow: the fee plus the payouts of any set
/// of winning stakes that fit into the winning pool never exceed the total
/// pool. Floor division only ever leaves dust behind; it never creates
/// value.
pub proof fn lemma_rounding_residue(
    amounts: Seq<u64>,
    total_pool: u64,
    fee_bps: u16,
    winner_pool: u64,
)
    requires
        fee_bps <= MAX_FEE_BPS,
        0 < winner_pool,
        sum_amounts(amounts) <= winner_pool,
    ensures
        spec_fee_amount(total_pool as int, fee_bps as int) + sum_payouts(
            amounts,
            total_pool as int,
            fee_bps as int,
            winner_pool as int,
        ) <= total_pool,
{
    let total = total_pool as int;
    let bps = fee_bps as int;
    let wp = winner_pool as int;
    let dist = spec_distributable(total, bps);
    let s = sum_payouts(amounts, total, bps, wp);
    lemma_fee_le_total(total, bps);
    lemma_sum_payouts_scaled(amounts, total, bps, wp);
    lemma_sum_amounts_nonneg(amounts);
    if dist == 0 {
        if s > 0 {
            vstd::arithmetic::mul::lemma_mul_strictly_positive(s, wp);
            vstd::arithmetic::mul::lemma_mul_by_zero_is_zero(sum_amounts(amounts));
            assert(false);
        }
    } else {
        vstd::arithmetic::mul::lemma_mul_left_inequality(dist, sum_amounts(amounts), wp);
        if s > dist {
            vstd::arithmetic::mul::lemma_mul_strict_inequality(dist, s, wp);
            assert(false);
        }
    }
}

/// The payout engine: given a competition's total pool, the registry's fee
/// rate, a winning bet's stake and the winning pool, computes the fee amount
/// and the bet's pari-mutuel payout, exactly as `spec_fee_amount` and
/// `spec_payout` state them.
///
/// The arithmetic is widened to 128 bits, and the results are proved to fit
/// back into 64 bits: the fee never exceeds the total pool, and the payout
/// never exceeds the distributable pool.
pub fn compute_payout(total_pool: u64, fee_bps: u16, amount: u64, winner_pool: u64) -> (r: (
    u64,
    u64,
))
    requires
        fee_bps <= MAX_FEE_BPS,
        0 < winner_pool,
        amount <= winner_pool,
        winner_pool <= total_pool,
    ensures
        r.0 == spec_fee_amount(total_pool as int, fee_bps as int),
        r.1 == spec_payout(total_pool as int, fee_bps as int, amount as int, winner_pool as int),
        r.0 + r.1 <= total_pool,
{
    proof {
        lemma_fee_le_total(total_pool as int, fee_bps as int);
    }
    let fee128: u128 = (total_pool as u128) * (fee_bps as u128) / (FEE_DENOMINATOR as u128);
    let fee_amount: u64 = fee128 as u64;
    let distributable: u64 = total_pool - fee_amount;
    proof {
        lemma_payout_le_distributable(distributable as int, amount as int, winner_pool as int);
        vstd::arithmetic::mul::lemma_mul_upper_bound(
            distributable as int,
            u64::MAX as int,
            amount as int,
            u64::MAX as int,
        );
    }
    let payout128: u128 = (distributable as u128) * (amount as u128) / (winner_pool as u128);
    let payout: u64 = payout128 as u64;
    (fee_amount, payout)
}

} // verus!
