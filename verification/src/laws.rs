use vstd::prelude::*;

verus! {

use crate::errors::BettingError;
use crate::state::paid_out;
use crate::state::BettingPlatform;
use crate::state::BET_STAKE;

/// Conservation: in every well-formed platform, every competition's total
/// pool is exactly the sum of its two asset pools. `place_bet` preserves
/// well-formedness, so this holds after every bet.
pub proof fn lemma_pool_conservation(p: BettingPlatform, i: int)
    requires
        p.wf(),
        0 <= i < p.competitions@.len(),
    ensures
        p.competitions@[i].total_pool == p.competitions@[i].token_a_pool
            + p.competitions@[i].token_b_pool,
{
    assert(p.comp_ok(i));
}

/// Escrow solvency: in every well-formed platform, a competition's escrow
/// balance is exactly its total pool minus everything already disbursed
/// (payouts, refunds and the collected fee) — so the disbursements never
/// exceed the total pool and the balance never goes negative.
pub proof fn lemma_escrow_conservation(p: BettingPlatform, i: int)
    requires
        p.wf(),
        0 <= i < p.competitions@.len(),
    ensures
        p.escrows@[i] == p.competitions@[i].total_pool - paid_out(p.bets@, i)
            - p.competitions@[i].collected_fee,
        paid_out(p.bets@, i) + p.competitions@[i].collected_fee
            <= p.competitions@[i].total_pool,
{
    assert(p.comp_ok(i));
}

/// At-most-one bet: once a participant holds a bet on a competition, a
/// second `place_bet` for the same pair fails with `AlreadyBet`, whenever
/// the request would otherwise be acceptable (platform unpaused, clock
/// window open, competition active, a valid asset and the fixed stake).
pub proof fn lemma_at_most_one_bet(
    p: BettingPlatform,
    user: u64,
    id: Seq<char>,
    chosen_token: u64,
    amount: u64,
    now: i64,
)
    requires
        !p.config.is_paused,
        p.has_competition(id),
        p.has_bet(user, p.comp_index(id)),
        ({
            let c = p.competitions@[p.comp_index(id)];
            &&& c.start_time <= now < c.end_time
            &&& c.status is Active
            &&& (chosen_token == c.token_a || chosen_token == c.token_b)
            &&& amount == BET_STAKE
        }),
    ensures
        p.place_bet_outcome(user, id, chosen_token, amount, now) == Err::<(), BettingError>(
            BettingError::AlreadyBet,
        ),
{
}

/// At-most-one claim: once a bet is claimed, a second `claim_winnings` for
/// it fails with `AlreadyClaimed`; the bet's recorded payout never changes
/// again (the claim and refund operations also state this frame condition
/// directly).
pub proof fn lemma_at_most_one_claim(p: BettingPlatform, user: u64, id: Seq<char>)
    requires
        p.has_competition(id),
        p.has_bet(user, p.comp_index(id)),
        p.bets@[p.bet_index(user, p.comp_index(id))].claimed,
        ({
            let c = p.competitions@[p.comp_index(id)];
            let b = p.bets@[p.bet_index(user, p.comp_index(id))];
            &&& c.status is Resolved
            &&& (c.winner_token matches Some(w) && b.chosen_token == w)
        }),
    ensures
        p.claim_winnings_outcome(user, id) == Err::<(), BettingError>(BettingError::AlreadyClaimed),
{
}

/// At-most-one refund: once a bet is claimed or refunded, a second
/// `emergency_refund` for it fails with `AlreadyRefunded`.
pub proof fn lemma_at_most_one_refund(p: BettingPlatform, caller: u64, user: u64, id: Seq<char>)
    requires
        caller == p.config.authority,
        p.has_competition(id),
        p.has_bet(user, p.comp_index(id)),
        p.bets@[p.bet_index(user, p.comp_index(id))].claimed,
        ({
            let c = p.competitions@[p.comp_index(id)];
            c.status is Paused || c.status is Cancelled
        }),
    ensures
        p.emergency_refund_outcome(caller, user, id) == Err::<(), BettingError>(
            BettingError::AlreadyRefunded,
        ),
{
}

/// Timing gate: a bet before the start time fails `CompetitionNotStarted`;
/// a bet at or after the end time fails `CompetitionEnded`; a bet exactly at
/// the start time succeeds when the competition is `Active` and the request
/// is otherwise acceptable.
pub proof fn lemma_timing_gate(
    p: BettingPlatform,
    user: u64,
    id: Seq<char>,
    chosen_token: u64,
    amount: u64,
    now: i64,
)
    requires
        !p.config.is_paused,
        p.has_competition(id),
    ensures
        now < p.competitions@[p.comp_index(id)].start_time ==> p.place_bet_outcome(
            user,
            id,
            chosen_token,
            amount,
            now,
        ) == Err::<(), BettingError>(BettingError::CompetitionNotStarted),
        p.competitions@[p.comp_index(id)].start_time <= now && now >= p.competitions@[p.comp_index(
            id,
        )].end_time ==> p.place_bet_outcome(user, id, chosen_token, amount, now) == Err::<
            (),
            BettingError,
        >(BettingError::CompetitionEnded),
        ({
            let c = p.competitions@[p.comp_index(id)];
            &&& now == c.start_time
            &&& now < c.end_time
            &&& c.status is Active
            &&& (chosen_token == c.token_a || chosen_token == c.token_b)
            &&& amount == BET_STAKE
            &&& !p.has_bet(user, p.comp_index(id))
            &&& c.total_pool + amount <= u64::MAX
        }) ==> p.place_bet_outcome(user, id, chosen_token, amount, now) == Ok::<(), BettingError>(
            (),
        ),
{
}

/// The defensive guards of `claim_winnings` cannot fire in a well-formed
/// ledger: a resolved competition always carries a winner, and the pool a
/// winning claimant bet into holds at least their own stake, so it is never
/// empty. The guards remain in the code against future changes to the state
/// machine.
pub proof fn lemma_defensive_guards_unreachable(p: BettingPlatform, user: u64, id: Seq<char>)
    requires
        p.wf(),
        p.has_competition(id),
        p.has_bet(user, p.comp_index(id)),
    ensures
        p.claim_winnings_outcome(user, id) != Err::<(), BettingError>(BettingError::NoWinner),
        p.claim_winnings_outcome(user, id) != Err::<(), BettingError>(BettingError::NoWinnerPool),
{
    assert(p.comp_ok(p.comp_index(id)));
    assert(p.bet_ok(p.bet_index(user, p.comp_index(id))));
}

/// Refunds are owed and paid: for an unclaimed bet on a paused or cancelled
/// competition, the authority's `emergency_refund` succeeds — the escrow of
/// a competition that was never resolved still holds every unclaimed stake,
/// so the full original amount is always available.
pub proof fn lemma_refund_always_funded(p: BettingPlatform, caller: u64, user: u64, id: Seq<char>)
    requires
        caller == p.config.authority,
        p.has_competition(id),
        p.has_bet(user, p.comp_index(id)),
        !p.bets@[p.bet_index(user, p.comp_index(id))].claimed,
        ({
            let c = p.competitions@[p.comp_index(id)];
            c.status is Paused || c.status is Cancelled
        }),
    ensures
        p.emergency_refund_outcome(caller, user, id) is Ok,
{
}

/// Refund exclusivity: `emergency_refund` succeeds only while the
/// competition is `Paused` or `Cancelled` (the refund being the exact
/// original stake, independent of the pools, is stated by
/// `emergency_refund` itself).
pub proof fn lemma_refund_exclusivity(p: BettingPlatform, caller: u64, user: u64, id: Seq<char>)
    requires
        p.emergency_refund_outcome(caller, user, id) is Ok,
    ensures
        p.has_competition(id),
        ({
            let c = p.competitions@[p.comp_index(id)];
            c.status is Paused || c.status is Cancelled
        }),
{
}

} // verus!
