use token_betting::errors::BettingError;
use token_betting::payout::compute_payout;
use token_betting::state::Bet;
use token_betting::state::BettingPlatform;
use token_betting::state::Competition;
use token_betting::state::CompetitionStatus;
use token_betting::state::BET_STAKE;

const AUTHORITY: u64 = 1;
const WALLET: u64 = 2;
const ALICE: u64 = 10;
const BOB: u64 = 11;
const CAROL: u64 = 12;
const DAVE: u64 = 13;
const EVE: u64 = 14;
const TOKEN_A: u64 = 100;
const TOKEN_B: u64 = 101;
const START: i64 = 1_000;
const END: i64 = 2_000;

fn resolved_competition(fee_bps: u16, bettors_a: &[u64], bettors_b: &[u64]) -> (BettingPlatform, String) {
    let mut p = BettingPlatform::initialize(AUTHORITY, WALLET, fee_bps).unwrap();
    let id = "race".to_string();
    p.create_competition(AUTHORITY, id.clone(), TOKEN_A, TOKEN_B, START, END, 0)
        .unwrap();
    p.activate_competition(&id, START).unwrap();
    for user in bettors_a {
        p.place_bet(*user, &id, TOKEN_A, BET_STAKE, START).unwrap();
    }
    for user in bettors_b {
        p.place_bet(*user, &id, TOKEN_B, BET_STAKE, START).unwrap();
    }
    p.resolve_competition(AUTHORITY, &id, TOKEN_A, 1500, -300, END).unwrap();
    (p, id)
}

#[test]
fn payout_engine_formula() {
    // A 10% fee on a 1,000,000 pool leaves 900,000 to distribute; a 100,000
    // stake out of a 600,000 winning pool earns 150,000.
    let (fee, payout) = compute_payout(1_000_000, 1000, 100_000, 600_000);
    assert_eq!(fee, 100_000);
    assert_eq!(payout, 150_000);
    // Floor division: 899,999 * 100,000 / 600,000 rounds down.
    let (fee2, payout2) = compute_payout(1_000_001, 1000, 100_000, 600_000);
    assert_eq!(fee2, 100_000);
    assert_eq!(payout2, 150_000);
    // A zero fee rate distributes the whole pool.
    let (fee3, payout3) = compute_payout(1_000_000, 0, 600_000, 600_000);
    assert_eq!(fee3, 0);
    assert_eq!(payout3, 1_000_000);
}

#[test]
fn claim_pays_share_and_fee_once() {
    // Three winners, two losers, 10% fee: pool 500M, fee 50M, each winner
    // gets 450M * 100M / 300M = 150M.
    let (mut p, id) = resolved_competition(1000, &[ALICE, BOB, CAROL], &[DAVE, EVE]);
    assert_eq!(p.escrows[0], 5 * BET_STAKE);
    p.claim_winnings(ALICE, &id).unwrap();
    assert_eq!(p.bets[0].payout_amount, 150_000_000);
    assert!(p.bets[0].claimed);
    // The fee left escrow together with the first payout.
    assert_eq!(p.escrows[0], 500_000_000 - 150_000_000 - 50_000_000);
    assert!(p.competitions[0].fee_collected);
    assert_eq!(p.competitions[0].collected_fee, 50_000_000);
    // Later claims pay the share alone; the fee is not charged again.
    p.claim_winnings(BOB, &id).unwrap();
    assert_eq!(p.bets[1].payout_amount, 150_000_000);
    assert_eq!(p.escrows[0], 150_000_000);
    p.claim_winnings(CAROL, &id).unwrap();
    assert_eq!(p.escrows[0], 0);
    assert_eq!(p.competitions[0].collected_fee, 50_000_000);
}

#[test]
fn second_claim_always_fails_and_payout_is_frozen() {
    let (mut p, id) = resolved_competition(1000, &[ALICE, BOB], &[DAVE]);
    p.claim_winnings(ALICE, &id).unwrap();
    let recorded = p.bets[0].payout_amount;
    assert_eq!(
        p.claim_winnings(ALICE, &id).unwrap_err(),
        BettingError::AlreadyClaimed
    );
    assert_eq!(p.bets[0].payout_amount, recorded);
    // A losing bet cannot claim at all.
    assert_eq!(
        p.claim_winnings(DAVE, &id).unwrap_err(),
        BettingError::NotWinner
    );
    // A participant without a bet cannot claim.
    assert_eq!(
        p.claim_winnings(EVE, &id).unwrap_err(),
        BettingError::BetNotFound
    );
}

#[test]
fn rounding_residue_stays_in_escrow() {
    // A 9.99% fee makes every division inexact: pool 500M, fee 49,950,000,
    // distributable 450,050,000, each of three winners gets
    // floor(450,050,000 * 100M / 300M) = 150,016,666. The two units of dust
    // stay in escrow; the balance never goes negative.
    let (mut p, id) = resolved_competition(999, &[ALICE, BOB, CAROL], &[DAVE, EVE]);
    p.claim_winnings(ALICE, &id).unwrap();
    p.claim_winnings(BOB, &id).unwrap();
    p.claim_winnings(CAROL, &id).unwrap();
    assert_eq!(p.bets[0].payout_amount, 150_016_666);
    let disbursed = 3 * 150_016_666 + 49_950_000;
    assert!(disbursed <= 500_000_000);
    assert_eq!(p.escrows[0], 500_000_000 - disbursed);
    assert_eq!(p.escrows[0], 2);
}

#[test]
fn claim_requires_resolution() {
    let mut p = BettingPlatform::initialize(AUTHORITY, WALLET, 1000).unwrap();
    let id = "race".to_string();
    p.create_competition(AUTHORITY, id.clone(), TOKEN_A, TOKEN_B, START, END, 0)
        .unwrap();
    p.activate_competition(&id, START).unwrap();
    p.place_bet(ALICE, &id, TOKEN_A, BET_STAKE, START).unwrap();
    assert_eq!(
        p.claim_winnings(ALICE, &id).unwrap_err(),
        BettingError::CompetitionNotResolved
    );
    assert_eq!(
        p.claim_winnings(ALICE, &"ghost".to_string()).unwrap_err(),
        BettingError::CompetitionNotFound
    );
}

fn raw_competition(status: CompetitionStatus, winner: Option<u64>, pool_a: u64) -> BettingPlatform {
    // States assembled by hand to reach the defensive guards that the
    // operations themselves never produce.
    let p = BettingPlatform::initialize(AUTHORITY, WALLET, 1000).unwrap();
    let total = pool_a;
    BettingPlatform {
        competitions: vec![Competition {
            competition_id: "race".to_string(),
            token_a: TOKEN_A,
            token_b: TOKEN_B,
            start_time: START,
            end_time: END,
            status,
            total_pool: total,
            token_a_pool: pool_a,
            token_b_pool: 0,
            winner_token: winner,
            escrow: 0,
            created_at: 0,
            token_a_final_performance: 0,
            token_b_final_performance: 0,
            fee_collected: false,
            collected_fee: 0,
        }],
        escrows: vec![total],
        bets: vec![Bet {
            user: ALICE,
            competition: 0,
            chosen_token: TOKEN_A,
            amount: BET_STAKE,
            timestamp: START,
            claimed: false,
            payout_amount: 0,
        }],
        ..p
    }
}

#[test]
fn defensive_guard_no_winner() {
    let mut p = raw_competition(CompetitionStatus::Resolved, None, BET_STAKE);
    let id = "race".to_string();
    assert_eq!(
        p.claim_winnings(ALICE, &id).unwrap_err(),
        BettingError::NoWinner
    );
}

#[test]
fn defensive_guard_no_winner_pool() {
    let mut p = raw_competition(CompetitionStatus::Resolved, Some(TOKEN_A), 0);
    let id = "race".to_string();
    assert_eq!(
        p.claim_winnings(ALICE, &id).unwrap_err(),
        BettingError::NoWinnerPool
    );
}

#[test]
fn escrow_balance_guards_every_disbursement() {
    // Two winners at a 50% fee: the first claim takes 100M fee + 50M share.
    // Dropping the fee rate to zero afterwards would entitle the second
    // winner to 100M, more than the 50M the escrow still holds: the claim is
    // rejected rather than overdrawing the escrow.
    let (mut p, id) = resolved_competition(5000, &[ALICE, BOB], &[]);
    p.claim_winnings(ALICE, &id).unwrap();
    assert_eq!(p.escrows[0], 50_000_000);
    p.update_platform_fee(AUTHORITY, 0).unwrap();
    assert_eq!(
        p.claim_winnings(BOB, &id).unwrap_err(),
        BettingError::InsufficientEscrowBalance
    );
    assert_eq!(p.escrows[0], 50_000_000);
    assert!(!p.bets[1].claimed);
}
