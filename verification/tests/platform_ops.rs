use token_betting::errors::BettingError;
use token_betting::state::BettingPlatform;
use token_betting::state::CompetitionStatus;
use token_betting::state::BET_STAKE;

const AUTHORITY: u64 = 1;
const WALLET: u64 = 2;
const ALICE: u64 = 10;
const BOB: u64 = 11;
const TOKEN_A: u64 = 100;
const TOKEN_B: u64 = 101;
const START: i64 = 1_000;
const END: i64 = 2_000;

fn fresh_platform(fee_bps: u16) -> BettingPlatform {
    BettingPlatform::initialize(AUTHORITY, WALLET, fee_bps).unwrap()
}

fn with_active_competition(fee_bps: u16) -> (BettingPlatform, String) {
    let mut p = fresh_platform(fee_bps);
    let id = "race".to_string();
    p.create_competition(AUTHORITY, id.clone(), TOKEN_A, TOKEN_B, START, END, 0)
        .unwrap();
    p.activate_competition(&id, START).unwrap();
    (p, id)
}

#[test]
fn initialize_rejects_fee_above_bound() {
    assert_eq!(
        BettingPlatform::initialize(AUTHORITY, WALLET, 10001).unwrap_err(),
        BettingError::InvalidPlatformFee
    );
    let p = BettingPlatform::initialize(AUTHORITY, WALLET, 10000).unwrap();
    assert_eq!(p.config.platform_fee, 10000);
    assert!(!p.config.is_paused);
    assert_eq!(p.config.total_competitions, 0);
}

#[test]
fn update_platform_fee_rejects_above_bound() {
    let mut p = fresh_platform(1000);
    assert_eq!(
        p.update_platform_fee(AUTHORITY, 10001).unwrap_err(),
        BettingError::InvalidPlatformFee
    );
    assert_eq!(p.config.platform_fee, 1000);
    assert_eq!(
        p.update_platform_fee(ALICE, 500).unwrap_err(),
        BettingError::Unauthorized
    );
    p.update_platform_fee(AUTHORITY, 500).unwrap();
    assert_eq!(p.config.platform_fee, 500);
}

#[test]
fn create_competition_validates_inputs() {
    let mut p = fresh_platform(1000);
    let id = "race".to_string();
    assert_eq!(
        p.create_competition(ALICE, id.clone(), TOKEN_A, TOKEN_B, START, END, 0)
            .unwrap_err(),
        BettingError::Unauthorized
    );
    assert_eq!(
        p.create_competition(AUTHORITY, id.clone(), TOKEN_A, TOKEN_B, START, END, START)
            .unwrap_err(),
        BettingError::InvalidStartTime
    );
    assert_eq!(
        p.create_competition(AUTHORITY, id.clone(), TOKEN_A, TOKEN_B, START, START, 0)
            .unwrap_err(),
        BettingError::InvalidEndTime
    );
    assert_eq!(
        p.create_competition(AUTHORITY, id.clone(), TOKEN_A, TOKEN_A, START, END, 0)
            .unwrap_err(),
        BettingError::DuplicateTokens
    );
    let long_id = "x".repeat(33);
    assert_eq!(
        p.create_competition(AUTHORITY, long_id, TOKEN_A, TOKEN_B, START, END, 0)
            .unwrap_err(),
        BettingError::CompetitionIdTooLong
    );
    p.create_competition(AUTHORITY, id.clone(), TOKEN_A, TOKEN_B, START, END, 0)
        .unwrap();
    assert_eq!(p.config.total_competitions, 1);
    assert_eq!(
        p.create_competition(AUTHORITY, id.clone(), TOKEN_A, TOKEN_B, START, END, 0)
            .unwrap_err(),
        BettingError::CompetitionAlreadyExists
    );
}

#[test]
fn paused_platform_rejects_creation_and_bets() {
    let (mut p, id) = with_active_competition(1000);
    assert_eq!(
        p.emergency_pause(ALICE, true).unwrap_err(),
        BettingError::Unauthorized
    );
    p.emergency_pause(AUTHORITY, true).unwrap();
    assert_eq!(
        p.create_competition(AUTHORITY, "other".to_string(), TOKEN_A, TOKEN_B, START, END, 0)
            .unwrap_err(),
        BettingError::PlatformPaused
    );
    assert_eq!(
        p.place_bet(ALICE, &id, TOKEN_A, BET_STAKE, START).unwrap_err(),
        BettingError::PlatformPaused
    );
    p.emergency_pause(AUTHORITY, false).unwrap();
    p.place_bet(ALICE, &id, TOKEN_A, BET_STAKE, START).unwrap();
}

#[test]
fn activation_requires_upcoming_and_start_time() {
    let mut p = fresh_platform(1000);
    let id = "race".to_string();
    assert_eq!(
        p.activate_competition(&id, START).unwrap_err(),
        BettingError::CompetitionNotFound
    );
    p.create_competition(AUTHORITY, id.clone(), TOKEN_A, TOKEN_B, START, END, 0)
        .unwrap();
    assert_eq!(
        p.activate_competition(&id, START - 1).unwrap_err(),
        BettingError::CompetitionNotStarted
    );
    p.activate_competition(&id, START).unwrap();
    assert_eq!(p.competitions[0].status, CompetitionStatus::Active);
    assert_eq!(
        p.activate_competition(&id, START).unwrap_err(),
        BettingError::InvalidCompetitionStatus
    );
}

#[test]
fn bet_requires_active_status() {
    let mut p = fresh_platform(1000);
    let id = "race".to_string();
    p.create_competition(AUTHORITY, id.clone(), TOKEN_A, TOKEN_B, START, END, 0)
        .unwrap();
    assert_eq!(
        p.place_bet(ALICE, &id, TOKEN_A, BET_STAKE, START).unwrap_err(),
        BettingError::CompetitionNotActive
    );
}

#[test]
fn timing_gate_on_bets() {
    let (mut p, id) = with_active_competition(1000);
    assert_eq!(
        p.place_bet(ALICE, &id, TOKEN_A, BET_STAKE, START - 1).unwrap_err(),
        BettingError::CompetitionNotStarted
    );
    assert_eq!(
        p.place_bet(ALICE, &id, TOKEN_A, BET_STAKE, END).unwrap_err(),
        BettingError::CompetitionEnded
    );
    // Exactly at the start time the bet succeeds while the status is Active.
    p.place_bet(ALICE, &id, TOKEN_A, BET_STAKE, START).unwrap();
}

#[test]
fn bet_validates_token_and_stake() {
    let (mut p, id) = with_active_competition(1000);
    assert_eq!(
        p.place_bet(ALICE, &id, 999, BET_STAKE, START).unwrap_err(),
        BettingError::InvalidTokenChoice
    );
    assert_eq!(
        p.place_bet(ALICE, &id, TOKEN_A, BET_STAKE - 1, START).unwrap_err(),
        BettingError::InvalidBetAmount
    );
    assert_eq!(
        p.place_bet(ALICE, &"ghost".to_string(), TOKEN_A, BET_STAKE, START)
            .unwrap_err(),
        BettingError::CompetitionNotFound
    );
}

#[test]
fn pools_conserved_and_second_bet_rejected() {
    let (mut p, id) = with_active_competition(1000);
    p.place_bet(ALICE, &id, TOKEN_A, BET_STAKE, START).unwrap();
    p.place_bet(BOB, &id, TOKEN_B, BET_STAKE, START + 1).unwrap();
    let c = &p.competitions[0];
    assert_eq!(c.token_a_pool, BET_STAKE);
    assert_eq!(c.token_b_pool, BET_STAKE);
    assert_eq!(c.total_pool, c.token_a_pool + c.token_b_pool);
    assert_eq!(p.escrows[0], c.total_pool);
    // A second bet by the same participant always fails, whichever asset.
    assert_eq!(
        p.place_bet(ALICE, &id, TOKEN_A, BET_STAKE, START + 2).unwrap_err(),
        BettingError::AlreadyBet
    );
    assert_eq!(
        p.place_bet(ALICE, &id, TOKEN_B, BET_STAKE, START + 2).unwrap_err(),
        BettingError::AlreadyBet
    );
    assert_eq!(p.competitions[0].total_pool, 2 * BET_STAKE);
}

#[test]
fn pool_overflow_is_rejected() {
    let (mut p, id) = with_active_competition(1000);
    p.place_bet(ALICE, &id, TOKEN_A, BET_STAKE, START).unwrap();
    p.competitions[0].total_pool = u64::MAX - 1;
    p.competitions[0].token_a_pool = u64::MAX - 1;
    assert_eq!(
        p.place_bet(BOB, &id, TOKEN_A, BET_STAKE, START).unwrap_err(),
        BettingError::MathOverflow
    );
}

#[test]
fn resolve_validates_caller_time_status_winner() {
    let (mut p, id) = with_active_competition(1000);
    p.place_bet(ALICE, &id, TOKEN_A, BET_STAKE, START).unwrap();
    assert_eq!(
        p.resolve_competition(ALICE, &id, TOKEN_A, 1234, -50, END).unwrap_err(),
        BettingError::Unauthorized
    );
    assert_eq!(
        p.resolve_competition(AUTHORITY, &id, TOKEN_A, 1234, -50, END - 1)
            .unwrap_err(),
        BettingError::CompetitionNotEnded
    );
    assert_eq!(
        p.resolve_competition(AUTHORITY, &id, 999, 1234, -50, END).unwrap_err(),
        BettingError::InvalidWinner
    );
    p.resolve_competition(AUTHORITY, &id, TOKEN_A, 1234, -50, END).unwrap();
    assert_eq!(p.competitions[0].status, CompetitionStatus::Resolved);
    assert_eq!(p.competitions[0].winner_token, Some(TOKEN_A));
    assert_eq!(p.competitions[0].token_a_final_performance, 1234);
    assert_eq!(p.competitions[0].token_b_final_performance, -50);
    // Resolved is terminal: a second resolution is rejected.
    assert_eq!(
        p.resolve_competition(AUTHORITY, &id, TOKEN_B, 0, 0, END).unwrap_err(),
        BettingError::InvalidCompetitionStatus
    );
}

#[test]
fn force_status_only_to_paused_or_cancelled() {
    let (mut p, id) = with_active_competition(1000);
    assert_eq!(
        p.set_competition_status(ALICE, &id, CompetitionStatus::Paused).unwrap_err(),
        BettingError::Unauthorized
    );
    assert_eq!(
        p.set_competition_status(AUTHORITY, &id, CompetitionStatus::Resolved)
            .unwrap_err(),
        BettingError::InvalidCompetitionStatus
    );
    p.set_competition_status(AUTHORITY, &id, CompetitionStatus::Paused).unwrap();
    assert_eq!(p.competitions[0].status, CompetitionStatus::Paused);
    // A paused competition may still be cancelled.
    p.set_competition_status(AUTHORITY, &id, CompetitionStatus::Cancelled).unwrap();
    // Cancelled is terminal.
    assert_eq!(
        p.set_competition_status(AUTHORITY, &id, CompetitionStatus::Paused).unwrap_err(),
        BettingError::InvalidCompetitionStatus
    );
}

#[test]
fn refund_exclusive_to_paused_or_cancelled_and_exact() {
    let (mut p, id) = with_active_competition(1000);
    p.place_bet(ALICE, &id, TOKEN_A, BET_STAKE, START).unwrap();
    p.place_bet(BOB, &id, TOKEN_B, BET_STAKE, START).unwrap();
    assert_eq!(
        p.emergency_refund(AUTHORITY, ALICE, &id).unwrap_err(),
        BettingError::CompetitionNotPaused
    );
    p.set_competition_status(AUTHORITY, &id, CompetitionStatus::Paused).unwrap();
    assert_eq!(
        p.emergency_refund(ALICE, ALICE, &id).unwrap_err(),
        BettingError::Unauthorized
    );
    assert_eq!(
        p.emergency_refund(AUTHORITY, 999, &id).unwrap_err(),
        BettingError::BetNotFound
    );
    // The refund is the exact original stake, independent of the pools.
    p.emergency_refund(AUTHORITY, ALICE, &id).unwrap();
    assert!(p.bets[0].claimed);
    assert_eq!(p.bets[0].payout_amount, BET_STAKE);
    assert_eq!(p.escrows[0], BET_STAKE);
    // A second refund for the same bet always fails.
    assert_eq!(
        p.emergency_refund(AUTHORITY, ALICE, &id).unwrap_err(),
        BettingError::AlreadyRefunded
    );
    // The refund path also works from Cancelled.
    p.set_competition_status(AUTHORITY, &id, CompetitionStatus::Cancelled).unwrap();
    p.emergency_refund(AUTHORITY, BOB, &id).unwrap();
    assert_eq!(p.bets[1].payout_amount, BET_STAKE);
    assert_eq!(p.escrows[0], 0);
}
