//! A pari-mutuel betting ledger: participants lock a fixed stake into a
//! per-competition escrow, an authority attests which of the two competing
//! assets won, and winning bets withdraw a proportional share of the pooled
//! funds minus a platform fee.
//!
//! The ledger is a pure state machine: every operation takes the caller's
//! identity and, where timing matters, the current time as explicit
//! arguments, validates them against the current state, and either mutates
//! the state or returns a typed error while leaving the state untouched.
//! The host concerns around it — account addressing, signature checks and
//! the actual balance transfers — stay outside; the model records the escrow
//! balances the transfers would act on.

use vstd::prelude::*;

pub mod errors;
pub mod laws;
pub mod payout;
pub mod state;

use crate::errors::BettingError;
use crate::state::paid_out;
use crate::state::unclaimed_staked;
use crate::state::Bet;
use crate::state::BettingPlatform;
use crate::state::Competition;
use crate::state::CompetitionStatus;
use crate::state::PlatformConfig;
use crate::state::BET_STAKE;
use crate::state::MAX_COMPETITION_ID_LEN;
use crate::state::MAX_FEE_BPS;

verus! {

use vstd::string::StrSliceExecFns;

impl BettingPlatform {
    /// Creates the platform registry, the single entry point of the ledger.
    ///
    /// Fails with `InvalidPlatformFee` exactly when `platform_fee` exceeds
    /// 10000 basis points; otherwise returns a well-formed platform with the
    /// given authority and fee recipient, unpaused, with no competitions and
    /// no bets.
    pub fn initialize(authority: u64, platform_wallet: u64, platform_fee: u16) -> (r: Result<
        BettingPlatform,
        BettingError,
    >)
        ensures
            r is Err <==> platform_fee > MAX_FEE_BPS,
            r is Err ==> r == Err::<BettingPlatform, BettingError>(BettingError::InvalidPlatformFee),
            r matches Ok(p) ==> {
                &&& p.wf()
                &&& p.config == (PlatformConfig {
                    authority,
                    platform_wallet,
                    platform_fee,
                    is_paused: false,
                    total_competitions: 0,
                })
                &&& p.competitions@.len() == 0
                &&& p.escrows@.len() == 0
                &&& p.bets@.len() == 0
            },
    {
        if platform_fee > MAX_FEE_BPS {
            return Err(BettingError::InvalidPlatformFee);
        }
        Ok(
            BettingPlatform {
                config: PlatformConfig {
                    authority,
                    platform_wallet,
                    platform_fee,
                    is_paused: false,
                    total_competitions: 0,
                },
                competitions: Vec::new(),
                escrows: Vec::new(),
                bets: Vec::new(),
            },
        )
    }
    /// The result `create_competition` owes for the given arguments:
    /// the first failing validation in order, or success.
    pub open spec fn create_competition_outcome(
        self,
        caller: u64,
        id: Seq<char>,
        token_a: u64,
        token_b: u64,
        start_time: i64,
        end_time: i64,
        now: i64,
    ) -> Result<(), BettingError> {
        if caller != self.config.authority {
            Err(BettingError::Unauthorized)
        } else if self.config.is_paused {
            Err(BettingError::PlatformPaused)
        } else if start_time <= now {
            Err(BettingError::InvalidStartTime)
        } else if end_time <= start_time {
            Err(BettingError::InvalidEndTime)
        } else if token_a == token_b {
            Err(BettingError::DuplicateTokens)
        } else if id.len() > MAX_COMPETITION_ID_LEN {
            Err(BettingError::CompetitionIdTooLong)
        } else if self.has_competition(id) {
            Err(BettingError::CompetitionAlreadyExists)
        } else {
            Ok(())
        }
    }

    /// Creates a new competition between two distinct assets with a betting
    /// window strictly in the future, together with its empty escrow
    /// account, and advances the registry's competition counter.
    ///
    /// Only the authority may create competitions, and only while the
    /// platform is not paused.
    pub fn create_competition(
        &mut self,
        caller: u64,
        competition_id: String,
        token_a: u64,
        token_b: u64,
        start_time: i64,
        end_time: i64,
        now: i64,
    ) -> (r: Result<(), BettingError>)
        requires
            old(self).wf(),
        ensures
            final(self).wf(),
            r == old(self).create_competition_outcome(
                caller,
                competition_id@,
                token_a,
                token_b,
                start_time,
                end_time,
                now,
            ),
            r is Err ==> *final(self) == *old(self),
            r is Ok ==> final(self).competitions@ == old(self).competitions@.push(
                (Competition {
                    competition_id,
                    token_a,
                    token_b,
                    start_time,
                    end_time,
                    status: CompetitionStatus::Upcoming,
                    total_pool: 0,
                    token_a_pool: 0,
                    token_b_pool: 0,
                    winner_token: None,
                    escrow: old(self).competitions@.len() as usize,
                    created_at: now,
                    token_a_final_performance: 0,
                    token_b_final_performance: 0,
                    fee_collected: false,
                    collected_fee: 0,
                }),
            ),
            r is Ok ==> final(self).escrows@ == old(self).escrows@.push(0u64),
            r is Ok ==> final(self).bets@ == old(self).bets@,
            r is Ok ==> final(self).config == (PlatformConfig {
                total_competitions: (old(self).config.total_competitions + 1) as u64,
                ..old(self).config
            }),
    {
        if caller != self.config.authority {
            return Err(BettingError::Unauthorized);
        }
        if self.config.is_paused {
            return Err(BettingError::PlatformPaused);
        }
        if start_time <= now {
            return Err(BettingError::InvalidStartTime);
        }
        if end_time <= start_time {
            return Err(BettingError::InvalidEndTime);
        }
        if token_a == token_b {
            return Err(BettingError::DuplicateTokens);
        }
        if competition_id.as_str().unicode_len() > MAX_COMPETITION_ID_LEN {
            return Err(BettingError::CompetitionIdTooLong);
        }
        if self.find_competition(&competition_id).is_some() {
            return Err(BettingError::CompetitionAlreadyExists);
        }
        let ghost pre = *self;
        let escrow_index: usize = self.competitions.len();
        self.competitions.push(
            Competition {
                competition_id,
                token_a,
                token_b,
                start_time,
                end_time,
                status: CompetitionStatus::Upcoming,
                total_pool: 0,
                token_a_pool: 0,
                token_b_pool: 0,
                winner_token: None,
                escrow: escrow_index,
                created_at: now,
                token_a_final_performance: 0,
                token_b_final_performance: 0,
                fee_collected: false,
                collected_fee: 0,
            },
        );
        self.escrows.push(0);
        let n: usize = self.competitions.len();
        self.config.total_competitions = n as u64;
        proof {
            let ni = pre.competitions@.len() as int;
            assert forall|k: int| 0 <= k < self.bets@.len() implies (
            #[trigger] self.bets@[k]).competition != ni by {
                assert(pre.bet_ok(k));
            }
            crate::state::lemma_paid_out_none(self.bets@, ni);
            crate::state::lemma_unclaimed_staked_none(self.bets@, ni);
            assert forall|i: int| 0 <= i < self.competitions@.len() implies self.comp_ok(i) by {
                if i < ni {
                    assert(pre.comp_ok(i));
                }
            }
            assert forall|k: int| 0 <= k < self.bets@.len() implies self.bet_ok(k) by {
                assert(pre.bet_ok(k));
            }
        }
        Ok(())
    }

    /// The result `activate_competition` owes for the given arguments.
    pub open spec fn activate_competition_outcome(self, id: Seq<char>, now: i64) -> Result<
        (),
        BettingError,
    > {
        if !self.has_competition(id) {
            Err(BettingError::CompetitionNotFound)
        } else if !(self.competitions@[self.comp_index(id)].status is Upcoming) {
            Err(BettingError::InvalidCompetitionStatus)
        } else if now < self.competitions@[self.comp_index(id)].start_time {
            Err(BettingError::CompetitionNotStarted)
        } else {
            Ok(())
        }
    }

    /// Flips a competition from `Upcoming` to `Active` once the current time
    /// has reached its start time. This is the explicit transition that the
    /// clock-window checks of `place_bet` rely on: a bet is accepted only on
    /// a competition that has been activated.
    pub fn activate_competition(&mut self, competition_id: &String, now: i64) -> (r: Result<
        (),
        BettingError,
    >)
        requires
            old(self).wf(),
        ensures
            final(self).wf(),
            r == old(self).activate_competition_outcome(competition_id@, now),
            r is Err ==> *final(self) == *old(self),
            r is Ok ==> ({
                let i = old(self).comp_index(competition_id@);
                &&& final(self).competitions@ == old(self).competitions@.update(
                    i,
                    (Competition {
                        status: CompetitionStatus::Active,
                        ..old(self).competitions@[i]
                    }),
                )
                &&& final(self).escrows@ == old(self).escrows@
                &&& final(self).bets@ == old(self).bets@
                &&& final(self).config == old(self).config
            }),
    {
        let idx: usize = match self.find_competition(competition_id) {
            Some(i) => i,
            None => { return Err(BettingError::CompetitionNotFound) },
        };
        proof {
            lemma_found_is_comp_index(*self, competition_id@, idx as int);
        }
        match self.competitions[idx].status {
            CompetitionStatus::Upcoming => {},
            _ => { return Err(BettingError::InvalidCompetitionStatus) },
        }
        if now < self.competitions[idx].start_time {
            return Err(BettingError::CompetitionNotStarted);
        }
        let ghost pre = *self;
        self.competitions[idx].status = CompetitionStatus::Active;
        proof {
            assert(pre.comp_ok(idx as int));
            crate::state::lemma_wf_comp_record_change(pre, *self, idx as int);
        }
        Ok(())
    }

    /// The result `place_bet` owes for the given arguments: the first
    /// failing validation in order, or success.
    pub open spec fn place_bet_outcome(
        self,
        user: u64,
        id: Seq<char>,
        chosen_token: u64,
        amount: u64,
        now: i64,
    ) -> Result<(), BettingError> {
        if self.config.is_paused {
            Err(BettingError::PlatformPaused)
        } else if !self.has_competition(id) {
            Err(BettingError::CompetitionNotFound)
        } else {
            let c = self.competitions@[self.comp_index(id)];
            if now < c.start_time {
                Err(BettingError::CompetitionNotStarted)
            } else if now >= c.end_time {
                Err(BettingError::CompetitionEnded)
            } else if !(c.status is Active) {
                Err(BettingError::CompetitionNotActive)
            } else if chosen_token != c.token_a && chosen_token != c.token_b {
                Err(BettingError::InvalidTokenChoice)
            } else if amount != BET_STAKE {
                Err(BettingError::InvalidBetAmount)
            } else if self.has_bet(user, self.comp_index(id)) {
                Err(BettingError::AlreadyBet)
            } else if c.total_pool + amount > u64::MAX {
                Err(BettingError::MathOverflow)
            } else {
                Ok(())
            }
        }
    }

    /// Places `user`'s bet of `amount` on `chosen_token` in the named
    /// competition: the stake moves into the competition's escrow, a bet
    /// record is created, and the total pool and the chosen asset's pool
    /// grow by the stake.
    ///
    /// The bet is accepted only inside the clock window
    /// (`start_time <= now < end_time`), only while the competition is
    /// `Active` and the platform unpaused, only for one of the two competing
    /// assets, only at the fixed stake size, and only once per participant
    /// and competition.
    pub fn place_bet(
        &mut self,
        user: u64,
        competition_id: &String,
        chosen_token: u64,
        amount: u64,
        now: i64,
    ) -> (r: Result<(), BettingError>)
        requires
            old(self).wf(),
        ensures
            final(self).wf(),
            r == old(self).place_bet_outcome(user, competition_id@, chosen_token, amount, now),
            r is Err ==> *final(self) == *old(self),
            r is Ok ==> ({
                let i = old(self).comp_index(competition_id@);
                let c = old(self).competitions@[i];
                &&& final(self).competitions@ == old(self).competitions@.update(
                    i,
                    (Competition {
                        total_pool: (c.total_pool + amount) as u64,
                        token_a_pool: if chosen_token == c.token_a {
                            (c.token_a_pool + amount) as u64
                        } else {
                            c.token_a_pool
                        },
                        token_b_pool: if chosen_token == c.token_b {
                            (c.token_b_pool + amount) as u64
                        } else {
                            c.token_b_pool
                        },
                        ..c
                    }),
                )
                &&& final(self).bets@ == old(self).bets@.push(
                    (Bet {
                        user,
                        competition: i as usize,
                        chosen_token,
                        amount,
                        timestamp: now,
                        claimed: false,
                        payout_amount: 0,
                    }),
                )
                &&& final(self).escrows@ == old(self).escrows@.update(
                    i,
                    (old(self).escrows@[i] + amount) as u64,
                )
                &&& final(self).config == old(self).config
            }),
            // Conservation: the pools of the bet's competition still split the
            // total exactly after the bet is booked.
            r is Ok ==> ({
                let c = final(self).competitions@[old(self).comp_index(competition_id@)];
                c.total_pool == c.token_a_pool + c.token_b_pool
            }),
    {
        if self.config.is_paused {
            return Err(BettingError::PlatformPaused);
        }
        let idx: usize = match self.find_competition(competition_id) {
            Some(i) => i,
            None => { return Err(BettingError::CompetitionNotFound) },
        };
        proof {
            lemma_found_is_comp_index(*self, competition_id@, idx as int);
            assert(old(self).comp_ok(idx as int));
        }
        if now < self.competitions[idx].start_time {
            return Err(BettingError::CompetitionNotStarted);
        }
        if now >= self.competitions[idx].end_time {
            return Err(BettingError::CompetitionEnded);
        }
        match self.competitions[idx].status {
            CompetitionStatus::Active => {},
            _ => { return Err(BettingError::CompetitionNotActive) },
        }
        let token_a: u64 = self.competitions[idx].token_a;
        let token_b: u64 = self.competitions[idx].token_b;
        if chosen_token != token_a && chosen_token != token_b {
            return Err(BettingError::InvalidTokenChoice);
        }
        if amount != BET_STAKE {
            return Err(BettingError::InvalidBetAmount);
        }
        if self.find_bet(user, idx).is_some() {
            return Err(BettingError::AlreadyBet);
        }
        let total: u64 = self.competitions[idx].total_pool;
        if amount > u64::MAX - total {
            return Err(BettingError::MathOverflow);
        }
        let ghost pre = *self;
        self.competitions[idx].total_pool = total + amount;
        if chosen_token == token_a {
            let pool: u64 = self.competitions[idx].token_a_pool;
            self.competitions[idx].token_a_pool = pool + amount;
        } else {
            let pool: u64 = self.competitions[idx].token_b_pool;
            self.competitions[idx].token_b_pool = pool + amount;
        }
        let escrow_index: usize = self.competitions[idx].escrow;
        proof {
            crate::state::lemma_paid_out_nonneg(pre.bets@, idx as int);
        }
        let balance: u64 = self.escrows[escrow_index];
        self.escrows[escrow_index] = balance + amount;
        let new_bet = Bet {
            user,
            competition: idx,
            chosen_token,
            amount,
            timestamp: now,
            claimed: false,
            payout_amount: 0,
        };
        self.bets.push(new_bet);
        proof {
            let i = idx as int;
            assert(self.competitions@ =~= pre.competitions@.update(
                i,
                (Competition {
                    total_pool: (total + amount) as u64,
                    token_a_pool: if chosen_token == token_a {
                        (pre.competitions@[i].token_a_pool + amount) as u64
                    } else {
                        pre.competitions@[i].token_a_pool
                    },
                    token_b_pool: if chosen_token == token_b {
                        (pre.competitions@[i].token_b_pool + amount) as u64
                    } else {
                        pre.competitions@[i].token_b_pool
                    },
                    ..pre.competitions@[i]
                }),
            ));
            assert forall|j: int| 0 <= j < self.competitions@.len() implies paid_out(
                self.bets@,
                j,
            ) == paid_out(pre.bets@, j) && unclaimed_staked(self.bets@, j) == unclaimed_staked(
                pre.bets@,
                j,
            ) + (if j == i {
                amount as int
            } else {
                0
            }) by {
                crate::state::lemma_paid_out_push(pre.bets@, new_bet, j);
                crate::state::lemma_unclaimed_staked_push(pre.bets@, new_bet, j);
            }
            assert forall|j: int| 0 <= j < self.competitions@.len() implies self.comp_ok(j) by {
                assert(pre.comp_ok(j));
            }
            assert forall|k: int| 0 <= k < self.bets@.len() implies self.bet_ok(k) by {
                if k < pre.bets@.len() {
                    assert(pre.bet_ok(k));
                }
            }
            assert forall|k: int, l: int| 0 <= k < l < self.bets@.len() implies !((
            #[trigger] self.bets@[k]).user == (#[trigger] self.bets@[l]).user
                && self.bets@[k].competition == self.bets@[l].competition) by {
                if l < pre.bets@.len() {
                    assert(!(pre.bets@[k].user == pre.bets@[l].user && pre.bets@[k].competition
                        == pre.bets@[l].competition));
                }
            }
        }
        Ok(())
    }

    /// The result `resolve_competition` owes for the given arguments.
    pub open spec fn resolve_competition_outcome(
        self,
        caller: u64,
        id: Seq<char>,
        winner_token: u64,
        now: i64,
    ) -> Result<(), BettingError> {
        if caller != self.config.authority {
            Err(BettingError::Unauthorized)
        } else if !self.has_competition(id) {
            Err(BettingError::CompetitionNotFound)
        } else {
            let c = self.competitions@[self.comp_index(id)];
            if now < c.end_time {
                Err(BettingError::CompetitionNotEnded)
            } else if !(c.status is Active || c.status is Closed) {
                Err(BettingError::InvalidCompetitionStatus)
            } else if winner_token != c.token_a && winner_token != c.token_b {
                Err(BettingError::InvalidWinner)
            } else {
                Ok(())
            }
        }
    }

    /// Records the attested outcome of a competition: the winning asset and
    /// the two performance figures, and advances the status to `Resolved`,
    /// from which winning bets can claim.
    ///
    /// Only the authority may resolve, only at or after the end time, and
    /// only from the `Active` or `Closed` status. The attested figures are
    /// recorded, not re-derived: their correctness is the oracle's concern.
    pub fn resolve_competition(
        &mut self,
        caller: u64,
        competition_id: &String,
        winner_token: u64,
        token_a_performance: i64,
        token_b_performance: i64,
        now: i64,
    ) -> (r: Result<(), BettingError>)
        requires
            old(self).wf(),
        ensures
            final(self).wf(),
            r == old(self).resolve_competition_outcome(caller, competition_id@, winner_token, now),
            r is Err ==> *final(self) == *old(self),
            r is Ok ==> ({
                let i = old(self).comp_index(competition_id@);
                &&& final(self).competitions@ == old(self).competitions@.update(
                    i,
                    (Competition {
                        status: CompetitionStatus::Resolved,
                        winner_token: Some(winner_token),
                        token_a_final_performance: token_a_performance,
                        token_b_final_performance: token_b_performance,
                        ..old(self).competitions@[i]
                    }),
                )
                &&& final(self).escrows@ == old(self).escrows@
                &&& final(self).bets@ == old(self).bets@
                &&& final(self).config == old(self).config
            }),
    {
        if caller != self.config.authority {
            return Err(BettingError::Unauthorized);
        }
        let idx: usize = match self.find_competition(competition_id) {
            Some(i) => i,
            None => { return Err(BettingError::CompetitionNotFound) },
        };
        proof {
            lemma_found_is_comp_index(*self, competition_id@, idx as int);
        }
        if now < self.competitions[idx].end_time {
            return Err(BettingError::CompetitionNotEnded);
        }
        match self.competitions[idx].status {
            CompetitionStatus::Active => {},
            CompetitionStatus::Closed => {},
            _ => { return Err(BettingError::InvalidCompetitionStatus) },
        }
        if winner_token != self.competitions[idx].token_a && winner_token
            != self.competitions[idx].token_b {
            return Err(BettingError::InvalidWinner);
        }
        let ghost pre = *self;
        self.competitions[idx].status = CompetitionStatus::Resolved;
        self.competitions[idx].winner_token = Some(winner_token);
        self.competitions[idx].token_a_final_performance = token_a_performance;
        self.competitions[idx].token_b_final_performance = token_b_performance;
        proof {
            assert(self.competitions@ =~= pre.competitions@.update(
                idx as int,
                self.competitions@[idx as int],
            ));
            assert(pre.comp_ok(idx as int));
            crate::state::lemma_wf_comp_record_change(pre, *self, idx as int);
        }
        Ok(())
    }

    /// The result `claim_winnings` owes for the given arguments: the first
    /// failing validation in order, or success.
    pub open spec fn claim_winnings_outcome(self, user: u64, id: Seq<char>) -> Result<
        (),
        BettingError,
    > {
        if !self.has_competition(id) {
            Err(BettingError::CompetitionNotFound)
        } else {
            let i = self.comp_index(id);
            let c = self.competitions@[i];
            if !self.has_bet(user, i) {
                Err(BettingError::BetNotFound)
            } else {
                let b = self.bets@[self.bet_index(user, i)];
                if !(c.status is Resolved) {
                    Err(BettingError::CompetitionNotResolved)
                } else {
                    match c.winner_token {
                        None => Err(BettingError::NoWinner),
                        Some(w) => {
                            if b.chosen_token != w {
                                Err(BettingError::NotWinner)
                            } else if b.claimed {
                                Err(BettingError::AlreadyClaimed)
                            } else {
                                let wp = if w == c.token_a {
                                    c.token_a_pool
                                } else {
                                    c.token_b_pool
                                };
                                if wp == 0 {
                                    Err(BettingError::NoWinnerPool)
                                } else {
                                    let fee = crate::payout::spec_fee_amount(
                                        c.total_pool as int,
                                        self.config.platform_fee as int,
                                    );
                                    let pay = crate::payout::spec_payout(
                                        c.total_pool as int,
                                        self.config.platform_fee as int,
                                        b.amount as int,
                                        wp as int,
                                    );
                                    let fee_due: int = if c.fee_collected {
                                        0
                                    } else {
                                        fee
                                    };
                                    if pay + fee_due > self.escrows@[i] {
                                        Err(BettingError::InsufficientEscrowBalance)
                                    } else {
                                        Ok(())
                                    }
                                }
                            }
                        },
                    }
                }
            }
        }
    }

    /// Pays a winning bet its pari-mutuel share out of the competition's
    /// escrow and marks the bet claimed, irreversibly.
    ///
    /// The share is `floor((total_pool - fee) * stake / winner_pool)` with
    /// `fee = floor(total_pool * fee_rate / 10000)` read from the registry
    /// at claim time. The fee itself is disbursed once per competition, on
    /// the first successful claim; every disbursement is checked against the
    /// escrow balance, which never goes negative.
    pub fn claim_winnings(&mut self, user: u64, competition_id: &String) -> (r: Result<
        (),
        BettingError,
    >)
        requires
            old(self).wf(),
        ensures
            final(self).wf(),
            r == old(self).claim_winnings_outcome(user, competition_id@),
            r is Err ==> *final(self) == *old(self),
            r is Ok ==> ({
                let i = old(self).comp_index(competition_id@);
                let k = old(self).bet_index(user, i);
                let c = old(self).competitions@[i];
                let b = old(self).bets@[k];
                let wp = if b.chosen_token == c.token_a {
                    c.token_a_pool
                } else {
                    c.token_b_pool
                };
                let fee = crate::payout::spec_fee_amount(
                    c.total_pool as int,
                    old(self).config.platform_fee as int,
                );
                let pay = crate::payout::spec_payout(
                    c.total_pool as int,
                    old(self).config.platform_fee as int,
                    b.amount as int,
                    wp as int,
                );
                let fee_due: int = if c.fee_collected {
                    0
                } else {
                    fee
                };
                &&& final(self).bets@ == old(self).bets@.update(
                    k,
                    (Bet { claimed: true, payout_amount: pay as u64, ..b }),
                )
                &&& final(self).competitions@ == old(self).competitions@.update(
                    i,
                    (Competition {
                        fee_collected: true,
                        collected_fee: if c.fee_collected {
                            c.collected_fee
                        } else {
                            fee as u64
                        },
                        ..c
                    }),
                )
                &&& final(self).escrows@ == old(self).escrows@.update(
                    i,
                    (old(self).escrows@[i] - pay - fee_due) as u64,
                )
                &&& final(self).config == old(self).config
            }),
            // A bet already claimed is never touched again: neither its
            // claimed flag nor its recorded payout changes.
            forall|m: int|
                0 <= m < old(self).bets@.len() && (#[trigger] old(self).bets@[m]).claimed
                    ==> final(self).bets@[m] == old(self).bets@[m],
    {
        let idx: usize = match self.find_competition(competition_id) {
            Some(i) => i,
            None => { return Err(BettingError::CompetitionNotFound) },
        };
        proof {
            lemma_found_is_comp_index(*self, competition_id@, idx as int);
            assert(old(self).comp_ok(idx as int));
        }
        let bet_idx: usize = match self.find_bet(user, idx) {
            Some(k) => k,
            None => { return Err(BettingError::BetNotFound) },
        };
        proof {
            lemma_found_is_bet_index(*self, user, idx as int, bet_idx as int);
            assert(old(self).bet_ok(bet_idx as int));
        }
        match self.competitions[idx].status {
            CompetitionStatus::Resolved => {},
            _ => { return Err(BettingError::CompetitionNotResolved) },
        }
        let winner: u64 = match self.competitions[idx].winner_token {
            Some(w) => w,
            None => { return Err(BettingError::NoWinner) },
        };
        if self.bets[bet_idx].chosen_token != winner {
            return Err(BettingError::NotWinner);
        }
        if self.bets[bet_idx].claimed {
            return Err(BettingError::AlreadyClaimed);
        }
        let winner_pool: u64 = if winner == self.competitions[idx].token_a {
            self.competitions[idx].token_a_pool
        } else {
            self.competitions[idx].token_b_pool
        };
        if winner_pool == 0 {
            return Err(BettingError::NoWinnerPool);
        }
        let total_pool: u64 = self.competitions[idx].total_pool;
        let amount: u64 = self.bets[bet_idx].amount;
        let (fee_amount, pay) = crate::payout::compute_payout(
            total_pool,
            self.config.platform_fee,
            amount,
            winner_pool,
        );
        let was_collected: bool = self.competitions[idx].fee_collected;
        let fee_due: u64 = if was_collected {
            0
        } else {
            fee_amount
        };
        let escrow_index: usize = self.competitions[idx].escrow;
        let balance: u64 = self.escrows[escrow_index];
        if pay + fee_due > balance {
            return Err(BettingError::InsufficientEscrowBalance);
        }
        let ghost pre = *self;
        self.escrows[escrow_index] = balance - (pay + fee_due);
        self.competitions[idx].fee_collected = true;
        if !was_collected {
            self.competitions[idx].collected_fee = fee_amount;
        }
        self.bets[bet_idx].claimed = true;
        self.bets[bet_idx].payout_amount = pay;
        proof {
            let i = idx as int;
            let k = bet_idx as int;
            assert(self.competitions@ =~= pre.competitions@.update(i, self.competitions@[i]));
            assert(self.bets@ =~= pre.bets@.update(k, self.bets@[k]));
            assert forall|j: int| 0 <= j < self.competitions@.len() implies paid_out(
                self.bets@,
                j,
            ) == paid_out(pre.bets@, j) + (if j == i {
                pay as int
            } else {
                0
            }) by {
                crate::state::lemma_paid_out_update(pre.bets@, k, self.bets@[k], j);
            }
            assert forall|j: int| 0 <= j < self.competitions@.len() implies unclaimed_staked(
                self.bets@,
                j,
            ) == unclaimed_staked(pre.bets@, j) - (if j == i {
                amount as int
            } else {
                0
            }) by {
                crate::state::lemma_unclaimed_staked_update(pre.bets@, k, self.bets@[k], j);
            }
            crate::state::lemma_unclaimed_staked_nonneg(self.bets@, i);
            assert forall|j: int| 0 <= j < self.competitions@.len() implies self.comp_ok(j) by {
                assert(pre.comp_ok(j));
            }
            assert forall|m: int| 0 <= m < self.bets@.len() implies self.bet_ok(m) by {
                assert(pre.bet_ok(m));
            }
            assert forall|m: int, l: int| 0 <= m < l < self.bets@.len() implies !((
            #[trigger] self.bets@[m]).user == (#[trigger] self.bets@[l]).user
                && self.bets@[m].competition == self.bets@[l].competition) by {
                assert(!(pre.bets@[m].user == pre.bets@[l].user && pre.bets@[m].competition
                    == pre.bets@[l].competition));
            }
            assert forall|j: int, l: int| 0 <= j < l < self.competitions@.len() implies (
            #[trigger] self.competitions@[j]).competition_id@ != (
            #[trigger] self.competitions@[l]).competition_id@ by {
                assert(pre.competitions@[j].competition_id@ != pre.competitions@[l].competition_id@);
            }
        }
        Ok(())
    }

    /// The result `emergency_refund` owes for the given arguments.
    pub open spec fn emergency_refund_outcome(self, caller: u64, user: u64, id: Seq<char>) -> Result<
        (),
        BettingError,
    > {
        if caller != self.config.authority {
            Err(BettingError::Unauthorized)
        } else if !self.has_competition(id) {
            Err(BettingError::CompetitionNotFound)
        } else {
            let i = self.comp_index(id);
            let c = self.competitions@[i];
            if !self.has_bet(user, i) {
                Err(BettingError::BetNotFound)
            } else {
                let b = self.bets@[self.bet_index(user, i)];
                if !(c.status is Paused || c.status is Cancelled) {
                    Err(BettingError::CompetitionNotPaused)
                } else if b.claimed {
                    Err(BettingError::AlreadyRefunded)
                } else {
                    Ok(())
                }
            }
        }
    }

    /// Returns a participant's full original stake out of escrow after the
    /// authority abandoned normal resolution, and marks the bet claimed to
    /// block a second refund.
    ///
    /// Available only to the authority, only while the competition is
    /// `Paused` or `Cancelled`, and only once per bet. The refund is the
    /// exact stake, independent of the pools and of the fee rate; it never
    /// fails for lack of funds, because the escrow of a competition that was
    /// never resolved provably still holds every unclaimed stake.
    pub fn emergency_refund(&mut self, caller: u64, user: u64, competition_id: &String) -> (r:
        Result<(), BettingError>)
        requires
            old(self).wf(),
        ensures
            final(self).wf(),
            r == old(self).emergency_refund_outcome(caller, user, competition_id@),
            r is Err ==> *final(self) == *old(self),
            r is Ok ==> ({
                let i = old(self).comp_index(competition_id@);
                let k = old(self).bet_index(user, i);
                let b = old(self).bets@[k];
                &&& final(self).bets@ == old(self).bets@.update(
                    k,
                    (Bet { claimed: true, payout_amount: b.amount, ..b }),
                )
                &&& final(self).escrows@ == old(self).escrows@.update(
                    i,
                    (old(self).escrows@[i] - b.amount) as u64,
                )
                &&& final(self).competitions@ == old(self).competitions@
                &&& final(self).config == old(self).config
            }),
            // A bet already claimed or refunded is never touched again.
            forall|m: int|
                0 <= m < old(self).bets@.len() && (#[trigger] old(self).bets@[m]).claimed
                    ==> final(self).bets@[m] == old(self).bets@[m],
    {
        if caller != self.config.authority {
            return Err(BettingError::Unauthorized);
        }
        let idx: usize = match self.find_competition(competition_id) {
            Some(i) => i,
            None => { return Err(BettingError::CompetitionNotFound) },
        };
        proof {
            lemma_found_is_comp_index(*self, competition_id@, idx as int);
            assert(old(self).comp_ok(idx as int));
        }
        let bet_idx: usize = match self.find_bet(user, idx) {
            Some(k) => k,
            None => { return Err(BettingError::BetNotFound) },
        };
        proof {
            lemma_found_is_bet_index(*self, user, idx as int, bet_idx as int);
            assert(old(self).bet_ok(bet_idx as int));
        }
        match self.competitions[idx].status {
            CompetitionStatus::Paused => {},
            CompetitionStatus::Cancelled => {},
            _ => { return Err(BettingError::CompetitionNotPaused) },
        }
        if self.bets[bet_idx].claimed {
            return Err(BettingError::AlreadyRefunded);
        }
        let amount: u64 = self.bets[bet_idx].amount;
        let escrow_index: usize = self.competitions[idx].escrow;
        proof {
            crate::state::lemma_unclaimed_staked_lower_bound(
                self.bets@,
                bet_idx as int,
                idx as int,
            );
        }
        let balance: u64 = self.escrows[escrow_index];
        let ghost pre = *self;
        self.escrows[escrow_index] = balance - amount;
        self.bets[bet_idx].claimed = true;
        self.bets[bet_idx].payout_amount = amount;
        proof {
            let i = idx as int;
            let k = bet_idx as int;
            assert(self.bets@ =~= pre.bets@.update(k, self.bets@[k]));
            assert forall|j: int| 0 <= j < self.competitions@.len() implies paid_out(
                self.bets@,
                j,
            ) == paid_out(pre.bets@, j) + (if j == i {
                amount as int
            } else {
                0
            }) by {
                crate::state::lemma_paid_out_update(pre.bets@, k, self.bets@[k], j);
            }
            assert forall|j: int| 0 <= j < self.competitions@.len() implies unclaimed_staked(
                self.bets@,
                j,
            ) == unclaimed_staked(pre.bets@, j) - (if j == i {
                amount as int
            } else {
                0
            }) by {
                crate::state::lemma_unclaimed_staked_update(pre.bets@, k, self.bets@[k], j);
            }
            assert forall|j: int| 0 <= j < self.competitions@.len() implies self.comp_ok(j) by {
                assert(pre.comp_ok(j));
            }
            assert forall|m: int| 0 <= m < self.bets@.len() implies self.bet_ok(m) by {
                assert(pre.bet_ok(m));
            }
            assert forall|m: int, l: int| 0 <= m < l < self.bets@.len() implies !((
            #[trigger] self.bets@[m]).user == (#[trigger] self.bets@[l]).user
                && self.bets@[m].competition == self.bets@[l].competition) by {
                assert(!(pre.bets@[m].user == pre.bets@[l].user && pre.bets@[m].competition
                    == pre.bets@[l].competition));
            }
        }
        Ok(())
    }

    /// The result `emergency_pause` owes for the given arguments.
    pub open spec fn emergency_pause_outcome(self, caller: u64) -> Result<(), BettingError> {
        if caller != self.config.authority {
            Err(BettingError::Unauthorized)
        } else {
            Ok(())
        }
    }

    /// Sets the platform-wide pause flag. Only the authority may toggle it;
    /// while it is set, `create_competition` and `place_bet` reject all
    /// requests.
    pub fn emergency_pause(&mut self, caller: u64, pause: bool) -> (r: Result<(), BettingError>)
        requires
            old(self).wf(),
        ensures
            final(self).wf(),
            r == old(self).emergency_pause_outcome(caller),
            r is Err ==> *final(self) == *old(self),
            r is Ok ==> *final(self) == (BettingPlatform {
                config: (PlatformConfig { is_paused: pause, ..old(self).config }),
                ..*old(self)
            }),
    {
        if caller != self.config.authority {
            return Err(BettingError::Unauthorized);
        }
        let ghost pre = *self;
        self.config.is_paused = pause;
        proof {
            crate::state::lemma_wf_config_change(pre, *self);
        }
        Ok(())
    }

    /// The result `update_platform_fee` owes for the given arguments.
    pub open spec fn update_platform_fee_outcome(self, caller: u64, new_fee: u16) -> Result<
        (),
        BettingError,
    > {
        if caller != self.config.authority {
            Err(BettingError::Unauthorized)
        } else if new_fee > MAX_FEE_BPS {
            Err(BettingError::InvalidPlatformFee)
        } else {
            Ok(())
        }
    }

    /// Changes the registry's fee rate. Only the authority may do so, and
    /// a rate above 10000 basis points is rejected, exactly as at
    /// `initialize`.
    pub fn update_platform_fee(&mut self, caller: u64, new_fee: u16) -> (r: Result<
        (),
        BettingError,
    >)
        requires
            old(self).wf(),
        ensures
            final(self).wf(),
            r == old(self).update_platform_fee_outcome(caller, new_fee),
            r is Err ==> *final(self) == *old(self),
            r is Ok ==> *final(self) == (BettingPlatform {
                config: (PlatformConfig { platform_fee: new_fee, ..old(self).config }),
                ..*old(self)
            }),
    {
        if caller != self.config.authority {
            return Err(BettingError::Unauthorized);
        }
        if new_fee > MAX_FEE_BPS {
            return Err(BettingError::InvalidPlatformFee);
        }
        let ghost pre = *self;
        self.config.platform_fee = new_fee;
        proof {
            crate::state::lemma_wf_config_change(pre, *self);
        }
        Ok(())
    }

    /// The result `set_competition_status` owes for the given arguments.
    pub open spec fn set_competition_status_outcome(
        self,
        caller: u64,
        id: Seq<char>,
        new_status: CompetitionStatus,
    ) -> Result<(), BettingError> {
        if caller != self.config.authority {
            Err(BettingError::Unauthorized)
        } else if !self.has_competition(id) {
            Err(BettingError::CompetitionNotFound)
        } else if !(new_status is Paused || new_status is Cancelled) {
            Err(BettingError::InvalidCompetitionStatus)
        } else if self.competitions@[self.comp_index(id)].status is Resolved
            || self.competitions@[self.comp_index(id)].status is Cancelled {
            Err(BettingError::InvalidCompetitionStatus)
        } else {
            Ok(())
        }
    }

    /// The emergency transition: the authority forces a competition from
    /// any non-terminal status to `Paused` or `Cancelled`, opening the
    /// refund path. `Resolved` and `Cancelled` are terminal and cannot be
    /// left.
    pub fn set_competition_status(
        &mut self,
        caller: u64,
        competition_id: &String,
        new_status: CompetitionStatus,
    ) -> (r: Result<(), BettingError>)
        requires
            old(self).wf(),
        ensures
            final(self).wf(),
            r == old(self).set_competition_status_outcome(caller, competition_id@, new_status),
            r is Err ==> *final(self) == *old(self),
            r is Ok ==> ({
                let i = old(self).comp_index(competition_id@);
                &&& final(self).competitions@ == old(self).competitions@.update(
                    i,
                    (Competition { status: new_status, ..old(self).competitions@[i] }),
                )
                &&& final(self).escrows@ == old(self).escrows@
                &&& final(self).bets@ == old(self).bets@
                &&& final(self).config == old(self).config
            }),
    {
        if caller != self.config.authority {
            return Err(BettingError::Unauthorized);
        }
        let idx: usize = match self.find_competition(competition_id) {
            Some(i) => i,
            None => { return Err(BettingError::CompetitionNotFound) },
        };
        proof {
            lemma_found_is_comp_index(*self, competition_id@, idx as int);
        }
        match new_status {
            CompetitionStatus::Paused => {},
            CompetitionStatus::Cancelled => {},
            _ => { return Err(BettingError::InvalidCompetitionStatus) },
        }
        match self.competitions[idx].status {
            CompetitionStatus::Resolved => {
                return Err(BettingError::InvalidCompetitionStatus);
            },
            CompetitionStatus::Cancelled => {
                return Err(BettingError::InvalidCompetitionStatus);
            },
            _ => {},
        }
        let ghost pre = *self;
        self.competitions[idx].status = new_status;
        proof {
            assert(pre.comp_ok(idx as int));
            crate::state::lemma_wf_comp_record_change(pre, *self, idx as int);
        }
        Ok(())
    }
}

/// In a well-formed platform each (participant, competition) pair has at
/// most one bet, so an index found by linear search is the index
/// `bet_index` denotes.
pub proof fn lemma_found_is_bet_index(p: BettingPlatform, user: u64, comp: int, k: int)
    requires
        p.wf(),
        0 <= k < p.bets@.len(),
        p.bets@[k].user == user,
        p.bets@[k].competition == comp,
    ensures
        p.has_bet(user, comp),
        p.bet_index(user, comp) == k,
{
    assert(p.has_bet(user, comp));
    let l = p.bet_index(user, comp);
    if k != l {
        if k < l {
            assert(!(p.bets@[k].user == p.bets@[l].user && p.bets@[k].competition
                == p.bets@[l].competition));
        } else {
            assert(!(p.bets@[l].user == p.bets@[k].user && p.bets@[l].competition
                == p.bets@[k].competition));
        }
    }
}

/// In a well-formed platform identifiers are unique, so an index found by
/// linear search is the index `comp_index` denotes.
pub proof fn lemma_found_is_comp_index(p: BettingPlatform, id: Seq<char>, i: int)
    requires
        p.wf(),
        0 <= i < p.competitions@.len(),
        p.competitions@[i].competition_id@ == id,
    ensures
        p.has_competition(id),
        p.comp_index(id) == i,
{
    assert(p.has_competition(id));
    let j = p.comp_index(id);
    if i != j {
        if i < j {
            assert(p.competitions@[i].competition_id@ != p.competitions@[j].competition_id@);
        } else {
            assert(p.competitions@[j].competition_id@ != p.competitions@[i].competition_id@);
        }
    }
}

} // verus!
