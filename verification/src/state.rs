use vstd::prelude::*;

verus! {

/// Fee rates are expressed in basis points; this is the largest admissible
/// rate (100%).
pub const MAX_FEE_BPS: u16 = 10000;

/// Denominator of the basis-point fee computation.
pub const FEE_DENOMINATOR: u64 = 10000;

/// The single fixed stake size a bet must have.
pub const BET_STAKE: u64 = 100_000_000;

/// Maximum number of characters in a competition identifier.
pub const MAX_COMPETITION_ID_LEN: usize = 32;

/// Platform-wide configuration: a singleton created once by `initialize` and
/// thereafter mutated only by the authority's pause toggles and fee updates.
#[derive(Clone, Copy, PartialEq, Eq, Structural, Debug)]
pub struct PlatformConfig {
    /// Identity permitted to create, resolve and force-transition
    /// competitions, toggle the pause flag and change the fee rate.
    pub authority: u64,
    /// Identity credited with the platform's fee.
    pub platform_wallet: u64,
    /// Fee rate in basis points, at most `MAX_FEE_BPS`.
    pub platform_fee: u16,
    /// While true, new competitions and new bets are rejected.
    pub is_paused: bool,
    /// Number of competitions created so far.
    pub total_competitions: u64,
}

/// Lifecycle status of a competition.
#[derive(Clone, Copy, PartialEq, Eq, Structural, Debug)]
pub enum CompetitionStatus {
    /// Created, clock window not yet entered.
    Upcoming,
    /// Open for bets inside the clock window.
    Active,
    /// Clock window over, not yet resolved.
    Closed,
    /// Winner recorded; winning bets may claim. Terminal.
    Resolved,
    /// Force-paused by the authority; refunds available.
    Paused,
    /// Cancelled by the authority; refunds available. Terminal.
    Cancelled,
}

/// One time-boxed betting event between two assets.
#[derive(Debug)]
pub struct Competition {
    /// Unique identifier of this competition.
    pub competition_id: String,
    /// First competing asset.
    pub token_a: u64,
    /// Second competing asset; distinct from `token_a`.
    pub token_b: u64,
    /// Start of the betting window.
    pub start_time: i64,
    /// End of the betting window; strictly after `start_time`.
    pub end_time: i64,
    /// Current lifecycle status.
    pub status: CompetitionStatus,
    /// Total stake held across both pools; always `token_a_pool + token_b_pool`.
    pub total_pool: u64,
    /// Stake placed on `token_a`.
    pub token_a_pool: u64,
    /// Stake placed on `token_b`.
    pub token_b_pool: u64,
    /// Winning asset, absent until resolution.
    pub winner_token: Option<u64>,
    /// Index of this competition's escrow account in the platform's escrow
    /// table.
    pub escrow: usize,
    /// Time of creation.
    pub created_at: i64,
    /// Attested performance figure for `token_a`, recorded at resolution.
    pub token_a_final_performance: i64,
    /// Attested performance figure for `token_b`, recorded at resolution.
    pub token_b_final_performance: i64,
    /// Whether the platform fee for this competition has been disbursed.
    /// The fee is charged once per competition, on the first successful claim.
    pub fee_collected: bool,
    /// The fee amount disbursed on the first claim; zero before that.
    pub collected_fee: u64,
}

/// One participant's bet on one competition. At most one exists per
/// (participant, competition) pair.
#[derive(Clone, Copy, PartialEq, Eq, Structural, Debug)]
pub struct Bet {
    /// The participant who placed the bet.
    pub user: u64,
    /// Index of the competition this bet belongs to.
    pub competition: usize,
    /// The asset the participant bet on; one of the competition's two assets.
    pub chosen_token: u64,
    /// The locked stake.
    pub amount: u64,
    /// Time of placement.
    pub timestamp: i64,
    /// True once winnings were claimed or the stake was refunded;
    /// irreversible.
    pub claimed: bool,
    /// Amount actually disbursed; zero until `claimed`.
    pub payout_amount: u64,
}

/// The whole betting ledger: the registry singleton, every competition,
/// every bet, and one escrow balance per competition.
///
/// The host's deterministic per-seed account addressing is modelled as
/// index-keyed tables: a competition's address is its index, a bet's address
/// is the (participant, competition index) pair, and `escrows[i]` is the
/// balance of competition `i`'s escrow account.
#[derive(Debug)]
pub struct BettingPlatform {
    /// The platform registry singleton.
    pub config: PlatformConfig,
    /// All competitions, addressed by index.
    pub competitions: Vec<Competition>,
    /// Escrow balance of each competition, in lock step with `competitions`.
    pub escrows: Vec<u64>,
    /// All bets ever placed.
    pub bets: Vec<Bet>,
}

/// What a bet contributes to the funds already disbursed from competition
/// `comp`'s escrow: its recorded payout once claimed, nothing before.
pub open spec fn bet_contrib(b: Bet, comp: int) -> int {
    if b.competition == comp && b.claimed {
        b.payout_amount as int
    } else {
        0
    }
}

/// Total funds already disbursed from competition `comp`'s escrow to
/// participants (winnings and refunds), over a table of bets.
pub open spec fn paid_out(bets: Seq<Bet>, comp: int) -> int
    decreases bets.len(),
{
    if bets.len() == 0 {
        0
    } else {
        paid_out(bets.drop_last(), comp) + bet_contrib(bets.last(), comp)
    }
}

pub proof fn lemma_paid_out_nonneg(bets: Seq<Bet>, comp: int)
    ensures
        0 <= paid_out(bets, comp),
    decreases bets.len(),
{
    if bets.len() > 0 {
        lemma_paid_out_nonneg(bets.drop_last(), comp);
    }
}

pub proof fn lemma_paid_out_push(bets: Seq<Bet>, b: Bet, comp: int)
    ensures
        paid_out(bets.push(b), comp) == paid_out(bets, comp) + bet_contrib(b, comp),
{
    assert(bets.push(b).drop_last() =~= bets);
    assert(bets.push(b).last() == b);
}

pub proof fn lemma_paid_out_update(bets: Seq<Bet>, k: int, b: Bet, comp: int)
    requires
        0 <= k < bets.len(),
    ensures
        paid_out(bets.update(k, b), comp) == paid_out(bets, comp) - bet_contrib(bets[k], comp)
            + bet_contrib(b, comp),
    decreases bets.len(),
{
    if k == bets.len() - 1 {
        assert(bets.update(k, b).drop_last() =~= bets.drop_last());
        assert(bets.update(k, b).last() == b);
    } else {
        assert(bets.update(k, b).drop_last() =~= bets.drop_last().update(k, b));
        assert(bets.update(k, b).last() == bets.last());
        lemma_paid_out_update(bets.drop_last(), k, b, comp);
    }
}

/// What a bet contributes to the stakes still locked for competition
/// `comp`: its amount while unclaimed, nothing once disbursed.
pub open spec fn unclaimed_contrib(b: Bet, comp: int) -> int {
    if b.competition == comp && !b.claimed {
        b.amount as int
    } else {
        0
    }
}

/// Total stake of the not-yet-claimed bets on competition `comp`: what the
/// escrow still owes if every one of them is refunded in full.
pub open spec fn unclaimed_staked(bets: Seq<Bet>, comp: int) -> int
    decreases bets.len(),
{
    if bets.len() == 0 {
        0
    } else {
        unclaimed_staked(bets.drop_last(), comp) + unclaimed_contrib(bets.last(), comp)
    }
}

pub proof fn lemma_unclaimed_staked_nonneg(bets: Seq<Bet>, comp: int)
    ensures
        0 <= unclaimed_staked(bets, comp),
    decreases bets.len(),
{
    if bets.len() > 0 {
        lemma_unclaimed_staked_nonneg(bets.drop_last(), comp);
    }
}

pub proof fn lemma_unclaimed_staked_push(bets: Seq<Bet>, b: Bet, comp: int)
    ensures
        unclaimed_staked(bets.push(b), comp) == unclaimed_staked(bets, comp) + unclaimed_contrib(
            b,
            comp,
        ),
{
    assert(bets.push(b).drop_last() =~= bets);
    assert(bets.push(b).last() == b);
}

pub proof fn lemma_unclaimed_staked_update(bets: Seq<Bet>, k: int, b: Bet, comp: int)
    requires
        0 <= k < bets.len(),
    ensures
        unclaimed_staked(bets.update(k, b), comp) == unclaimed_staked(bets, comp)
            - unclaimed_contrib(bets[k], comp) + unclaimed_contrib(b, comp),
    decreases bets.len(),
{
    if k == bets.len() - 1 {
        assert(bets.update(k, b).drop_last() =~= bets.drop_last());
        assert(bets.update(k, b).last() == b);
    } else {
        assert(bets.update(k, b).drop_last() =~= bets.drop_last().update(k, b));
        assert(bets.update(k, b).last() == bets.last());
        lemma_unclaimed_staked_update(bets.drop_last(), k, b, comp);
    }
}

/// A single unclaimed bet never stakes more than the total unclaimed stake
/// of its competition.
pub proof fn lemma_unclaimed_staked_lower_bound(bets: Seq<Bet>, k: int, comp: int)
    requires
        0 <= k < bets.len(),
        bets[k].competition == comp,
        !bets[k].claimed,
    ensures
        bets[k].amount <= unclaimed_staked(bets, comp),
    decreases bets.len(),
{
    if k == bets.len() - 1 {
        lemma_unclaimed_staked_nonneg(bets.drop_last(), comp);
    } else {
        assert(bets.drop_last()[k] == bets[k]);
        lemma_unclaimed_staked_lower_bound(bets.drop_last(), k, comp);
    }
}

/// A bet table in which no bet belongs to competition `comp` has disbursed
/// nothing from that competition's escrow.
pub proof fn lemma_paid_out_none(bets: Seq<Bet>, comp: int)
    requires
        forall|k: int| 0 <= k < bets.len() ==> (#[trigger] bets[k]).competition != comp,
    ensures
        paid_out(bets, comp) == 0,
    decreases bets.len(),
{
    if bets.len() > 0 {
        assert(forall|k: int|
            0 <= k < bets.drop_last().len() ==> (#[trigger] bets.drop_last()[k]).competition
                != comp) by {
            assert(forall|k: int|
                0 <= k < bets.drop_last().len() ==> bets.drop_last()[k] == bets[k]);
        }
        lemma_paid_out_none(bets.drop_last(), comp);
        assert(bets.last() == bets[bets.len() - 1]);
    }
}

/// A bet table in which no bet belongs to competition `comp` holds no
/// unclaimed stake for it either.
pub proof fn lemma_unclaimed_staked_none(bets: Seq<Bet>, comp: int)
    requires
        forall|k: int| 0 <= k < bets.len() ==> (#[trigger] bets[k]).competition != comp,
    ensures
        unclaimed_staked(bets, comp) == 0,
    decreases bets.len(),
{
    if bets.len() > 0 {
        assert(forall|k: int|
            0 <= k < bets.drop_last().len() ==> (#[trigger] bets.drop_last()[k]).competition
                != comp) by {
            assert(forall|k: int|
                0 <= k < bets.drop_last().len() ==> bets.drop_last()[k] == bets[k]);
        }
        lemma_unclaimed_staked_none(bets.drop_last(), comp);
        assert(bets.last() == bets[bets.len() - 1]);
    }
}

/// Changing only the registry keeps the ledger well formed, as long as the
/// fee rate stays in bounds and the competition counter is untouched.
pub proof fn lemma_wf_config_change(pre: BettingPlatform, post: BettingPlatform)
    requires
        pre.wf(),
        post.competitions@ == pre.competitions@,
        post.escrows@ == pre.escrows@,
        post.bets@ == pre.bets@,
        post.config.platform_fee <= MAX_FEE_BPS,
        post.config.total_competitions == pre.config.total_competitions,
    ensures
        post.wf(),
{
    assert forall|i: int| 0 <= i < post.competitions@.len() implies post.comp_ok(i) by {
        assert(pre.comp_ok(i));
    }
    assert forall|k: int| 0 <= k < post.bets@.len() implies post.bet_ok(k) by {
        assert(pre.bet_ok(k));
    }
}

/// Rewriting one competition's status, winner and attested performance
/// figures keeps the ledger well formed, as long as the rewritten record
/// still ties a recorded winner to one of its two assets and carries a
/// winner whenever it is `Resolved`.
pub proof fn lemma_wf_comp_record_change(pre: BettingPlatform, post: BettingPlatform, i: int)
    requires
        pre.wf(),
        0 <= i < pre.competitions@.len(),
        post.config == pre.config,
        post.escrows@ == pre.escrows@,
        post.bets@ == pre.bets@,
        post.competitions@ == pre.competitions@.update(i, post.competitions@[i]),
        ({
            let c0 = pre.competitions@[i];
            let c1 = post.competitions@[i];
            &&& c1.competition_id == c0.competition_id
            &&& c1.token_a == c0.token_a
            &&& c1.token_b == c0.token_b
            &&& c1.start_time == c0.start_time
            &&& c1.end_time == c0.end_time
            &&& c1.total_pool == c0.total_pool
            &&& c1.token_a_pool == c0.token_a_pool
            &&& c1.token_b_pool == c0.token_b_pool
            &&& c1.escrow == c0.escrow
            &&& c1.fee_collected == c0.fee_collected
            &&& c1.collected_fee == c0.collected_fee
        }),
        ({
            let c1 = post.competitions@[i];
            &&& (c1.status is Resolved ==> c1.winner_token is Some)
            &&& (c1.winner_token matches Some(w) ==> w == c1.token_a || w == c1.token_b)
            &&& (pre.competitions@[i].status is Resolved ==> c1.status is Resolved)
        }),
    ensures
        post.wf(),
{
    assert forall|j: int| 0 <= j < post.competitions@.len() implies post.comp_ok(j) by {
        assert(pre.comp_ok(j));
    }
    assert forall|k: int| 0 <= k < post.bets@.len() implies post.bet_ok(k) by {
        assert(pre.bet_ok(k));
    }
    assert forall|j: int, l: int| 0 <= j < l < post.competitions@.len() implies (
    #[trigger] post.competitions@[j]).competition_id@ != (
    #[trigger] post.competitions@[l]).competition_id@ by {
        assert(pre.competitions@[j].competition_id@ != pre.competitions@[l].competition_id@);
    }
}

impl BettingPlatform {
    /// There is a competition under identifier `id`.
    pub open spec fn has_competition(self, id: Seq<char>) -> bool {
        exists|i: int|
            0 <= i < self.competitions@.len() && (#[trigger] self.competitions@[i]).competition_id@
                == id
    }

    /// Index of the competition under identifier `id`; meaningful only when
    /// `has_competition(id)` holds (identifiers are unique in a well-formed
    /// platform).
    pub open spec fn comp_index(self, id: Seq<char>) -> int {
        choose|i: int|
            0 <= i < self.competitions@.len() && (#[trigger] self.competitions@[i]).competition_id@
                == id
    }

    /// Participant `user` holds a bet on the competition at index `comp`.
    pub open spec fn has_bet(self, user: u64, comp: int) -> bool {
        exists|k: int|
            0 <= k < self.bets@.len() && (#[trigger] self.bets@[k]).user == user
                && self.bets@[k].competition == comp
    }

    /// Index of `user`'s bet on the competition at index `comp`; meaningful
    /// only when `has_bet(user, comp)` holds.
    pub open spec fn bet_index(self, user: u64, comp: int) -> int {
        choose|k: int|
            0 <= k < self.bets@.len() && (#[trigger] self.bets@[k]).user == user
                && self.bets@[k].competition == comp
    }

    /// Well-formedness of the competition at index `i`, together with its
    /// escrow account.
    pub open spec fn comp_ok(self, i: int) -> bool {
        let c = self.competitions@[i];
        &&& c.escrow == i
        &&& c.total_pool == c.token_a_pool + c.token_b_pool
        &&& c.token_a != c.token_b
        &&& c.start_time < c.end_time
        &&& c.competition_id@.len() <= MAX_COMPETITION_ID_LEN
        &&& (c.status is Resolved ==> c.winner_token is Some)
        &&& (c.winner_token matches Some(w) ==> w == c.token_a || w == c.token_b)
        &&& (!c.fee_collected ==> c.collected_fee == 0)
        &&& self.escrows@[i] + paid_out(self.bets@, i) + c.collected_fee == c.total_pool
        &&& (!(c.status is Resolved) ==> unclaimed_staked(self.bets@, i) <= self.escrows@[i])
    }

    /// Well-formedness of the bet at index `k` against its competition.
    pub open spec fn bet_ok(self, k: int) -> bool {
        let b = self.bets@[k];
        let c = self.competitions@[b.competition as int];
        &&& b.competition < self.competitions@.len()
        &&& (b.chosen_token == c.token_a || b.chosen_token == c.token_b)
        &&& (b.chosen_token == c.token_a ==> b.amount <= c.token_a_pool)
        &&& (b.chosen_token == c.token_b ==> b.amount <= c.token_b_pool)
        &&& b.amount == BET_STAKE
        &&& (!b.claimed ==> b.payout_amount == 0)
    }

    /// Well-formedness of the whole ledger. Established by `initialize` and
    /// preserved by every operation.
    pub open spec fn wf(self) -> bool {
        &&& self.config.platform_fee <= MAX_FEE_BPS
        &&& self.escrows@.len() == self.competitions@.len()
        &&& self.config.total_competitions == self.competitions@.len()
        &&& (forall|i: int| 0 <= i < self.competitions@.len() ==> self.comp_ok(i))
        &&& (forall|i: int, j: int|
            0 <= i < j < self.competitions@.len() ==> (#[trigger] self.competitions@[i]).competition_id@
                != (#[trigger] self.competitions@[j]).competition_id@)
        &&& (forall|k: int| 0 <= k < self.bets@.len() ==> self.bet_ok(k))
        &&& (forall|k: int, l: int|
            0 <= k < l < self.bets@.len() ==> !((#[trigger] self.bets@[k]).user
                == (#[trigger] self.bets@[l]).user && self.bets@[k].competition
                == self.bets@[l].competition))
    }

    /// Looks a competition up by identifier.
    ///
    /// Returns the index of the competition whose identifier equals
    /// `competition_id`, or `None` when no such competition exists.
    pub fn find_competition(&self, competition_id: &String) -> (r: Option<usize>)
        ensures
            match r {
                Some(i) => i < self.competitions@.len() && self.competitions@[i as int].competition_id@
                    == competition_id@,
                None => !self.has_competition(competition_id@),
            },
    {
        let n: usize = self.competitions.len();
        let mut j: usize = 0;
        while j < n
            invariant
                j <= n,
                n == self.competitions@.len(),
                forall|m: int|
                    0 <= m < j ==> (#[trigger] self.competitions@[m]).competition_id@
                        != competition_id@,
            decreases n - j,
        {
            if self.competitions[j].competition_id == *competition_id {
                return Some(j);
            }
            j = j + 1;
        }
        None
    }

    /// Looks `user`'s bet on the competition at index `comp` up.
    ///
    /// Returns the index of that bet in the bet table, or `None` when the
    /// participant never bet on this competition.
    pub fn find_bet(&self, user: u64, comp: usize) -> (r: Option<usize>)
        ensures
            match r {
                Some(k) => k < self.bets@.len() && self.bets@[k as int].user == user
                    && self.bets@[k as int].competition == comp,
                None => !self.has_bet(user, comp as int),
            },
    {
        let n: usize = self.bets.len();
        let mut j: usize = 0;
        while j < n
            invariant
                j <= n,
                n == self.bets@.len(),
                forall|m: int|
                    0 <= m < j ==> !((#[trigger] self.bets@[m]).user == user && self.bets@[m].competition
                        == comp),
            decreases n - j,
        {
            if self.bets[j].user == user && self.bets[j].competition == comp {
                return Some(j);
            }
            j = j + 1;
        }
        None
    }
}

} // verus!
