use vstd::prelude::*;

verus! {

/// Typed failure returned by every platform operation.
///
/// Failures are synchronous and detected before any state mutation: an
/// operation that returns an error leaves the platform exactly as it was.
#[derive(Clone, Copy, PartialEq, Eq, Structural, Debug)]
pub enum BettingError {
    /// A fee rate above 10000 basis points (100%) was supplied.
    InvalidPlatformFee,
    /// A competition's start time is not strictly in the future.
    InvalidStartTime,
    /// A competition's end time is not after its start time.
    InvalidEndTime,
    /// The two competing assets of a competition are the same.
    DuplicateTokens,
    /// A bet was placed before the competition's start time.
    CompetitionNotStarted,
    /// A bet was placed at or after the competition's end time.
    CompetitionEnded,
    /// A bet was placed while the competition is not in the `Active` status.
    CompetitionNotActive,
    /// The chosen asset is neither of the competition's two assets.
    InvalidTokenChoice,
    /// The stake differs from the single fixed stake size the platform accepts.
    InvalidBetAmount,
    /// The participant already holds a bet on this competition.
    AlreadyBet,
    /// Resolution was attempted before the competition's end time.
    CompetitionNotEnded,
    /// The competition's current status does not admit the requested transition.
    InvalidCompetitionStatus,
    /// The attested winner is neither of the competition's two assets.
    InvalidWinner,
    /// A claim was attempted on a competition that is not resolved.
    CompetitionNotResolved,
    /// A resolved competition has no winner recorded (defensive guard).
    NoWinner,
    /// The claiming participant's bet is not on the winning asset.
    NotWinner,
    /// The bet's winnings were already claimed.
    AlreadyClaimed,
    /// The winning asset's pool is empty (defensive guard).
    NoWinnerPool,
    /// The platform registry is paused.
    PlatformPaused,
    /// The caller is not the platform authority.
    Unauthorized,
    /// A refund was attempted on a competition that is neither paused nor cancelled.
    CompetitionNotPaused,
    /// The bet was already refunded.
    AlreadyRefunded,
    /// The escrow does not hold enough funds for the requested disbursement.
    InsufficientEscrowBalance,
    /// A pool accumulator would overflow its 64-bit range.
    MathOverflow,
    /// The competition identifier exceeds the maximum length.
    CompetitionIdTooLong,
    /// No competition exists under the given identifier.
    CompetitionNotFound,
    /// The participant holds no bet on the given competition.
    BetNotFound,
    /// A competition already exists under the given identifier.
    CompetitionAlreadyExists,
}

} // verus!
