//! The wager record and the plain data that moves through the ledger.
//!
//! Identities are plain `u64` account numbers and stakes are plain `u64`
//! amounts; the terms of a wager are an opaque byte string that the ledger
//! stores but never interprets. A payout pool is held as `u128` so that the
//! sum of two stakes can never overflow.

use vstd::prelude::*;

verus! {

/// The lifecycle state of a wager. Transitions are monotone and
/// irreversible: `Open` may step to `Matched` or `Cancelled`, `Matched` may
/// step to `Resolved`, and `Resolved` and `Cancelled` are terminal.
#[derive(Clone, Copy, Debug, PartialEq, Eq, Structural)]
pub enum BetStatus {
    Open,
    Matched,
    Resolved,
    Cancelled,
}

/// Why an operation was rejected. Every error is detected before any
/// mutation, so a rejected operation leaves the ledger untouched.
#[derive(Clone, Copy, Debug, PartialEq, Eq, Structural)]
pub enum BetError {
    /// `create_bet` was called with a zero deposit.
    InvalidStake,
    /// No wager with the given id exists.
    NotFound,
    /// The wager is not `Open`.
    NotOpen,
    /// The wager is not `Matched`.
    NotMatched,
    /// The creator tried to accept their own wager.
    SelfMatch,
    /// The wager already has a challenger.
    AlreadyMatched,
    /// The challenger's deposit does not equal the creator's stake.
    StakeMismatch,
    /// The caller is not the party this operation is reserved to.
    Unauthorized,
}

/// A single wager record. Records are never deleted: a terminal wager stays
/// permanently queryable under its id.
#[derive(Clone, Debug, PartialEq, Eq)]
pub struct Bet {
    /// Unique positive id, assigned in creation order starting at 1.
    pub id: u64,
    /// The identity that opened the wager. Immutable.
    pub creator: u64,
    /// Opaque reference to the off-ledger terms. Immutable, uninterpreted.
    pub description: Vec<u8>,
    /// Current lifecycle state.
    pub status: BetStatus,
    /// The creator's deposit; positive and fixed at creation.
    pub creator_stake: u64,
    /// The counter-party, set exactly once on acceptance, never cleared.
    pub challenger: Option<u64>,
    /// Zero until acceptance, then exactly equal to `creator_stake`.
    pub challenger_stake: u64,
    /// The winning identity, set exactly once on resolution.
    pub winner: Option<u64>,
    /// The reported outcome, set exactly once on resolution; `true` favors
    /// the creator, `false` the challenger.
    pub result: Option<bool>,
    /// Ledger timestamp captured at creation. Immutable.
    pub creation_timestamp: u64,
}

impl Bet {
    /// The record invariant: holds after every operation, for every wager.
    pub open spec fn wf(self) -> bool {
        &&& self.creator_stake > 0
        &&& (self.challenger is Some <==> (self.status is Matched || self.status is Resolved))
        &&& (self.challenger is Some ==> self.challenger_stake == self.creator_stake
            && self.challenger.unwrap() != self.creator)
        &&& (self.challenger is None ==> self.challenger_stake == 0)
        &&& (self.winner is Some <==> self.status is Resolved)
        &&& (self.result is Some <==> self.status is Resolved)
        &&& (self.status is Resolved ==> self.winner == Some(
            if self.result.unwrap() {
                self.creator
            } else {
                self.challenger.unwrap()
            },
        ))
    }

    /// The full custody for a matched wager, and the amount disbursed to the
    /// winner on resolution.
    pub open spec fn pool(self) -> int {
        self.creator_stake + self.challenger_stake
    }

    /// This record after acceptance by `challenger`: the challenger is set,
    /// an equal stake is custodied, and the wager is `Matched`; every other
    /// field is kept.
    pub open spec fn accepted(self, challenger: u64) -> Bet {
        Bet {
            status: BetStatus::Matched,
            challenger: Some(challenger),
            challenger_stake: self.creator_stake,
            ..self
        }
    }

    /// This record after cancellation: only the status moves, to
    /// `Cancelled`; the challenger fields stay `None`.
    pub open spec fn cancelled(self) -> Bet {
        Bet { status: BetStatus::Cancelled, ..self }
    }

    /// The identity owed the pool when the arbiter reports `result`: the
    /// creator on `true`, the challenger on `false`.
    pub open spec fn winner_for(self, result: bool) -> u64 {
        if result {
            self.creator
        } else {
            self.challenger.unwrap()
        }
    }

    /// This record after resolution with `result`: the winner and the
    /// outcome are recorded exactly once and the wager is `Resolved`.
    pub open spec fn resolved(self, result: bool) -> Bet {
        Bet {
            status: BetStatus::Resolved,
            winner: Some(self.winner_for(result)),
            result: Some(result),
            ..self
        }
    }
}

/// The only permitted movements of `status`: staying put, `Open` to
/// `Matched` or `Cancelled`, and `Matched` to `Resolved`.
pub open spec fn status_progress(before: BetStatus, after: BetStatus) -> bool {
    ||| before == after
    ||| (before is Open && (after is Matched || after is Cancelled))
    ||| (before is Matched && after is Resolved)
}

/// One disbursement out of custody: `amount` units paid to `to` on behalf of
/// wager `bet_id`. The ledger appends exactly one payout when a wager
/// reaches a terminal state, and never any other.
#[derive(Clone, Copy, Debug, PartialEq, Eq)]
pub struct Payout {
    pub bet_id: u64,
    pub to: u64,
    pub amount: u128,
}

/// One entry of the append-only event log, recorded by every state-changing
/// operation in execution order.
#[derive(Clone, Debug, PartialEq, Eq)]
pub enum BetEvent {
    BetCreated { bet_id: u64, creator: u64, description: Vec<u8>, stake: u64 },
    BetAccepted { bet_id: u64, challenger: u64, stake: u64 },
    BetCancelled { bet_id: u64, creator: u64 },
    BetResolved { bet_id: u64, winner: u64, total_pool: u128, result: bool },
}

} // verus!
