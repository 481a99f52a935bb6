//! A verified escrow ledger for peer-to-peer wagers.
//!
//! Two parties stake equal value against each other on the outcome of an
//! externally reported event; a designated arbiter (the ledger owner)
//! resolves the outcome and the full pool is paid to the winner. The ledger
//! owns every wager record, an open index, a matched index, a per-identity
//! participation log, an append-only event log, and an append-only record of
//! every disbursement. Caller identity, attached payment and the current
//! timestamp are supplied per call by the surrounding execution environment;
//! disbursements and events are handed back as data for that environment to
//! perform.

pub mod bet;
pub mod laws;
pub mod ledger;

pub use bet::Bet;
pub use bet::BetError;
pub use bet::BetEvent;
pub use bet::BetStatus;
pub use bet::Payout;
pub use ledger::BettingContract;
