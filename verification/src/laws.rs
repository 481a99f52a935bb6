//! Ledger-wide laws, stated over any well-formed ledger value.
//!
//! Each law here is a consequence of the invariant `BettingContract::wf`,
//! which `init` establishes and every operation preserves; the laws about
//! single transitions — status only ever moves forward, and a rejected
//! operation leaves the ledger untouched — are stated directly in the
//! `ensures` of the operations themselves.

use vstd::prelude::*;

use crate::ledger::BettingContract;

verus! {

/// For every wager, at every point in time: the challenger is set exactly
/// when the challenger's stake equals the creator's, and exactly when the
/// wager is `Matched` or `Resolved`.
pub proof fn lemma_challenger_consistency(l: BettingContract, id: u64)
    requires
        l.wf(),
        l.valid_id(id),
    ensures
        (l.bet_at(id).challenger is Some) == (l.bet_at(id).challenger_stake == l.bet_at(
            id,
        ).creator_stake),
        (l.bet_at(id).challenger is Some) == (l.bet_at(id).status is Matched || l.bet_at(
            id,
        ).status is Resolved),
{
    assert(l.bets@[id - 1].wf());
}

/// At all times, an id is in the open index exactly when its wager exists
/// and is `Open`, and in the matched index exactly when its wager exists and
/// is `Matched`.
pub proof fn lemma_index_consistency(l: BettingContract, id: u64)
    requires
        l.wf(),
    ensures
        l.active_bets@.contains(id) <==> (l.valid_id(id) && l.bet_at(id).status is Open),
        l.matched_bets@.contains(id) <==> (l.valid_id(id) && l.bet_at(id).status is Matched),
{
    if l.valid_id(id) {
        assert(l.bets@[id - 1].id == id);
        if l.bets@[id - 1].status is Open {
            assert(l.active_bets@.contains(l.bets@[id - 1].id));
        }
        if l.bets@[id - 1].status is Matched {
            assert(l.matched_bets@.contains(l.bets@[id - 1].id));
        }
    }
}

/// Conservation for a resolved wager: exactly one disbursement exists for
/// its id, and it pays the full pool — both stakes — to the recorded
/// winner.
pub proof fn lemma_conservation_resolved(l: BettingContract, id: u64)
    requires
        l.wf(),
        l.valid_id(id),
        l.bet_at(id).status is Resolved,
    ensures
        exists|k: int| 0 <= k < l.payouts@.len() && (#[trigger] l.payouts@[k]).bet_id == id,
        forall|k: int|
            0 <= k < l.payouts@.len() && (#[trigger] l.payouts@[k]).bet_id == id ==> l.payouts@[k].to
                == l.bet_at(id).winner.unwrap() && l.payouts@[k].amount == l.bet_at(id).pool(),
        forall|k1: int, k2: int|
            0 <= k1 < l.payouts@.len() && 0 <= k2 < l.payouts@.len() && (#[trigger] l.payouts@[k1]).bet_id
                == id && (#[trigger] l.payouts@[k2]).bet_id == id ==> k1 == k2,
{
    assert(l.bets@[id - 1].status is Resolved);
    let k = choose|k: int|
        0 <= k < l.payouts@.len() && (#[trigger] l.payouts@[k]).bet_id == id - 1 + 1;
    assert(l.payouts@[k].bet_id == id);
    assert forall|k: int|
        0 <= k < l.payouts@.len() && (#[trigger] l.payouts@[k]).bet_id == id implies l.payouts@[k].to
        == l.bet_at(id).winner.unwrap() && l.payouts@[k].amount == l.bet_at(id).pool() by {
        assert(l.payout_matches(l.payouts@[k]));
    }
}

/// Conservation for a cancelled wager: exactly one disbursement exists for
/// its id, it returns exactly the creator's stake to the creator, and no
/// challenger disbursement ever occurs.
pub proof fn lemma_conservation_cancelled(l: BettingContract, id: u64)
    requires
        l.wf(),
        l.valid_id(id),
        l.bet_at(id).status is Cancelled,
    ensures
        exists|k: int| 0 <= k < l.payouts@.len() && (#[trigger] l.payouts@[k]).bet_id == id,
        forall|k: int|
            0 <= k < l.payouts@.len() && (#[trigger] l.payouts@[k]).bet_id == id ==> l.payouts@[k].to
                == l.bet_at(id).creator && l.payouts@[k].amount == l.bet_at(id).creator_stake,
        forall|k1: int, k2: int|
            0 <= k1 < l.payouts@.len() && 0 <= k2 < l.payouts@.len() && (#[trigger] l.payouts@[k1]).bet_id
                == id && (#[trigger] l.payouts@[k2]).bet_id == id ==> k1 == k2,
{
    assert(l.bets@[id - 1].status is Cancelled);
    let k = choose|k: int|
        0 <= k < l.payouts@.len() && (#[trigger] l.payouts@[k]).bet_id == id - 1 + 1;
    assert(l.payouts@[k].bet_id == id);
    assert forall|k: int|
        0 <= k < l.payouts@.len() && (#[trigger] l.payouts@[k]).bet_id == id implies l.payouts@[k].to
        == l.bet_at(id).creator && l.payouts@[k].amount == l.bet_at(id).creator_stake by {
        assert(l.payout_matches(l.payouts@[k]));
    }
}

/// A wager that is still live — `Open` or `Matched` — has had no
/// disbursement at all: custody is only released by reaching a terminal
/// state.
pub proof fn lemma_live_wager_no_payout(l: BettingContract, id: u64)
    requires
        l.wf(),
        l.valid_id(id),
        l.bet_at(id).status is Open || l.bet_at(id).status is Matched,
    ensures
        forall|k: int| 0 <= k < l.payouts@.len() ==> (#[trigger] l.payouts@[k]).bet_id != id,
{
    assert forall|k: int|
        0 <= k < l.payouts@.len() implies (#[trigger] l.payouts@[k]).bet_id != id by {
        assert(l.payout_matches(l.payouts@[k]));
    }
}

} // verus!
